use dosh::alias::Alias;
use dosh::command::Command;
use dosh::config::Config;
use dosh::context::ExecutionContext;
use dosh::directive::Directive;
use dosh::error::ExecutionError;
use dosh::interpreter::{enter, Action, Event, Interpreter};
use dosh::platform::Platform;

fn site() -> Config {
    let mut config = Config::new();
    config.add_alias(Alias::new("hugo", "hugo").with_variant(Platform::Windows, "hugo.exe"));
    config.add_environment("PROD");
    config.add_environment("TEST");
    config.add_command(Command::new("build", "Build the site").with_line("{hugo}"));
    config.add_command(
        Command::new("deploy", "Publish the site")
            .with_line("CMD build")
            .with_line("CD public")
            .with_line("RUN git add .")
            .with_line("CD ..")
            .with_line("PRINT \"DONE.\""),
    );
    config.add_command(Command::new("release", "Release").with_environment("PROD").with_line("CMD deploy"));
    config.add_command(Command::new("A", "").with_line("CMD B"));
    config.add_command(Command::new("B", "").with_line("CMD A"));
    config.add_command(Command::new("self", "").with_line("RUN first").with_line("CMD self"));
    config.add_command(Command::new("twice", "").with_line("CMD build").with_line("CMD build"));
    config.add_command(Command::new("nothing", ""));
    config.add_command(Command::new("hollow", "").with_line("CMD nothing").with_line("CMD nothing"));
    config.add_command(Command::new("broken", "").with_line("RUN echo a").with_line("CD"));
    config.add_command(Command::new("typo", "").with_line("RUN echo a").with_line("RUN {huga}"));
    config.add_command(Command::new("outer", "").with_line("PRINT \"start\"").with_line("CMD release"));
    config.add_command(Command::new("missing", "").with_line("CMD nowhere"));
    config
}

fn shell(line: &str, cwd: &str) -> Action {
    Action::RunShell { line: line.to_string(), cwd: cwd.to_string() }
}

fn cd(path: &str) -> Action {
    Action::ChangeDirectory { path: path.to_string() }
}

fn print(text: &str) -> Action {
    Action::Print { text: text.to_string() }
}

fn stack(names: &[&str]) -> Vec<String> {
    names.iter().map(|s| s.to_string()).collect()
}

#[test]
fn environment_gating_refuses_before_anything_runs() {
    let config = site();
    let machine = Interpreter::start(&config, Platform::Linux, "release", "TEST", "/site");
    assert_eq!(
        machine.action(),
        Action::Failed(ExecutionError::EnvironmentMismatch {
            command: "release".to_string(),
            active: "TEST".to_string(),
            required: vec!["PROD".to_string()],
        })
    );
    assert!(machine.is_finished());
    assert!(machine.context().call_stack.is_empty());
}

#[test]
fn environment_gating_lets_the_right_environment_through() {
    let config = site();
    let machine = Interpreter::start(&config, Platform::Linux, "release", "PROD", "/site");
    assert_eq!(machine.action(), shell("hugo", "/site"));
    assert_eq!(machine.context().call_stack, stack(&["release", "deploy", "build"]));
}

#[test]
fn environment_gating_applies_to_a_nested_command_when_it_is_invoked() {
    let config = site();
    let mut machine = Interpreter::start(&config, Platform::Linux, "outer", "TEST", "/site");
    assert_eq!(machine.action(), print("start"));
    assert_eq!(
        machine.resume(Event::Printed),
        Action::Failed(ExecutionError::EnvironmentMismatch {
            command: "release".to_string(),
            active: "TEST".to_string(),
            required: vec!["PROD".to_string()],
        })
    );
}

#[test]
fn recursive_composition_gives_five_effects_in_order() {
    let config = site();
    let mut machine = Interpreter::start(&config, Platform::Linux, "deploy", "PROD", "/site");
    assert_eq!(machine.action(), shell("hugo", "/site"));
    assert_eq!(machine.context().call_stack, stack(&["deploy", "build"]));
    assert_eq!(machine.resume(Event::ShellExited(0)), cd("/site/public"));
    assert_eq!(machine.context().call_stack, stack(&["deploy"]));
    assert_eq!(machine.context().cwd, "/site");
    assert_eq!(machine.resume(Event::DirectoryFound), shell("git add .", "/site/public"));
    assert_eq!(machine.context().cwd, "/site/public");
    assert_eq!(machine.resume(Event::ShellExited(0)), cd("/site"));
    assert_eq!(machine.resume(Event::DirectoryFound), print("DONE."));
    assert_eq!(machine.context().cwd, "/site");
    assert!(!machine.is_finished());
    assert_eq!(machine.resume(Event::Printed), Action::Succeeded);
    assert!(machine.is_finished());
    assert!(machine.context().call_stack.is_empty());
    assert_eq!(machine.context().cwd, "/site");
    assert_eq!(machine.context().active_environment, "PROD");
}

#[test]
fn recursive_composition_resolves_aliases_for_the_platform() {
    let config = site();
    let machine = Interpreter::start(&config, Platform::Windows, "deploy", "PROD", "C:/site");
    assert_eq!(machine.action(), shell("hugo.exe", "C:/site"));
}

#[test]
fn cycle_detection_fails_without_running_anything() {
    let config = site();
    let machine = Interpreter::start(&config, Platform::Linux, "A", "PROD", "/site");
    assert_eq!(
        machine.action(),
        Action::Failed(ExecutionError::CyclicInvocation(stack(&["A", "B", "A"])))
    );
    assert!(machine.is_finished());
    assert!(machine.context().call_stack.is_empty());
}

#[test]
fn cycle_detection_catches_a_command_that_invokes_itself() {
    let config = site();
    let mut machine = Interpreter::start(&config, Platform::Linux, "self", "PROD", "/site");
    assert_eq!(machine.action(), shell("first", "/site"));
    assert_eq!(
        machine.resume(Event::ShellExited(0)),
        Action::Failed(ExecutionError::CyclicInvocation(stack(&["self", "self"])))
    );
}

#[test]
fn invoking_a_command_twice_in_a_row_is_no_cycle() {
    let config = site();
    let mut machine = Interpreter::start(&config, Platform::Linux, "twice", "PROD", "/site");
    assert_eq!(machine.action(), shell("hugo", "/site"));
    assert_eq!(machine.resume(Event::ShellExited(0)), shell("hugo", "/site"));
    assert_eq!(machine.context().call_stack, stack(&["twice", "build"]));
    assert_eq!(machine.resume(Event::ShellExited(0)), Action::Succeeded);
}

#[test]
fn failure_short_circuits_the_directives_that_follow() {
    let config = site();
    let mut machine = Interpreter::start(&config, Platform::Linux, "deploy", "PROD", "/site");
    machine.resume(Event::ShellExited(0));
    assert_eq!(machine.resume(Event::DirectoryFound), shell("git add .", "/site/public"));
    let failure = Action::Failed(ExecutionError::ShellCommandFailed {
        line: "git add .".to_string(),
        code: 1,
    });
    assert_eq!(machine.resume(Event::ShellExited(1)), failure);
    assert_eq!(machine.context().cwd, "/site/public");
    assert!(machine.is_finished());
    assert!(machine.context().call_stack.is_empty());
    assert_eq!(machine.resume(Event::ShellExited(0)), failure);
    assert_eq!(machine.resume(Event::DirectoryFound), failure);
    assert_eq!(machine.resume(Event::Printed), failure);
    assert_eq!(machine.action(), failure);
    assert_eq!(machine.context().cwd, "/site/public");
}

#[test]
fn failure_in_a_nested_command_ends_the_whole_invocation() {
    let config = site();
    let mut machine = Interpreter::start(&config, Platform::Linux, "release", "PROD", "/site");
    assert_eq!(
        machine.resume(Event::ShellExited(-7)),
        Action::Failed(ExecutionError::ShellCommandFailed { line: "hugo".to_string(), code: -7 })
    );
    assert!(machine.context().call_stack.is_empty());
    assert_eq!(machine.context().cwd, "/site");
}

#[test]
fn spawn_failure_is_reported_with_its_cause() {
    let config = site();
    let mut machine = Interpreter::start(&config, Platform::Linux, "build", "PROD", "/site");
    assert_eq!(
        machine.resume(Event::SpawnFailed("no shell".to_string())),
        Action::Failed(ExecutionError::SpawnError {
            line: "hugo".to_string(),
            cause: "no shell".to_string(),
        })
    );
}

#[test]
fn missing_directory_is_reported_as_written() {
    let config = site();
    let mut machine = Interpreter::start(&config, Platform::Linux, "deploy", "PROD", "/site");
    assert_eq!(machine.resume(Event::ShellExited(0)), cd("/site/public"));
    assert_eq!(
        machine.resume(Event::DirectoryMissing),
        Action::Failed(ExecutionError::DirectoryNotFound("public".to_string()))
    );
    assert_eq!(machine.context().cwd, "/site");
}

#[test]
fn interrupt_ends_the_invocation_in_every_waiting_state() {
    let config = site();
    let interrupted = Action::Failed(ExecutionError::Interrupted);
    let mut in_shell = Interpreter::start(&config, Platform::Linux, "deploy", "PROD", "/site");
    assert_eq!(in_shell.resume(Event::Interrupted), interrupted);
    assert!(in_shell.context().call_stack.is_empty());
    let mut in_cd = Interpreter::start(&config, Platform::Linux, "deploy", "PROD", "/site");
    in_cd.resume(Event::ShellExited(0));
    assert_eq!(in_cd.resume(Event::Interrupted), interrupted);
    let mut in_print = Interpreter::start(&config, Platform::Linux, "outer", "PROD", "/site");
    assert_eq!(in_print.resume(Event::Interrupted), interrupted);
}

#[test]
fn interrupt_after_the_end_changes_nothing() {
    let config = site();
    let mut machine = Interpreter::start(&config, Platform::Linux, "nothing", "PROD", "/site");
    assert_eq!(machine.action(), Action::Succeeded);
    assert_eq!(machine.resume(Event::Interrupted), Action::Succeeded);
    assert_eq!(machine.resume(Event::ShellExited(3)), Action::Succeeded);
}

#[test]
fn an_event_that_answers_nothing_repeats_the_action() {
    let config = site();
    let mut machine = Interpreter::start(&config, Platform::Linux, "deploy", "PROD", "/site");
    assert_eq!(machine.resume(Event::Printed), shell("hugo", "/site"));
    assert_eq!(machine.resume(Event::DirectoryFound), shell("hugo", "/site"));
    assert_eq!(machine.resume(Event::DirectoryMissing), shell("hugo", "/site"));
    assert_eq!(machine.context().call_stack, stack(&["deploy", "build"]));
    assert_eq!(machine.resume(Event::ShellExited(0)), cd("/site/public"));
    assert_eq!(machine.resume(Event::ShellExited(0)), cd("/site/public"));
    assert_eq!(machine.resume(Event::SpawnFailed("x".to_string())), cd("/site/public"));
    assert_eq!(machine.resume(Event::Printed), cd("/site/public"));
    assert_eq!(machine.context().cwd, "/site");
}

#[test]
fn unknown_command_is_refused() {
    let config = site();
    let machine = Interpreter::start(&config, Platform::Linux, "publish", "PROD", "/site");
    assert_eq!(
        machine.action(),
        Action::Failed(ExecutionError::CommandNotFound("publish".to_string()))
    );
}

#[test]
fn unknown_nested_command_is_refused() {
    let config = site();
    let machine = Interpreter::start(&config, Platform::Linux, "missing", "PROD", "/site");
    assert_eq!(
        machine.action(),
        Action::Failed(ExecutionError::CommandNotFound("nowhere".to_string()))
    );
}

#[test]
fn a_command_is_read_whole_before_any_of_it_runs() {
    let config = site();
    let broken = Interpreter::start(&config, Platform::Linux, "broken", "PROD", "/site");
    assert_eq!(
        broken.action(),
        Action::Failed(ExecutionError::MalformedDirective("CD".to_string()))
    );
    let typo = Interpreter::start(&config, Platform::Linux, "typo", "PROD", "/site");
    assert_eq!(typo.action(), Action::Failed(ExecutionError::UnknownAlias("huga".to_string())));
}

#[test]
fn commands_without_directives_succeed_at_once() {
    let config = site();
    let nothing = Interpreter::start(&config, Platform::Linux, "nothing", "PROD", "/site");
    assert_eq!(nothing.action(), Action::Succeeded);
    let hollow = Interpreter::start(&config, Platform::Linux, "hollow", "PROD", "/site");
    assert_eq!(hollow.action(), Action::Succeeded);
    assert!(hollow.is_finished());
}

#[test]
fn working_directory_changes_outlive_the_command_that_made_them() {
    let mut config = Config::new();
    config.add_command(Command::new("enter", "").with_line("CD out"));
    config.add_command(Command::new("all", "").with_line("CMD enter").with_line("RUN ls"));
    let mut machine = Interpreter::start(&config, Platform::Bsd, "all", "", "/w");
    assert_eq!(machine.action(), cd("/w/out"));
    assert_eq!(machine.resume(Event::DirectoryFound), shell("ls", "/w/out"));
    assert_eq!(machine.context().call_stack, stack(&["all"]));
}

#[test]
fn enter_checks_in_order() {
    let config = site();
    let mut context = ExecutionContext::new("/site", "TEST");
    assert_eq!(
        enter(&config, Platform::Linux, &context, "build"),
        Ok(vec![Directive::RunShell("hugo".to_string())])
    );
    assert_eq!(
        enter(&config, Platform::Linux, &context, "nope"),
        Err(ExecutionError::CommandNotFound("nope".to_string()))
    );
    context.call_stack.push("release".to_string());
    assert_eq!(
        enter(&config, Platform::Linux, &context, "release"),
        Err(ExecutionError::EnvironmentMismatch {
            command: "release".to_string(),
            active: "TEST".to_string(),
            required: vec!["PROD".to_string()],
        })
    );
    context.call_stack.push("broken".to_string());
    assert_eq!(
        enter(&config, Platform::Linux, &context, "broken"),
        Err(ExecutionError::CyclicInvocation(stack(&["release", "broken", "broken"])))
    );
}

#[test]
fn execution_context_starts_with_an_empty_call_stack() {
    let context = ExecutionContext::new("/here", "PROD");
    assert_eq!(context.cwd, "/here");
    assert_eq!(context.active_environment, "PROD");
    assert!(context.call_stack.is_empty());
}

#[test]
fn error_clone_is_equal() {
    for error in [
        ExecutionError::CommandNotFound("a".to_string()),
        ExecutionError::EnvironmentMismatch {
            command: "a".to_string(),
            active: "b".to_string(),
            required: vec!["c".to_string()],
        },
        ExecutionError::CyclicInvocation(stack(&["a", "a"])),
        ExecutionError::UnknownAlias("a".to_string()),
        ExecutionError::MalformedDirective("a".to_string()),
        ExecutionError::DirectoryNotFound("a".to_string()),
        ExecutionError::ShellCommandFailed { line: "a".to_string(), code: 2 },
        ExecutionError::SpawnError { line: "a".to_string(), cause: "b".to_string() },
        ExecutionError::Interrupted,
    ] {
        assert_eq!(error.clone(), error);
    }
}
