use dosh::alias::Alias;
use dosh::command::Command;
use dosh::config::Config;
use dosh::error::ExecutionError;
use dosh::help::Help;
use dosh::platform::Platform;

fn site() -> Config {
    let mut config = Config::new();
    config.add_alias(Alias::new("hugo", "hugo").with_variant(Platform::Windows, "hugo.exe"));
    config.add_environment("PROD");
    config.add_environment("TEST");
    config.add_command(Command::new("build", "Build the site").with_line("{hugo}"));
    config.add_command(
        Command::new("deploy", "Publish the site").with_environment("PROD").with_line("CMD build"),
    );
    config
}

#[test]
fn command_new_has_a_name_and_a_description() {
    let command = Command::new("build", "Build the site");
    assert_eq!(command.name, "build");
    assert_eq!(command.description, "Build the site");
    assert!(command.required_environments.is_empty());
    assert!(command.run.is_empty());
}

#[test]
fn command_builders_append() {
    let command = Command::new("x", "")
        .with_line("RUN a")
        .with_line("RUN b")
        .with_environment("PROD")
        .with_environment("STAGE");
    assert_eq!(command.run, vec!["RUN a".to_string(), "RUN b".to_string()]);
    assert_eq!(command.required_environments, vec!["PROD".to_string(), "STAGE".to_string()]);
    assert_eq!(command.clone(), command);
}

#[test]
fn command_without_environments_is_eligible_everywhere() {
    let command = Command::new("build", "");
    assert!(command.is_eligible("PROD"));
    assert!(command.is_eligible(""));
    assert_eq!(command.check_eligible("TEST"), Ok(()));
}

#[test]
fn command_is_eligible_in_its_environments_only() {
    let command = Command::new("deploy", "").with_environment("PROD").with_environment("STAGE");
    assert!(command.is_eligible("PROD"));
    assert!(command.is_eligible("STAGE"));
    assert!(!command.is_eligible("TEST"));
    assert!(!command.is_eligible("prod"));
    assert_eq!(command.check_eligible("STAGE"), Ok(()));
    assert_eq!(
        command.check_eligible("TEST"),
        Err(ExecutionError::EnvironmentMismatch {
            command: "deploy".to_string(),
            active: "TEST".to_string(),
            required: vec!["PROD".to_string(), "STAGE".to_string()],
        })
    );
}

#[test]
fn config_new_is_empty() {
    let config = Config::new();
    assert_eq!(config.command_count(), 0);
    assert_eq!(config.aliases().len(), 0);
    assert!(config.environments().is_empty());
    assert_eq!(config.default_environment(), None);
    assert!(config.get_commands().is_empty());
}

#[test]
fn config_get_commands_keeps_the_order() {
    let commands = site().get_commands();
    assert_eq!(commands.len(), 2);
    assert_eq!(commands[0], Command::new("build", "Build the site").with_line("{hugo}"));
    assert_eq!(commands[1].name, "deploy");
}

#[test]
fn config_rejects_a_second_command_of_one_name() {
    let mut config = site();
    assert!(!config.add_command(Command::new("build", "Another")));
    assert_eq!(config.command_count(), 2);
    assert_eq!(config.find_command("build").map(|c| c.description.as_str()), Some("Build the site"));
    assert!(config.add_command(Command::new("Build", "Another")));
    assert_eq!(config.command_count(), 3);
}

#[test]
fn config_rejects_a_second_alias_of_one_name() {
    let mut config = site();
    assert!(!config.add_alias(Alias::new("hugo", "other")));
    assert!(config.add_alias(Alias::new("npm", "npm")));
    assert_eq!(config.aliases().len(), 2);
    assert_eq!(config.aliases().get("hugo").map(|a| a.default.as_str()), Some("hugo"));
}

#[test]
fn config_environments_are_a_set_in_order() {
    let mut config = site();
    assert!(!config.add_environment("PROD"));
    assert!(config.add_environment("STAGE"));
    assert_eq!(
        config.environments(),
        &vec!["PROD".to_string(), "TEST".to_string(), "STAGE".to_string()]
    );
    assert_eq!(config.default_environment(), Some(&"PROD".to_string()));
}

#[test]
fn config_resolve_finds_a_command() {
    let config = site();
    assert_eq!(config.resolve("deploy").map(|c| c.run.clone()), Ok(vec!["CMD build".to_string()]));
}

#[test]
fn config_resolve_fails_on_an_unknown_command() {
    let config = site();
    assert_eq!(
        config.resolve("publish").map(|c| c.name.clone()),
        Err(ExecutionError::CommandNotFound("publish".to_string()))
    );
    assert_eq!(config.find_command("publish"), None);
}

#[test]
fn config_lists_names_and_help_texts() {
    assert_eq!(
        site().available_commands(),
        vec![
            ("build".to_string(), "Build the site".to_string()),
            ("deploy".to_string(), "Publish the site".to_string()),
        ]
    );
}

#[test]
fn help_renders_a_title_and_one_line_per_command() {
    let help = Help::new(site());
    assert_eq!(
        help.render("Commands"),
        vec![
            "Commands".to_string(),
            "  > build: Build the site".to_string(),
            "  > deploy: Publish the site".to_string(),
        ]
    );
}

#[test]
fn help_of_an_empty_configuration_is_the_title() {
    assert_eq!(Help::new(Config::new()).render("Nothing"), vec!["Nothing".to_string()]);
}

#[test]
fn help_heading_is_cyan_where_colours_are_on_and_plain_where_they_are_off() {
    let help = Help::new(site());
    console::set_colors_enabled(true);
    let coloured = help.lines();
    console::set_colors_enabled(false);
    let plain = help.lines();
    assert_eq!(coloured[0], "\u{1b}[36mAvailable commands:\u{1b}[0m");
    assert_eq!(plain[0], "Available commands:");
    assert_eq!(coloured[1..], plain[1..]);
    assert_eq!(plain[1], "  > build: Build the site");
    assert_eq!(plain.len(), 3);
}
