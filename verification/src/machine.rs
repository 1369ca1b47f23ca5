//! The interpreter as a mathematical state machine.
//!
//! A state holds the execution context, one frame for every command that is
//! being expanded, and what the machine waits for. The machine moves when an
//! event arrives: it then works through directives until one of them needs
//! the outside world, or until the invocation has ended.

use vstd::prelude::*;
use crate::command::{command_names, find_command, CommandView};
use crate::config::ConfigView;
use crate::context::ContextView;
use crate::directive::{lemma_parsed_run_len, parsed_run, DirectiveView};
use crate::error::ExecutionErrorView;
use crate::path::resolved;
use crate::platform::Platform;
use crate::text::{lemma_position, position};

verus! {

/// The directives of one command that is being expanded, and how many of
/// them have been dispatched.
pub struct FrameView {
    pub directives: Seq<DirectiveView>,
    pub next: nat,
}

/// What the machine waits for.
pub enum WaitingView {
    /// The end of the shell process that runs the line.
    Shell(Seq<char>),
    /// Word on whether `target`, which `path` resolves to, is a directory.
    Directory { path: Seq<char>, target: Seq<char> },
    /// Word that the text was printed.
    Print(Seq<char>),
    /// Nothing: the invocation has ended, with an error or without.
    Done(Option<ExecutionErrorView>),
}

/// A state of the machine.
pub struct MachineView {
    pub context: ContextView,
    pub frames: Seq<FrameView>,
    pub waiting: WaitingView,
}

/// What the machine asks of the outside world.
pub enum ActionView {
    RunShell { line: Seq<char>, cwd: Seq<char> },
    ChangeDirectory { path: Seq<char> },
    Print { text: Seq<char> },
    Succeeded,
    Failed(ExecutionErrorView),
}

/// What the outside world reports back.
pub enum EventView {
    ShellExited(i32),
    SpawnFailed(Seq<char>),
    DirectoryFound,
    DirectoryMissing,
    Printed,
    Interrupted,
}

/// What invoking the command `name` in `context` gives: its directives, or
/// the reason why it cannot be invoked. The command must exist, be eligible
/// under the active environment and not be in expansion already, and all of
/// its lines must be readable; the checks are made in this order.
pub open spec fn entered(
    config: ConfigView,
    platform: Platform,
    context: ContextView,
    name: Seq<char>,
) -> Result<Seq<DirectiveView>, ExecutionErrorView> {
    match find_command(config.commands, name) {
        None => Err(ExecutionErrorView::CommandNotFound(name)),
        Some(command) => if !command.eligible(context.active_environment) {
            Err(
                ExecutionErrorView::EnvironmentMismatch {
                    command: command.name,
                    active: context.active_environment,
                    required: command.required_environments,
                },
            )
        } else if context.call_stack.contains(name) {
            Err(ExecutionErrorView::CyclicInvocation(context.call_stack.push(name)))
        } else {
            parsed_run(command.run, config.aliases, platform, command.run.len() as int)
        },
    }
}

/// The state after a failure: every command has been left, the working
/// directory is where it was, and the machine is done with the error.
pub open spec fn failed(context: ContextView, error: ExecutionErrorView) -> MachineView {
    MachineView {
        context: ContextView { call_stack: Seq::empty(), ..context },
        frames: Seq::empty(),
        waiting: WaitingView::Done(Some(error)),
    }
}

/// The frame on top, with one more directive dispatched.
pub open spec fn taken(frames: Seq<FrameView>) -> Seq<FrameView> {
    frames.update(
        frames.len() - 1,
        FrameView { next: frames.last().next + 1, ..frames.last() },
    )
}

/// A fresh frame for `directives`.
pub open spec fn fresh(directives: Seq<DirectiveView>) -> FrameView {
    FrameView { directives, next: 0 }
}

/// The longest run sequence among the commands.
pub open spec fn run_bound(commands: Seq<CommandView>) -> nat
    decreases commands.len(),
{
    if commands.len() == 0 {
        0
    } else if commands.last().run.len() > run_bound(commands.drop_last()) {
        commands.last().run.len()
    } else {
        run_bound(commands.drop_last())
    }
}

/// What the call stack and the frames of every reachable state satisfy:
/// one frame per name, no name twice, every name that of a command, and
/// every frame within its directives.
pub open spec fn consistent(
    config: ConfigView,
    call_stack: Seq<Seq<char>>,
    frames: Seq<FrameView>,
) -> bool {
    &&& frames.len() == call_stack.len()
    &&& call_stack.no_duplicates()
    &&& forall|i: int|
        0 <= i < call_stack.len() ==> command_names(config.commands).contains(
            #[trigger] call_stack[i],
        )
    &&& forall|i: int|
        0 <= i < frames.len() ==> (#[trigger] frames[i]).next <= frames[i].directives.len()
            <= run_bound(config.commands)
}

/// `weight` to the power of `exponent`.
pub open spec fn place(weight: int, exponent: int) -> int
    decreases exponent,
{
    if exponent <= 0 {
        1
    } else {
        weight * place(weight, exponent - 1)
    }
}

/// A bound on the work that is left in `frames`: the frames read as the
/// digits of a number, the outermost frame first, where `slots` is the
/// greatest possible depth.
pub open spec fn mass(frames: Seq<FrameView>, slots: int, weight: int) -> int
    decreases frames.len(),
{
    if frames.len() == 0 {
        0
    } else {
        mass(frames.drop_last(), slots, weight) + (frames.last().directives.len()
            - frames.last().next + 1) * place(weight, slots - frames.len())
    }
}

/// The measure by which the machine comes to rest.
pub open spec fn measure(config: ConfigView, frames: Seq<FrameView>) -> int {
    mass(frames, config.commands.len() as int, run_bound(config.commands) as int + 2)
}

/// The state in which the machine comes to rest when it starts to work
/// through `frames`: it leaves every frame that is used up, descends into
/// every command that is invoked, and stops at the first directive that
/// needs the outside world, at the first failure, or when no frame is left.
pub open spec fn settled(
    config: ConfigView,
    platform: Platform,
    context: ContextView,
    frames: Seq<FrameView>,
) -> MachineView
    decreases measure(config, frames),
    when consistent(config, context.call_stack, frames)
    via settled_terminates
{
    if frames.len() == 0 {
        MachineView { context, frames, waiting: WaitingView::Done(None) }
    } else if frames.last().next >= frames.last().directives.len() {
        settled(
            config,
            platform,
            ContextView { call_stack: context.call_stack.drop_last(), ..context },
            frames.drop_last(),
        )
    } else {
        match frames.last().directives[frames.last().next as int] {
            DirectiveView::InvokeCommand(name) => match entered(config, platform, context, name) {
                Ok(directives) => settled(
                    config,
                    platform,
                    ContextView { call_stack: context.call_stack.push(name), ..context },
                    taken(frames).push(fresh(directives)),
                ),
                Err(error) => failed(context, error),
            },
            DirectiveView::ChangeDirectory(path) => MachineView {
                context,
                frames: taken(frames),
                waiting: WaitingView::Directory { path, target: resolved(context.cwd, path) },
            },
            DirectiveView::RunShell(line) => MachineView {
                context,
                frames: taken(frames),
                waiting: WaitingView::Shell(line),
            },
            DirectiveView::Print(text) => MachineView {
                context,
                frames: taken(frames),
                waiting: WaitingView::Print(text),
            },
        }
    }
}

#[via_fn]
proof fn settled_terminates(
    config: ConfigView,
    platform: Platform,
    context: ContextView,
    frames: Seq<FrameView>,
) {
    if consistent(config, context.call_stack, frames) && frames.len() > 0 {
        if frames.last().next >= frames.last().directives.len() {
            lemma_leave(config, context.call_stack, frames);
        } else {
            match frames.last().directives[frames.last().next as int] {
                DirectiveView::InvokeCommand(name) => {
                    match entered(config, platform, context, name) {
                        Ok(directives) => {
                            lemma_descend(config, platform, context, frames, name);
                        },
                        Err(_) => {},
                    }
                },
                _ => {},
            }
        }
    }
}

/// The state at the start of an invocation of `command`.
pub open spec fn started(
    config: ConfigView,
    platform: Platform,
    command: Seq<char>,
    active_environment: Seq<char>,
    cwd: Seq<char>,
) -> MachineView {
    let context = ContextView { cwd, active_environment, call_stack: Seq::empty() };
    match entered(config, platform, context, command) {
        Ok(directives) => settled(
            config,
            platform,
            ContextView { call_stack: seq![command], ..context },
            seq![fresh(directives)],
        ),
        Err(error) => failed(context, error),
    }
}

/// The state after `event` has arrived in state `s`.
///
/// A state that is done stays as it is. An interrupt ends every other state.
/// An event that does not answer what the machine waits for changes nothing.
pub open spec fn resumed(
    config: ConfigView,
    platform: Platform,
    s: MachineView,
    event: EventView,
) -> MachineView {
    match s.waiting {
        WaitingView::Done(_) => s,
        WaitingView::Shell(line) => match event {
            EventView::Interrupted => failed(s.context, ExecutionErrorView::Interrupted),
            EventView::ShellExited(code) => if code == 0 {
                settled(config, platform, s.context, s.frames)
            } else {
                failed(s.context, ExecutionErrorView::ShellCommandFailed { line, code })
            },
            EventView::SpawnFailed(cause) => failed(
                s.context,
                ExecutionErrorView::SpawnError { line, cause },
            ),
            _ => s,
        },
        WaitingView::Directory { path, target } => match event {
            EventView::Interrupted => failed(s.context, ExecutionErrorView::Interrupted),
            EventView::DirectoryFound => settled(
                config,
                platform,
                ContextView { cwd: target, ..s.context },
                s.frames,
            ),
            EventView::DirectoryMissing => failed(
                s.context,
                ExecutionErrorView::DirectoryNotFound(path),
            ),
            _ => s,
        },
        WaitingView::Print(_) => match event {
            EventView::Interrupted => failed(s.context, ExecutionErrorView::Interrupted),
            EventView::Printed => settled(config, platform, s.context, s.frames),
            _ => s,
        },
    }
}

/// What the machine asks for in state `s`.
pub open spec fn offered(s: MachineView) -> ActionView {
    match s.waiting {
        WaitingView::Shell(line) => ActionView::RunShell { line, cwd: s.context.cwd },
        WaitingView::Directory { path, target } => ActionView::ChangeDirectory { path: target },
        WaitingView::Print(text) => ActionView::Print { text },
        WaitingView::Done(None) => ActionView::Succeeded,
        WaitingView::Done(Some(error)) => ActionView::Failed(error),
    }
}

/// No run sequence is longer than the bound.
pub proof fn lemma_run_bound(commands: Seq<CommandView>, i: int)
    requires
        0 <= i < commands.len(),
    ensures
        commands[i].run.len() <= run_bound(commands),
    decreases commands.len(),
{
    if i < commands.len() - 1 {
        lemma_run_bound(commands.drop_last(), i);
    }
}

/// A command that can be entered exists, is not in expansion, and has no
/// more directives than the bound allows.
pub proof fn lemma_entered(
    config: ConfigView,
    platform: Platform,
    context: ContextView,
    name: Seq<char>,
)
    requires
        entered(config, platform, context, name) is Ok,
    ensures
        command_names(config.commands).contains(name),
        !context.call_stack.contains(name),
        entered(config, platform, context, name)->Ok_0.len() <= run_bound(config.commands),
{
    let names = command_names(config.commands);
    lemma_position(names, name);
    let i = position(names, name);
    lemma_run_bound(config.commands, i);
    lemma_parsed_run_len(
        config.commands[i].run,
        config.aliases,
        platform,
        config.commands[i].run.len() as int,
    );
}

/// A call stack that is consistent with a configuration is no deeper than
/// the configuration has commands.
pub proof fn lemma_depth_bounded(config: ConfigView, call_stack: Seq<Seq<char>>)
    requires
        call_stack.no_duplicates(),
        forall|i: int|
            0 <= i < call_stack.len() ==> command_names(config.commands).contains(
                #[trigger] call_stack[i],
            ),
    ensures
        call_stack.len() <= config.commands.len(),
{
    let names = command_names(config.commands);
    call_stack.unique_seq_to_set();
    names.lemma_cardinality_of_set();
    vstd::seq_lib::seq_to_set_is_finite(names);
    assert(call_stack.to_set().subset_of(names.to_set())) by {
        assert forall|name: Seq<char>| call_stack.to_set().contains(name) implies names.to_set().contains(
            name,
        ) by {
            let i = choose|i: int| 0 <= i < call_stack.len() && call_stack[i] == name;
            assert(names.contains(call_stack[i]));
        }
    }
    vstd::set_lib::lemma_len_subset(call_stack.to_set(), names.to_set());
}

/// A power of a positive weight is positive.
pub proof fn lemma_place_positive(weight: int, exponent: int)
    requires
        weight >= 1,
    ensures
        place(weight, exponent) >= 1,
    decreases exponent,
{
    if exponent > 0 {
        lemma_place_positive(weight, exponent - 1);
        assert(weight * place(weight, exponent - 1) >= 1) by (nonlinear_arith)
            requires
                weight >= 1,
                place(weight, exponent - 1) >= 1,
        ;
    }
}

/// The mass of frames that lie within their directives is not negative.
pub proof fn lemma_mass_nonnegative(frames: Seq<FrameView>, slots: int, weight: int)
    requires
        weight >= 1,
        forall|i: int| 0 <= i < frames.len() ==> (#[trigger] frames[i]).next <= frames[i].directives.len(),
    ensures
        mass(frames, slots, weight) >= 0,
    decreases frames.len(),
{
    if frames.len() > 0 {
        lemma_mass_nonnegative(frames.drop_last(), slots, weight);
        lemma_place_positive(weight, slots - frames.len());
        let digit = frames.last().directives.len() - frames.last().next + 1;
        let p = place(weight, slots - frames.len());
        assert(digit * p >= 0) by (nonlinear_arith)
            requires
                digit >= 0,
                p >= 0,
        ;
    }
}

/// Leaving a frame that is used up keeps the state consistent and lowers
/// the measure.
pub proof fn lemma_leave(config: ConfigView, call_stack: Seq<Seq<char>>, frames: Seq<FrameView>)
    requires
        consistent(config, call_stack, frames),
        frames.len() > 0,
    ensures
        consistent(config, call_stack.drop_last(), frames.drop_last()),
        0 <= measure(config, frames.drop_last()) < measure(config, frames),
{
    let slots: int = config.commands.len() as int;
    let weight: int = run_bound(config.commands) as int + 2;
    lemma_mass_nonnegative(frames.drop_last(), slots, weight);
    lemma_place_positive(weight, slots - frames.len());
    let digit = frames.last().directives.len() - frames.last().next + 1;
    let p = place(weight, slots - frames.len());
    assert(digit * p >= 1) by (nonlinear_arith)
        requires
            digit >= 1,
            p >= 1,
    ;
}

/// Dispatching the directive on top keeps the state consistent.
pub proof fn lemma_take(config: ConfigView, call_stack: Seq<Seq<char>>, frames: Seq<FrameView>)
    requires
        consistent(config, call_stack, frames),
        frames.len() > 0,
        frames.last().next < frames.last().directives.len(),
    ensures
        consistent(config, call_stack, taken(frames)),
{
}

/// Entering a command from an empty stack gives a consistent state.
pub proof fn lemma_begin(
    config: ConfigView,
    platform: Platform,
    context: ContextView,
    name: Seq<char>,
)
    requires
        context.call_stack.len() == 0,
        entered(config, platform, context, name) is Ok,
    ensures
        consistent(
            config,
            seq![name],
            seq![fresh(entered(config, platform, context, name)->Ok_0)],
        ),
{
    lemma_entered(config, platform, context, name);
}

/// Descending into an invoked command keeps the state consistent and lowers
/// the measure.
pub proof fn lemma_descend(
    config: ConfigView,
    platform: Platform,
    context: ContextView,
    frames: Seq<FrameView>,
    name: Seq<char>,
)
    requires
        consistent(config, context.call_stack, frames),
        frames.len() > 0,
        frames.last().next < frames.last().directives.len(),
        entered(config, platform, context, name) is Ok,
    ensures
        consistent(
            config,
            context.call_stack.push(name),
            taken(frames).push(fresh(entered(config, platform, context, name)->Ok_0)),
        ),
        0 <= measure(
            config,
            taken(frames).push(fresh(entered(config, platform, context, name)->Ok_0)),
        ) < measure(config, frames),
{
    let directives = entered(config, platform, context, name)->Ok_0;
    let slots: int = config.commands.len() as int;
    let weight: int = run_bound(config.commands) as int + 2;
    let below = frames.drop_last();
    let top = frames.last();
    let advanced = FrameView { next: top.next + 1, ..top };
    let deeper = taken(frames).push(fresh(directives));
    let stack = context.call_stack.push(name);
    lemma_entered(config, platform, context, name);
    assert(consistent(config, stack, deeper));
    lemma_depth_bounded(config, stack);
    let k = frames.len() as int;
    assert(k + 1 <= slots);
    assert(deeper.drop_last() =~= taken(frames));
    assert(taken(frames).drop_last() =~= below);
    assert(taken(frames).last() == advanced);
    let p = place(weight, slots - k - 1);
    lemma_place_positive(weight, slots - k - 1);
    assert(place(weight, slots - k) == weight * p);
    let rest = mass(below, slots, weight);
    let r = top.directives.len() - top.next;
    let d = directives.len() as int;
    assert(mass(frames, slots, weight) == rest + (r + 1) * (weight * p));
    assert(mass(taken(frames), slots, weight) == rest + r * (weight * p));
    assert(mass(deeper, slots, weight) == rest + r * (weight * p) + (d + 1) * p);
    assert((r + 1) * (weight * p) == r * (weight * p) + weight * p) by (nonlinear_arith);
    assert((d + 1) * p < weight * p) by (nonlinear_arith)
        requires
            d + 1 < weight,
            p >= 1,
    ;
    lemma_mass_nonnegative(deeper, slots, weight);
}

/// Settling never changes the working directory or the active
/// environment, keeps the state consistent, and ends with an empty call
/// stack whenever it ends the invocation.
pub proof fn law_settling(
    config: ConfigView,
    platform: Platform,
    context: ContextView,
    frames: Seq<FrameView>,
)
    requires
        consistent(config, context.call_stack, frames),
    ensures
        ({
            let r = settled(config, platform, context, frames);
            &&& consistent(config, r.context.call_stack, r.frames)
            &&& r.context.cwd == context.cwd
            &&& r.context.active_environment == context.active_environment
            &&& r.waiting is Done ==> r.frames.len() == 0 && r.context.call_stack.len() == 0
        }),
    decreases measure(config, frames),
{
    if frames.len() == 0 {
    } else if frames.last().next >= frames.last().directives.len() {
        lemma_leave(config, context.call_stack, frames);
        law_settling(
            config,
            platform,
            ContextView { call_stack: context.call_stack.drop_last(), ..context },
            frames.drop_last(),
        );
    } else {
        lemma_take(config, context.call_stack, frames);
        match frames.last().directives[frames.last().next as int] {
            DirectiveView::InvokeCommand(name) => {
                match entered(config, platform, context, name) {
                    Ok(directives) => {
                        lemma_descend(config, platform, context, frames, name);
                        law_settling(
                            config,
                            platform,
                            ContextView { call_stack: context.call_stack.push(name), ..context },
                            taken(frames).push(fresh(directives)),
                        );
                    },
                    Err(_) => {},
                }
            },
            _ => {},
        }
    }
}

/// Every state that an invocation starts in is consistent: in particular
/// its call stack holds no name twice.
pub proof fn law_start_is_consistent(
    config: ConfigView,
    platform: Platform,
    command: Seq<char>,
    active_environment: Seq<char>,
    cwd: Seq<char>,
)
    ensures
        ({
            let s = started(config, platform, command, active_environment, cwd);
            &&& consistent(config, s.context.call_stack, s.frames)
            &&& s.context.cwd == cwd
            &&& s.context.active_environment == active_environment
        }),
{
    let context = ContextView { cwd, active_environment, call_stack: Seq::empty() };
    if entered(config, platform, context, command) is Ok {
        lemma_begin(config, platform, context, command);
        law_settling(
            config,
            platform,
            ContextView { call_stack: seq![command], ..context },
            seq![fresh(entered(config, platform, context, command)->Ok_0)],
        );
    }
}

/// No event leads out of the consistent states: whatever arrives, the call
/// stack holds no name twice, holds names of commands only, and has one
/// frame for each name.
pub proof fn law_resuming_keeps_consistency(
    config: ConfigView,
    platform: Platform,
    s: MachineView,
    event: EventView,
)
    requires
        consistent(config, s.context.call_stack, s.frames),
    ensures
        consistent(
            config,
            resumed(config, platform, s, event).context.call_stack,
            resumed(config, platform, s, event).frames,
        ),
{
    law_settling(config, platform, s.context, s.frames);
    if s.waiting is Directory {
        law_settling(
            config,
            platform,
            ContextView { cwd: s.waiting->target, ..s.context },
            s.frames,
        );
    }
}

/// Only the news that a directory was found moves the working directory,
/// and it moves it to the directory that was asked about. Every other
/// event, a failure included, leaves it where it was. No event changes the
/// active environment.
pub proof fn law_working_directory(
    config: ConfigView,
    platform: Platform,
    s: MachineView,
    event: EventView,
)
    requires
        consistent(config, s.context.call_stack, s.frames),
    ensures
        resumed(config, platform, s, event).context.cwd == if s.waiting is Directory
            && event is DirectoryFound {
            s.waiting->target
        } else {
            s.context.cwd
        },
        resumed(config, platform, s, event).context.active_environment
            == s.context.active_environment,
{
    law_settling(config, platform, s.context, s.frames);
    if s.waiting is Directory {
        law_settling(
            config,
            platform,
            ContextView { cwd: s.waiting->target, ..s.context },
            s.frames,
        );
    }
}

/// An invocation that has ended stays ended: every event leaves the state
/// as it is, and the machine goes on offering the same outcome.
pub proof fn law_finished_stays_finished(
    config: ConfigView,
    platform: Platform,
    s: MachineView,
    event: EventView,
)
    requires
        s.waiting is Done,
    ensures
        resumed(config, platform, s, event) == s,
        offered(resumed(config, platform, s, event)) == offered(s),
        offered(s) is Succeeded || offered(s) is Failed,
{
}

/// A failure ends the invocation at once. A shell line that exits with a
/// status other than zero, a shell that cannot be started, a directory that
/// is missing and an interrupt each lead to the state in which the call
/// stack is empty and the machine offers the error; no directive that
/// follows is dispatched.
pub proof fn law_failure_ends_invocation(
    config: ConfigView,
    platform: Platform,
    s: MachineView,
    event: EventView,
)
    ensures
        s.waiting matches WaitingView::Shell(line) ==> (event matches EventView::ShellExited(code)
            ==> (code != 0 ==> resumed(config, platform, s, event) == failed(
            s.context,
            ExecutionErrorView::ShellCommandFailed { line, code },
        ))),
        s.waiting matches WaitingView::Shell(line) ==> (event matches EventView::SpawnFailed(cause)
            ==> resumed(config, platform, s, event) == failed(
            s.context,
            ExecutionErrorView::SpawnError { line, cause },
        )),
        s.waiting matches WaitingView::Directory { path, target } ==> (event is DirectoryMissing
            ==> resumed(config, platform, s, event) == failed(
            s.context,
            ExecutionErrorView::DirectoryNotFound(path),
        )),
        !(s.waiting is Done) && event is Interrupted ==> resumed(config, platform, s, event)
            == failed(s.context, ExecutionErrorView::Interrupted),
        forall|context: ContextView, error: ExecutionErrorView|
            #![trigger failed(context, error)]
            offered(failed(context, error)) == ActionView::Failed(error) && failed(
                context,
                error,
            ).context.cwd == context.cwd && failed(context, error).context.call_stack.len() == 0,
{
}

/// A command that does not exist is refused at the start: the machine
/// offers `CommandNotFound` and never any other action.
pub proof fn law_unknown_command_is_refused(
    config: ConfigView,
    platform: Platform,
    command: Seq<char>,
    active_environment: Seq<char>,
    cwd: Seq<char>,
)
    requires
        find_command(config.commands, command) is None,
    ensures
        offered(started(config, platform, command, active_environment, cwd)) == ActionView::Failed(
            ExecutionErrorView::CommandNotFound(command),
        ),
{
}

/// A command that is restricted to environments other than the active one
/// is refused at the start: the machine offers `EnvironmentMismatch` and
/// never any other action, so that nothing is run.
pub proof fn law_ineligible_command_is_refused(
    config: ConfigView,
    platform: Platform,
    command: Seq<char>,
    active_environment: Seq<char>,
    cwd: Seq<char>,
)
    requires
        find_command(config.commands, command) is Some,
        !find_command(config.commands, command)->0.eligible(active_environment),
    ensures
        offered(started(config, platform, command, active_environment, cwd)) == ActionView::Failed(
            ExecutionErrorView::EnvironmentMismatch {
                command: find_command(config.commands, command)->0.name,
                active: active_environment,
                required: find_command(config.commands, command)->0.required_environments,
            },
        ),
        started(config, platform, command, active_environment, cwd).waiting is Done,
{
}

/// Invoking a command that is being expanded already fails with
/// `CyclicInvocation`, whose chain is the call stack with the name added,
/// before anything of that command is read or run.
pub proof fn law_cycle_is_refused(
    config: ConfigView,
    platform: Platform,
    context: ContextView,
    frames: Seq<FrameView>,
    name: Seq<char>,
)
    requires
        consistent(config, context.call_stack, frames),
        frames.len() > 0,
        frames.last().next < frames.last().directives.len(),
        frames.last().directives[frames.last().next as int] == DirectiveView::InvokeCommand(name),
        find_command(config.commands, name) is Some,
        find_command(config.commands, name)->0.eligible(context.active_environment),
        context.call_stack.contains(name),
    ensures
        settled(config, platform, context, frames) == failed(
            context,
            ExecutionErrorView::CyclicInvocation(context.call_stack.push(name)),
        ),
{
}

/// Two commands that invoke each other are refused. Where the run of `a`
/// is the one directive that invokes `b`, and the run of `b` the one that
/// invokes `a`, invoking `a` ends with `CyclicInvocation` and the chain
/// `a`, `b`, `a`, and no action is ever offered.
pub proof fn law_mutual_invocation_is_refused(
    config: ConfigView,
    platform: Platform,
    a: Seq<char>,
    b: Seq<char>,
    active_environment: Seq<char>,
    cwd: Seq<char>,
)
    requires
        a != b,
        find_command(config.commands, a) is Some,
        find_command(config.commands, b) is Some,
        find_command(config.commands, a)->0.eligible(active_environment),
        find_command(config.commands, b)->0.eligible(active_environment),
        parsed_run(
            find_command(config.commands, a)->0.run,
            config.aliases,
            platform,
            find_command(config.commands, a)->0.run.len() as int,
        ) == Ok::<Seq<DirectiveView>, ExecutionErrorView>(seq![DirectiveView::InvokeCommand(b)]),
        parsed_run(
            find_command(config.commands, b)->0.run,
            config.aliases,
            platform,
            find_command(config.commands, b)->0.run.len() as int,
        ) == Ok::<Seq<DirectiveView>, ExecutionErrorView>(seq![DirectiveView::InvokeCommand(a)]),
    ensures
        offered(started(config, platform, a, active_environment, cwd)) == ActionView::Failed(
            ExecutionErrorView::CyclicInvocation(seq![a, b, a]),
        ),
{
    let outside = ContextView { cwd, active_environment, call_stack: Seq::empty() };
    let in_a = ContextView { call_stack: seq![a], ..outside };
    let in_b = ContextView { call_stack: seq![a].push(b), ..outside };
    let run_a = seq![DirectiveView::InvokeCommand(b)];
    let run_b = seq![DirectiveView::InvokeCommand(a)];
    let first = seq![fresh(run_a)];
    let second = taken(first).push(fresh(run_b));
    assert(entered(config, platform, outside, a) == Ok::<Seq<DirectiveView>, ExecutionErrorView>(
        run_a,
    ));
    lemma_begin(config, platform, outside, a);
    assert(!in_a.call_stack.contains(b));
    assert(entered(config, platform, in_a, b) == Ok::<Seq<DirectiveView>, ExecutionErrorView>(
        run_b,
    ));
    lemma_descend(config, platform, in_a, first, b);
    assert(in_b.call_stack[0] == a);
    assert(in_b.call_stack.contains(a));
    assert(in_b.call_stack.push(a) =~= seq![a, b, a]);
    assert(second.last() == fresh(run_b));
    assert(settled(config, platform, in_b, second) == failed(
        in_b,
        ExecutionErrorView::CyclicInvocation(seq![a, b, a]),
    ));
    assert(settled(config, platform, in_a, first) == settled(config, platform, in_b, second));
}

} // verus!
