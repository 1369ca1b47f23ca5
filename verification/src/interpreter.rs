//! The interpreter: a resumable machine that turns a command into a
//! sequence of actions.
//!
//! The caller starts an invocation, carries out the action that the machine
//! offers, and resumes the machine with the event that tells how the action
//! went. This goes on until the machine offers `Succeeded` or `Failed`.
//! Between two actions the machine works through every directive that needs
//! nothing from outside: it invokes commands, checks them, and returns from
//! those that are used up.

use vstd::prelude::*;
use crate::config::{Config, ConfigView};
use crate::context::{ContextView, ExecutionContext};
use crate::directive::{directives_view, parse_run, Directive};
use crate::error::ExecutionError;
use crate::machine::{
    consistent,
    entered,
    failed,
    fresh,
    lemma_begin,
    lemma_descend,
    lemma_leave,
    lemma_take,
    measure,
    offered,
    resumed,
    settled,
    started,
    taken,
    ActionView,
    EventView,
    FrameView,
    MachineView,
    WaitingView,
};
use crate::path::resolve;
use crate::platform::Platform;
use crate::text::{copy_texts, find_text, lemma_position};

verus! {

/// What the machine asks its caller to do next.
#[derive(Debug, PartialEq, Eq)]
pub enum Action {
    /// Run `line` in the platform's shell with `cwd` as its working
    /// directory, wait for it to end, and report `ShellExited` or
    /// `SpawnFailed`.
    RunShell { line: String, cwd: String },
    /// Report `DirectoryFound` if `path` is a directory and
    /// `DirectoryMissing` if it is not.
    ChangeDirectory { path: String },
    /// Write `text` and a newline to standard output and report `Printed`.
    Print { text: String },
    /// The invocation has ended well. There is nothing left to do.
    Succeeded,
    /// The invocation has ended with this error. There is nothing left to
    /// do.
    Failed(ExecutionError),
}

impl View for Action {
    type V = ActionView;

    open spec fn view(&self) -> ActionView {
        match *self {
            Action::RunShell { line, cwd } => ActionView::RunShell { line: line@, cwd: cwd@ },
            Action::ChangeDirectory { path } => ActionView::ChangeDirectory { path: path@ },
            Action::Print { text } => ActionView::Print { text: text@ },
            Action::Succeeded => ActionView::Succeeded,
            Action::Failed(error) => ActionView::Failed(error@),
        }
    }
}

/// How the action that the machine asked for went.
#[derive(Debug, PartialEq, Eq)]
pub enum Event {
    /// The shell process ended with this exit status.
    ShellExited(i32),
    /// The shell process could not be started, for this reason.
    SpawnFailed(String),
    /// The path is a directory.
    DirectoryFound,
    /// The path does not exist or is no directory.
    DirectoryMissing,
    /// The text was written.
    Printed,
    /// The invocation was cancelled.
    Interrupted,
}

impl View for Event {
    type V = EventView;

    open spec fn view(&self) -> EventView {
        match *self {
            Event::ShellExited(code) => EventView::ShellExited(code),
            Event::SpawnFailed(cause) => EventView::SpawnFailed(cause@),
            Event::DirectoryFound => EventView::DirectoryFound,
            Event::DirectoryMissing => EventView::DirectoryMissing,
            Event::Printed => EventView::Printed,
            Event::Interrupted => EventView::Interrupted,
        }
    }
}

struct Frame {
    directives: Vec<Directive>,
    next: usize,
}

enum Waiting {
    Shell(String),
    Directory { path: String, target: String },
    Print(String),
    Done(Option<ExecutionError>),
}

struct Machine {
    context: ExecutionContext,
    frames: Vec<Frame>,
    waiting: Waiting,
}

spec fn frame_view(frame: Frame) -> FrameView {
    FrameView { directives: directives_view(frame.directives@), next: frame.next as nat }
}

spec fn frames_view(frames: Seq<Frame>) -> Seq<FrameView> {
    Seq::new(frames.len(), |i: int| frame_view(frames[i]))
}

spec fn waiting_view(waiting: Waiting) -> WaitingView {
    match waiting {
        Waiting::Shell(line) => WaitingView::Shell(line@),
        Waiting::Directory { path, target } => WaitingView::Directory {
            path: path@,
            target: target@,
        },
        Waiting::Print(text) => WaitingView::Print(text@),
        Waiting::Done(None) => WaitingView::Done(None),
        Waiting::Done(Some(error)) => WaitingView::Done(Some(error@)),
    }
}

spec fn machine_view(machine: Machine) -> MachineView {
    MachineView {
        context: machine.context@,
        frames: frames_view(machine.frames@),
        waiting: waiting_view(machine.waiting),
    }
}

spec fn machine_consistent(config: ConfigView, machine: Machine) -> bool {
    consistent(config, machine.context@.call_stack, frames_view(machine.frames@))
}

/// Looks up the command `name` and checks that it may be invoked in
/// `context`: that it exists, that it is eligible under the active
/// environment, that it is not being expanded already, and that all of its
/// lines can be read. Gives its directives, or the first of these checks
/// that failed.
pub fn enter(config: &Config, platform: Platform, context: &ExecutionContext, name: &str) -> (r:
    Result<Vec<Directive>, ExecutionError>)
    ensures
        match entered(config@, platform, context@, name@) {
            Ok(directives) => r matches Ok(v) && directives_view(v@) == directives,
            Err(error) => r matches Err(e) && e@ == error,
        },
{
    let command = match config.resolve(name) {
        Ok(command) => command,
        Err(error) => {
            return Err(error);
        },
    };
    match command.check_eligible(context.active_environment.as_str()) {
        Ok(()) => {},
        Err(error) => {
            return Err(error);
        },
    }
    proof {
        lemma_position(context@.call_stack, name@);
    }
    if find_text(&context.call_stack, name).is_some() {
        let mut chain = copy_texts(&context.call_stack);
        chain.push(String::from_str(name));
        assert(chain.deep_view() =~= context@.call_stack.push(name@));
        return Err(ExecutionError::CyclicInvocation(chain));
    }
    parse_run(&command.run, config.aliases(), platform)
}

fn fail(context: ExecutionContext, error: ExecutionError) -> (r: Machine)
    ensures
        machine_view(r) == failed(context@, error@),
{
    let mut context = context;
    context.call_stack = Vec::new();
    let r = Machine { context, frames: Vec::new(), waiting: Waiting::Done(Some(error)) };
    assert(r.context.call_stack.deep_view() =~= Seq::<Seq<char>>::empty());
    assert(frames_view(r.frames@) =~= Seq::<FrameView>::empty());
    r
}

#[verifier::loop_isolation(false)]
fn settle(config: &Config, platform: Platform, from: ExecutionContext, stack: Vec<Frame>) -> (r:
    Machine)
    requires
        consistent(config@, from@.call_stack, frames_view(stack@)),
    ensures
        machine_view(r) == settled(config@, platform, from@, frames_view(stack@)),
        machine_consistent(config@, r),
{
    let ghost goal = settled(config@, platform, from@, frames_view(stack@));
    let mut context = from;
    let mut frames = stack;
    loop
        invariant
            consistent(config@, context@.call_stack, frames_view(frames@)),
            settled(config@, platform, context@, frames_view(frames@)) == goal,
        decreases measure(config@, frames_view(frames@)),
    {
        let ghost c0 = context@;
        let ghost f0 = frames_view(frames@);
        if frames.len() == 0 {
            return Machine { context, frames, waiting: Waiting::Done(None) };
        }
        let frame = frames.pop().unwrap();
        assert(frame_view(frame) == f0.last());
        assert(frames_view(frames@) =~= f0.drop_last());
        if frame.next >= frame.directives.len() {
            context.call_stack.pop();
            proof {
                assert(context@.call_stack =~= c0.call_stack.drop_last());
                lemma_leave(config@, c0.call_stack, f0);
            }
        } else {
            let directive = frame.directives[frame.next].clone();
            assert(directive@ == f0.last().directives[f0.last().next as int]);
            frames.push(Frame { directives: frame.directives, next: frame.next + 1 });
            proof {
                assert(frames_view(frames@) =~= taken(f0));
                lemma_take(config@, c0.call_stack, f0);
            }
            match directive {
                Directive::InvokeCommand(name) => {
                    match enter(config, platform, &context, name.as_str()) {
                        Ok(directives) => {
                            proof {
                                lemma_descend(config@, platform, c0, f0, name@);
                            }
                            context.call_stack.push(name);
                            frames.push(Frame { directives, next: 0 });
                            proof {
                                assert(context@.call_stack =~= c0.call_stack.push(name@));
                                assert(frames_view(frames@) =~= taken(f0).push(
                                    fresh(directives_view(directives@)),
                                ));
                            }
                        },
                        Err(error) => {
                            return fail(context, error);
                        },
                    }
                },
                Directive::ChangeDirectory(path) => {
                    let target = resolve(context.cwd.as_str(), path.as_str());
                    return Machine { context, frames, waiting: Waiting::Directory { path, target } };
                },
                Directive::RunShell(line) => {
                    return Machine { context, frames, waiting: Waiting::Shell(line) };
                },
                Directive::Print(text) => {
                    return Machine { context, frames, waiting: Waiting::Print(text) };
                },
            }
        }
    }
}

fn react(config: &Config, platform: Platform, state: Machine, event: Event) -> (r: Machine)
    requires
        machine_consistent(config@, state),
    ensures
        machine_view(r) == resumed(config@, platform, machine_view(state), event@),
        machine_consistent(config@, r),
{
    let Machine { context, frames, waiting } = state;
    match waiting {
        Waiting::Done(outcome) => Machine { context, frames, waiting: Waiting::Done(outcome) },
        Waiting::Shell(line) => match event {
            Event::Interrupted => fail(context, ExecutionError::Interrupted),
            Event::ShellExited(code) => {
                if code == 0 {
                    settle(config, platform, context, frames)
                } else {
                    fail(context, ExecutionError::ShellCommandFailed { line, code })
                }
            },
            Event::SpawnFailed(cause) => fail(context, ExecutionError::SpawnError { line, cause }),
            _ => Machine { context, frames, waiting: Waiting::Shell(line) },
        },
        Waiting::Directory { path, target } => match event {
            Event::Interrupted => fail(context, ExecutionError::Interrupted),
            Event::DirectoryFound => {
                let mut context = context;
                context.cwd = target;
                settle(config, platform, context, frames)
            },
            Event::DirectoryMissing => fail(context, ExecutionError::DirectoryNotFound(path)),
            _ => Machine { context, frames, waiting: Waiting::Directory { path, target } },
        },
        Waiting::Print(text) => match event {
            Event::Interrupted => fail(context, ExecutionError::Interrupted),
            Event::Printed => settle(config, platform, context, frames),
            _ => Machine { context, frames, waiting: Waiting::Print(text) },
        },
    }
}

fn offer(state: &Machine) -> (r: Action)
    ensures
        r@ == offered(machine_view(*state)),
{
    match &state.waiting {
        Waiting::Shell(line) => Action::RunShell {
            line: line.clone(),
            cwd: state.context.cwd.clone(),
        },
        Waiting::Directory { path, target } => Action::ChangeDirectory { path: target.clone() },
        Waiting::Print(text) => Action::Print { text: text.clone() },
        Waiting::Done(None) => Action::Succeeded,
        Waiting::Done(Some(error)) => Action::Failed(error.clone()),
    }
}

fn idle() -> (r: Machine)
    ensures
        machine_view(r) == (MachineView {
            context: ContextView {
                cwd: ""@,
                active_environment: ""@,
                call_stack: Seq::empty(),
            },
            frames: Seq::empty(),
            waiting: WaitingView::Done(None),
        }),
        forall|config: ConfigView| machine_consistent(config, r),
{
    let r = Machine {
        context: ExecutionContext::new("", ""),
        frames: Vec::new(),
        waiting: Waiting::Done(None),
    };
    assert(frames_view(r.frames@) =~= Seq::<FrameView>::empty());
    r
}

/// One invocation of a command, from its start to its end.
pub struct Interpreter<'a> {
    config: &'a Config,
    platform: Platform,
    state: Machine,
}

impl<'a> View for Interpreter<'a> {
    type V = MachineView;

    closed spec fn view(&self) -> MachineView {
        machine_view(self.state)
    }
}

impl<'a> Interpreter<'a> {
    #[verifier::type_invariant]
    spec fn inv(&self) -> bool {
        machine_consistent(self.config@, self.state)
    }

    /// The configuration that the invocation reads.
    pub closed spec fn configuration(&self) -> ConfigView {
        self.config@
    }

    /// The platform for which aliases are resolved.
    pub closed spec fn platform(&self) -> Platform {
        self.platform
    }

    /// Starts to run `command` under `active_environment`, with `cwd` as the
    /// working directory. The machine works up to its first action.
    pub fn start(
        config: &'a Config,
        platform: Platform,
        command: &str,
        active_environment: &str,
        cwd: &str,
    ) -> (r: Interpreter<'a>)
        ensures
            r.configuration() == config@,
            r.platform() == platform,
            r@ == started(config@, platform, command@, active_environment@, cwd@),
            consistent(config@, r@.context.call_stack, r@.frames),
    {
        let context = ExecutionContext::new(cwd, active_environment);
        let state = match enter(config, platform, &context, command) {
            Ok(directives) => {
                proof {
                    lemma_begin(config@, platform, context@, command@);
                }
                let mut context = context;
                context.call_stack.push(String::from_str(command));
                let mut frames: Vec<Frame> = Vec::new();
                frames.push(Frame { directives, next: 0 });
                proof {
                    assert(context@.call_stack =~= seq![command@]);
                    assert(frames_view(frames@) =~= seq![fresh(directives_view(directives@))]);
                }
                settle(config, platform, context, frames)
            },
            Err(error) => fail(context, error),
        };
        Interpreter { config, platform, state }
    }

    /// Takes in how the last action went and works up to the next action,
    /// which it returns.
    ///
    /// An event that does not answer the action that was offered changes
    /// nothing, and the same action is offered again. Once the invocation
    /// has ended, every event is answered with its outcome.
    pub fn resume(&mut self, event: Event) -> (action: Action)
        ensures
            final(self).configuration() == old(self).configuration(),
            final(self).platform() == old(self).platform(),
            final(self)@ == resumed(
                old(self).configuration(),
                old(self).platform(),
                old(self)@,
                event@,
            ),
            action@ == offered(final(self)@),
            consistent(
                final(self).configuration(),
                final(self)@.context.call_stack,
                final(self)@.frames,
            ),
    {
        proof {
            use_type_invariant(&*self);
        }
        let mut state = idle();
        std::mem::swap(&mut state, &mut self.state);
        let next = react(self.config, self.platform, state, event);
        let action = offer(&next);
        self.state = next;
        action
    }

    /// The action that the machine offers now.
    pub fn action(&self) -> (r: Action)
        ensures
            r@ == offered(self@),
    {
        offer(&self.state)
    }

    /// Whether the invocation has ended.
    pub fn is_finished(&self) -> (r: bool)
        ensures
            r == (self@.waiting is Done),
    {
        match &self.state.waiting {
            Waiting::Done(_) => true,
            _ => false,
        }
    }

    /// The execution context as it stands.
    pub fn context(&self) -> (r: &ExecutionContext)
        ensures
            r@ == self@.context,
            r@.call_stack.no_duplicates(),
    {
        proof {
            use_type_invariant(self);
        }
        &self.state.context
    }
}

} // verus!
