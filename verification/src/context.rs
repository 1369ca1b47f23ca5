//! The state that one invocation threads through all of its steps.

use vstd::prelude::*;

verus! {

/// The working directory, the active environment and the names of the
/// commands that are being expanded, outermost first.
///
/// Only a `CD` directive changes the working directory, and the change
/// outlives the command that made it.
#[derive(Debug, PartialEq, Eq)]
pub struct ExecutionContext {
    pub cwd: String,
    pub active_environment: String,
    pub call_stack: Vec<String>,
}

/// An execution context as mathematical data.
pub struct ContextView {
    pub cwd: Seq<char>,
    pub active_environment: Seq<char>,
    pub call_stack: Seq<Seq<char>>,
}

impl View for ExecutionContext {
    type V = ContextView;

    open spec fn view(&self) -> ContextView {
        ContextView {
            cwd: self.cwd@,
            active_environment: self.active_environment@,
            call_stack: self.call_stack.deep_view(),
        }
    }
}

impl ExecutionContext {
    /// The context at the start of an invocation: nothing is being expanded.
    pub fn new(cwd: &str, active_environment: &str) -> (r: Self)
        ensures
            r@ == (ContextView {
                cwd: cwd@,
                active_environment: active_environment@,
                call_stack: Seq::empty(),
            }),
    {
        let r = ExecutionContext {
            cwd: String::from_str(cwd),
            active_environment: String::from_str(active_environment),
            call_stack: Vec::new(),
        };
        assert(r.call_stack.deep_view() =~= Seq::<Seq<char>>::empty());
        r
    }
}

} // verus!
