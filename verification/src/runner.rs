//! Running commands behind a trait: the same executor reached through a
//! generic parameter, a borrowed trait object, and a boxed one.

use vstd::prelude::*;

verus! {

/// Why running a command failed.
#[derive(Debug)]
pub struct ExecError {
    /// What went wrong, in words.
    pub message: String,
}

/// Something that can be run once per call, yielding the exit status the
/// operating system reported — `None` when a signal ended the process —
/// or an error.
pub trait Executor {
    /// Which results a run may come to.  Implementors pin this down;
    /// nothing forces a run to be deterministic.
    spec fn post(&self, r: Result<Option<i32>, ExecError>) -> bool;

    /// Run the command.
    fn run(&self) -> (r: Result<Option<i32>, ExecError>)
        ensures
            self.post(r),
    ;
}

/// A command line: the program and its arguments.  Running it is the work
/// of whoever owns a process table; this type only describes the command.
pub struct Shell<'a, 'b> {
    /// The program to run.
    pub cmd: &'a str,
    /// Its arguments, in order.
    pub args: &'b [&'a str],
}

impl<'a, 'b> Shell<'a, 'b> {
    /// Describe the command `cmd` with arguments `args`.
    pub fn new(cmd: &'a str, args: &'b [&'a str]) -> (r: Self)
        ensures
            r.cmd@ == cmd@,
            r.args == args,
    {
        Self { cmd, args }
    }
}

/// Run the executor reached through a generic parameter.
pub fn execute_generics<E: Executor>(cmd: &E) -> (r: Result<Option<i32>, ExecError>)
    ensures
        cmd.post(r),
{
    cmd.run()
}

/// Run the executor reached through a borrowed trait object.
pub fn execute_trait_object(cmd: &dyn Executor) -> (r: Result<Option<i32>, ExecError>)
    ensures
        cmd.post(r),
{
    cmd.run()
}

/// Run the executor reached through a boxed trait object.
pub fn execute_boxed_trait_object(cmd: Box<dyn Executor>) -> (r: Result<Option<i32>, ExecError>)
    ensures
        cmd.post(r),
{
    cmd.run()
}

/// An executor that always finishes with the same status: the pure stand-in
/// used where no process table is at hand.
pub struct FixedStatus {
    /// The status every run reports.
    pub status: Option<i32>,
}

impl Executor for FixedStatus {
    open spec fn post(&self, r: Result<Option<i32>, ExecError>) -> bool {
        r == Result::<Option<i32>, ExecError>::Ok(self.status)
    }

    fn run(&self) -> (r: Result<Option<i32>, ExecError>)
        ensures
            self.post(r),
    {
        Result::Ok(self.status)
    }
}

} // verus!
