//! Function values and the contracts they carry: helpers that take `Fn` and
//! `FnOnce` arguments, and the struct a captured environment amounts to.

use vstd::prelude::*;

verus! {

/// One more than `x`.
pub fn add_one(x: i32) -> (r: i32)
    requires
        x < i32::MAX,
    ensures
        r == x + 1,
{
    x + 1
}

/// The shape a capturing closure takes under the hood: a struct holding
/// what was captured, called through one of the function traits.
pub struct Closure<'a> {
    /// Captured by value.
    pub env_var: i32,
    /// Captured by move.
    pub env_var1: String,
    /// Captured by reference.
    pub env_var2: &'a String,
    /// Captured by value; a mutable borrow in spirit, owned here.
    pub env_var3: String,
}

impl<'a> Closure<'a> {
    /// The shared-borrow calling convention.
    pub fn call(&self, x: i32) -> (r: i32)
        requires
            x < i32::MAX,
        ensures
            r == x + 1,
    {
        add_one(x)
    }

    /// The mutable-borrow calling convention.
    pub fn call_fumut(&mut self, x: i32) -> (r: i32)
        requires
            x < i32::MAX,
        ensures
            r == x + 1,
            *final(self) == *old(self),
    {
        add_one(x)
    }

    /// The by-value calling convention: consumes the closure.
    pub fn call_fnonce(self, x: i32) -> (r: i32)
        requires
            x < i32::MAX,
        ensures
            r == x + 1,
    {
        add_one(x)
    }
}

/// Hand `arg` to a one-shot function value and return what it gives back.
pub fn call_once(arg: String, c: impl FnOnce(String) -> (String, String)) -> (r: (String, String))
    requires
        call_requires(c, (arg,)),
    ensures
        call_ensures(c, (arg,), r),
{
    c(arg)
}

/// A plain function with the same interface as the closures above.
pub fn not_closure(arg: String) -> (r: (String, String))
    ensures
        r.0 == arg,
        r.1@ == "Rosie"@,
{
    (arg, "Rosie".to_owned())
}

/// Call a one-shot function value that takes nothing and returns nothing.
pub fn call_once2(c: impl FnOnce()) -> (r: ())
    requires
        call_requires(c, ()),
    ensures
        call_ensures(c, (), r),
{
    c()
}

/// Apply a reusable function value to `arg`.
pub fn call(arg: u64, c: &impl Fn(u64) -> u64) -> (r: u64)
    requires
        call_requires(*c, (arg,)),
    ensures
        call_ensures(*c, (arg,), r),
{
    c(arg)
}

/// Hand `arg` to a function value called for the last time.
pub fn call_once3(arg: u64, c: impl FnOnce(u64) -> u64) -> (r: u64)
    requires
        call_requires(c, (arg,)),
    ensures
        call_ensures(c, (arg,), r),
{
    c(arg)
}

/// The work the mutable-capture walkthrough does: two names each gain
/// their suffix.  Mutable captures stay outside what the verifier takes,
/// so the strings are extended directly and handed back.
pub fn demo_fn_mut_closure() -> (r: (String, String))
    ensures
        r.0@ == "gary"@ + " you"@,
        r.1@ == "rosie"@ + " chen"@,
{
    let mut name1 = "gary".to_owned();
    let mut name2 = "rosie".to_owned();
    name1.append(" you");
    name2.append(" chen");
    (name1, name2)
}

} // verus!
