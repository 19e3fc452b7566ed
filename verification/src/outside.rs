//! Calls into code that is not proved here: the CPU count, the random
//! shuffle, and the formatting of thread names.
use rand::seq::SliceRandom;
use vstd::prelude::*;

verus! {

/// The character of the decimal digit `d` (0 to 9).
pub open spec fn digit(d: nat) -> char {
    (48 + d) as char
}

/// The decimal digits of `n`, without leading zeros.
pub open spec fn decimal(n: nat) -> Seq<char>
    decreases n,
{
    if n < 10 {
        seq![digit(n)]
    } else {
        decimal(n / 10).push(digit(n % 10))
    }
}

/// Calls `num_cpus::get`, the number of CPUs this process may use. Its
/// documentation promises at least 1; the number depends on the machine,
/// so nothing more is stated.
#[verifier::external_body]
pub(crate) fn cpu_count() -> (count: usize)
    ensures
        count >= 1,
{
    num_cpus::get()
}

/// Calls `rand`'s `SliceRandom::shuffle` on `v` with the thread-local
/// generator. The order that comes out rests on chance; what holds of every
/// outcome is that `v` keeps the same elements, each as many times (the
/// shuffle only swaps elements).
#[verifier::external_body]
pub(crate) fn shuffle(v: &mut Vec<usize>)
    ensures
        final(v)@.to_multiset() == old(v)@.to_multiset(),
{
    v.shuffle(&mut rand::thread_rng());
}

/// Formats `prefix` followed by `index` in decimal, as `format!` writes them.
#[verifier::external_body]
pub(crate) fn prefixed_index(prefix: &str, index: usize) -> (name: String)
    ensures
        name@ == prefix@ + decimal(index as nat),
{
    format!("{}{}", prefix, index)
}

} // verus!
