//! Putting the spans of a record into a stream, one after the other, up to the
//! first that fails.
use vstd::prelude::*;

verus! {

/// What to do next with the spans of a record.
#[derive(Debug, PartialEq)]
pub enum Step {
    /// Put the span at this place.
    Put(usize),
    /// All spans are in the stream.
    Done,
    /// A span could not be put; the others are left.
    Fail,
}

/// What to do with `total` spans before any of them is put.
pub open spec fn first_step(total: usize) -> Step {
    if total > 0 {
        Step::Put(0)
    } else {
        Step::Done
    }
}

/// What to do after the span at `sent` was put.
pub open spec fn next_step(sent: usize, total: usize, failed: bool) -> Step {
    if failed {
        Step::Fail
    } else if sent + 1 < total {
        Step::Put((sent + 1) as usize)
    } else {
        Step::Done
    }
}

/// Where putting `total` spans stands when the puts so far failed or not as
/// `failures` says.
pub open spec fn step_after(total: usize, failures: Seq<bool>) -> Step
    decreases failures.len(),
{
    if failures.len() == 0 {
        first_step(total)
    } else {
        match step_after(total, failures.drop_last()) {
            Step::Put(sent) => next_step(sent, total, failures.last()),
            step => step,
        }
    }
}

/// What to do with `total` spans.
pub fn before_puts(total: usize) -> (r: Step)
    ensures
        r == first_step(total),
        r is Done <==> total == 0,
        r matches Step::Put(i) ==> i == 0,
        r !is Fail,
{
    if total > 0 {
        Step::Put(0)
    } else {
        Step::Done
    }
}

/// What to do after the put of the span at `sent`, one of `total`.
pub fn after_put(sent: usize, total: usize, failed: bool) -> (r: Step)
    ensures
        r == next_step(sent, total, failed),
        r is Fail <==> failed,
        r is Done <==> !failed && sent + 1 >= total,
        r matches Step::Put(i) ==> i == sent + 1 && i < total,
{
    if failed {
        Step::Fail
    } else if sent < total && total - sent > 1 {
        Step::Put(sent + 1)
    } else {
        Step::Done
    }
}

/// As long as no put fails, the spans are put in their order, and putting them
/// is done when every one of them was put.
pub proof fn spans_are_put_in_order(total: usize, puts: nat)
    requires
        puts <= total,
    ensures
        step_after(total, Seq::new(puts, |i: int| false)) == if puts < total {
            Step::Put(puts as usize)
        } else {
            Step::Done
        },
    decreases puts,
{
    let failures = Seq::new(puts, |i: int| false);
    if puts > 0 {
        let before = Seq::new((puts - 1) as nat, |i: int| false);
        assert(failures.drop_last() =~= before);
        spans_are_put_in_order(total, (puts - 1) as nat);
    }
}

/// After a put that failed no span is put any more.
pub proof fn nothing_is_put_after_a_failure(total: usize, failures: Seq<bool>, at: int)
    requires
        0 <= at < failures.len(),
        failures[at],
        step_after(total, failures.take(at)) is Put,
    ensures
        step_after(total, failures) is Fail,
    decreases failures.len(),
{
    let before = failures.drop_last();
    if at < before.len() {
        assert(before.take(at) =~= failures.take(at));
        nothing_is_put_after_a_failure(total, before, at);
    } else {
        assert(before =~= failures.take(at));
    }
}

} // verus!
