//! The rolling windows of recent frame times kept for frame pacing and the
//! diagnostics overlay: append the newest sample, keep the last `HISTORY`.
use vstd::prelude::*;

verus! {

/// Window length in frames: two seconds at 60 Hz.
pub const HISTORY: usize = 120;

/// The last `n` entries of `s` (all of `s` when it is shorter).
pub open spec fn last_n<T>(s: Seq<T>, n: nat) -> Seq<T> {
    if s.len() <= n { s } else { s.subrange(s.len() - n, s.len() as int) }
}

/// Appends `value` and drops the oldest entries beyond the window length.
pub fn push<T>(history: &mut Vec<T>, value: T)
    requires
        old(history)@.len() < usize::MAX,
    ensures
        final(history)@ == last_n(old(history)@.push(value), HISTORY as nat),
{
    history.push(value);
    if history.len() > HISTORY {
        let excess = history.len() - HISTORY;
        let tail = history.split_off(excess);
        *history = tail;
    }
}

/// A window never holds more than `HISTORY` entries after a push, and the
/// newest entry is always last.
pub proof fn lemma_window_bounded<T>(s: Seq<T>, value: T)
    ensures
        last_n(s.push(value), HISTORY as nat).len() <= HISTORY,
        last_n(s.push(value), HISTORY as nat).last() == value,
{
}

/// A push keeps the newest samples in order: the window holds the
/// `HISTORY` most recent samples (all of them while fewer were pushed), and
/// counting back from the newest, each entry is the matching earlier sample.
pub proof fn lemma_window_keeps_recent<T>(s: Seq<T>, value: T)
    ensures
        last_n(s.push(value), HISTORY as nat).len() == (if s.len() + 1 <= HISTORY { s.len() + 1 } else { HISTORY as nat }),
        forall|k: int|
            1 <= k < last_n(s.push(value), HISTORY as nat).len() ==> #[trigger] last_n(s.push(value), HISTORY as nat)[
                last_n(s.push(value), HISTORY as nat).len() - 1 - k] == s[s.len() - k],
{
}

} // verus!
