//! Interpretation of the raw mouse stream. Absolute pointing devices (remote
//! desktop sessions, virtual machines) report normalized pointer positions
//! where a local mouse reports motion deltas; the filter decides, one report
//! at a time, whether the stream is read as deltas or as positions to be
//! differenced, and never forwards a suspected position as motion.
use vstd::prelude::*;

verus! {

/// Consecutive corroborating reports needed to switch interpretation.
pub const MODE_STREAK: u8 = 3;

/// What a single report looks like.
#[derive(Clone, Copy, Debug, PartialEq, Eq, Structural)]
pub enum SampleKind {
    /// Both components non-negative and at least one large: a normalized position.
    Absolute,
    /// A negative component: proof of a relative device.
    Relative,
    /// Small non-negative values: proves nothing.
    Ambiguous,
}

/// What to do with the report.
#[derive(Clone, Copy, Debug, PartialEq, Eq, Structural)]
pub enum MouseAction {
    /// Contribute no motion and keep the stored origin.
    Drop,
    /// Contribute the report itself as motion.
    Forward,
    /// Contribute no motion; the report becomes the origin for differencing.
    SetOrigin,
    /// Contribute the difference from the stored origin (dropped if it is a
    /// warp-sized jump); the report becomes the new origin.
    Difference,
}

/// The filter's mode and corroboration streaks.
#[derive(Clone, Copy, Debug)]
pub struct RawMouseFilter {
    /// Whether the stream is currently read as positions rather than deltas.
    pub absolute: bool,
    /// Whether an origin sample is stored for differencing.
    pub has_origin: bool,
    /// Consecutive position-like reports.
    pub abs_streak: u8,
    /// Consecutive reports proving a relative device.
    pub rel_streak: u8,
}

impl RawMouseFilter {
    /// Only an absolute-mode filter holds an origin.
    pub open spec fn well_formed(&self) -> bool {
        self.has_origin ==> self.absolute
    }

    /// A fresh filter: relative mode, no streaks, no origin.
    pub fn new() -> (f: Self)
        ensures
            !f.absolute,
            !f.has_origin,
            f.abs_streak == 0,
            f.rel_streak == 0,
            f.well_formed(),
    {
        RawMouseFilter { absolute: false, has_origin: false, abs_streak: 0, rel_streak: 0 }
    }

    /// Feeds one report's kind and decides what the report contributes.
    pub fn push(&mut self, kind: SampleKind) -> (action: MouseAction)
        requires
            old(self).well_formed(),
        ensures
            final(self).well_formed(),
            *final(self) == step(*old(self), kind).0,
            action == step(*old(self), kind).1,
    {
        match kind {
            SampleKind::Absolute => {
                self.rel_streak = 0;
                self.abs_streak = self.abs_streak.saturating_add(1);
                if !self.absolute {
                    if self.abs_streak >= MODE_STREAK {
                        self.absolute = true;
                        self.has_origin = true;
                        return MouseAction::SetOrigin;
                    }
                    return MouseAction::Drop;
                }
            },
            SampleKind::Relative => {
                self.abs_streak = 0;
                self.rel_streak = self.rel_streak.saturating_add(1);
                if self.absolute && self.rel_streak >= MODE_STREAK {
                    self.absolute = false;
                    self.has_origin = false;
                }
            },
            SampleKind::Ambiguous => {},
        }
        if !self.absolute {
            return MouseAction::Forward;
        }
        if self.has_origin {
            MouseAction::Difference
        } else {
            self.has_origin = true;
            MouseAction::SetOrigin
        }
    }
}

/// Adding one without passing the top of `u8`.
pub open spec fn sat_inc(x: u8) -> u8 {
    if x == u8::MAX { x } else { (x + 1) as u8 }
}

/// One report's effect on the filter: the next filter and the action.
pub open spec fn step(f: RawMouseFilter, kind: SampleKind) -> (RawMouseFilter, MouseAction) {
    let (absolute, has_origin, abs_s, rel_s) = match kind {
        SampleKind::Absolute => (f.absolute, f.has_origin, sat_inc(f.abs_streak), 0u8),
        SampleKind::Relative => {
            let rel = sat_inc(f.rel_streak);
            if f.absolute && rel >= MODE_STREAK {
                (false, false, 0u8, rel)
            } else {
                (f.absolute, f.has_origin, 0u8, rel)
            }
        },
        SampleKind::Ambiguous => (f.absolute, f.has_origin, f.abs_streak, f.rel_streak),
    };
    if kind == SampleKind::Absolute && !absolute {
        if abs_s >= MODE_STREAK {
            (RawMouseFilter { absolute: true, has_origin: true, abs_streak: abs_s, rel_streak: rel_s }, MouseAction::SetOrigin)
        } else {
            (RawMouseFilter { absolute: false, has_origin: has_origin, abs_streak: abs_s, rel_streak: rel_s }, MouseAction::Drop)
        }
    } else if !absolute {
        (RawMouseFilter { absolute: absolute, has_origin: has_origin, abs_streak: abs_s, rel_streak: rel_s }, MouseAction::Forward)
    } else if has_origin {
        (RawMouseFilter { absolute: absolute, has_origin: has_origin, abs_streak: abs_s, rel_streak: rel_s }, MouseAction::Difference)
    } else {
        (RawMouseFilter { absolute: absolute, has_origin: true, abs_streak: abs_s, rel_streak: rel_s }, MouseAction::SetOrigin)
    }
}

/// A suspected position is never forwarded as motion, whatever the filter's state.
pub proof fn lemma_absolute_never_forwarded(f: RawMouseFilter)
    ensures
        step(f, SampleKind::Absolute).1 != MouseAction::Forward,
{
}

/// A relative-mode filter forwards every relative report untouched unless it
/// is in absolute mode; a filter in relative mode never differences.
pub proof fn lemma_relative_mode_forwards(f: RawMouseFilter, kind: SampleKind)
    requires
        !f.absolute,
        kind != SampleKind::Absolute,
    ensures
        step(f, kind).1 == MouseAction::Forward,
        !step(f, kind).0.absolute,
{
}

/// One freak report does not latch absolute mode: from a filter with no
/// absolute streak, it takes three consecutive position-like reports.
pub proof fn lemma_single_report_does_not_latch(f: RawMouseFilter)
    requires
        !f.absolute,
        f.abs_streak == 0,
    ensures
        !step(f, SampleKind::Absolute).0.absolute,
        !step(step(f, SampleKind::Absolute).0, SampleKind::Absolute).0.absolute,
        step(step(step(f, SampleKind::Absolute).0, SampleKind::Absolute).0, SampleKind::Absolute).0.absolute,
{
}

/// A relative report resets the absolute streak, so position-like reports
/// interleaved with genuine motion never accumulate into a latch.
pub proof fn lemma_relative_resets_streak(f: RawMouseFilter)
    ensures
        step(f, SampleKind::Relative).0.abs_streak == 0,
{
}

/// A relative device taking over unlatches: three consecutive relative
/// reports return an absolute-mode filter to relative mode and drop its origin.
pub proof fn lemma_relative_takeover_unlatches(f: RawMouseFilter)
    requires
        f.absolute,
        f.rel_streak == 0,
    ensures
        step(f, SampleKind::Relative).0.absolute,
        step(step(f, SampleKind::Relative).0, SampleKind::Relative).0.absolute,
        !step(step(step(f, SampleKind::Relative).0, SampleKind::Relative).0, SampleKind::Relative).0.absolute,
        !step(step(step(f, SampleKind::Relative).0, SampleKind::Relative).0, SampleKind::Relative).0.has_origin,
{
}

/// Once latched, the first report establishes the origin and every later
/// report is differenced against the previous one.
pub proof fn lemma_latched_differences(f: RawMouseFilter, kind: SampleKind)
    requires
        f.absolute,
        f.has_origin,
        kind != SampleKind::Relative,
    ensures
        step(f, kind).1 == MouseAction::Difference,
        step(f, kind).0.absolute,
{
}

/// Number of position-like reports in a run of reports.
pub open spec fn count_absolute(kinds: Seq<SampleKind>) -> nat
    decreases kinds.len(),
{
    if kinds.len() == 0 {
        0
    } else {
        (if kinds[0] == SampleKind::Absolute { 1nat } else { 0nat }) + count_absolute(kinds.drop_first())
    }
}

/// The filter after a run of reports, fed in order.
pub open spec fn feed(f: RawMouseFilter, kinds: Seq<SampleKind>) -> RawMouseFilter
    decreases kinds.len(),
{
    if kinds.len() == 0 {
        f
    } else {
        feed(step(f, kinds[0]).0, kinds.drop_first())
    }
}

/// A small non-negative report proves nothing: it leaves the mode and both
/// streaks exactly as they were, a filter that already holds its origin (or
/// is in relative mode) is left entirely unchanged, and in relative mode the
/// report is forwarded as motion.
pub proof fn lemma_ambiguous_changes_nothing(f: RawMouseFilter)
    ensures
        step(f, SampleKind::Ambiguous).0.absolute == f.absolute,
        step(f, SampleKind::Ambiguous).0.abs_streak == f.abs_streak,
        step(f, SampleKind::Ambiguous).0.rel_streak == f.rel_streak,
        (f.absolute ==> f.has_origin) ==> step(f, SampleKind::Ambiguous).0 == f,
        !f.absolute ==> step(f, SampleKind::Ambiguous).1 == MouseAction::Forward,
{
}

/// Latching absolute mode takes three position-like reports: from relative
/// mode, a run of reports whose position-like reports, added to the current
/// streak, number fewer than three never latches, whatever ambiguous or
/// relative reports come between, and the streak never exceeds that count.
pub proof fn lemma_latch_needs_three_positions(f: RawMouseFilter, kinds: Seq<SampleKind>)
    requires
        !f.absolute,
        f.abs_streak + count_absolute(kinds) < 3,
    ensures
        !feed(f, kinds).absolute,
        feed(f, kinds).abs_streak <= f.abs_streak + count_absolute(kinds),
    decreases kinds.len(),
{
    if kinds.len() > 0 {
        let g = step(f, kinds[0]).0;
        assert(!g.absolute);
        assert(g.abs_streak <= f.abs_streak + (if kinds[0] == SampleKind::Absolute { 1int } else { 0int }));
        lemma_latch_needs_three_positions(g, kinds.drop_first());
    }
}

/// In relative mode a position-like report is dropped until it completes a
/// streak of three, and the report that completes it latches absolute mode
/// and becomes the origin.
pub proof fn lemma_unlatched_position_dropped(f: RawMouseFilter)
    requires
        !f.absolute,
    ensures
        step(f, SampleKind::Absolute).0.absolute <==> f.abs_streak >= 2,
        step(f, SampleKind::Absolute).1 == (if f.abs_streak >= 2 {
            MouseAction::SetOrigin
        } else {
            MouseAction::Drop
        }),
        step(f, SampleKind::Absolute).0.rel_streak == 0,
{
}

} // verus!
