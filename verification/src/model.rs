//! The mathematical model of the analysis.
//!
//! A single forward pass folds the line sequence into a [`SpecAccum`]: exact
//! duration bounds, the estimated duration under the zero-ms duck-tap
//! simulation, a histogram of frame times sorted ascending by value, and one
//! counter per counted directive.  All times are integers in units of
//! 10^-28 seconds, as in [`crate::dec`].
//!
//! [`accum_prefix`] is the fold over the first `i` lines; [`spec_analyze`]
//! is the whole analysis including the zero-ms frame-time property.
//! [`in_range`] says that every decimal operation of the pass stays exactly
//! representable; it is the condition under which the executable analyzer is
//! obliged to produce the modelled result.

use crate::dec::{dec_of_text, pow10, prod_fits, sum_fits};
use crate::script::{Line, Script};
use vstd::prelude::*;

verus! {

/// 0.201 s: the fall duration on flat ground, after which the next frame of
/// a zero-ms duck-tap costs the zero-ms frame time instead of the nominal
/// one.  In units of 10^-28 s.
pub open spec fn fall_threshold() -> int {
    201 * pow10(25)
}

/// 10^-10 s: the default zero-ms frame time when the script sets none.  In
/// units of 10^-28 s.
pub open spec fn default_zero_ms() -> int {
    pow10(18)
}

/// The running state of the pass.
pub struct SpecAccum {
    /// Optimistic total duration: zero-ms duck-tap bulks contribute nothing.
    pub start: int,
    /// Pessimistic total duration: every bulk contributes in full.
    pub end: int,
    /// Simulated duration under the flat-ground zero-ms approximation.
    pub estimated: int,
    /// Time since the simulated player last left the ground; carried across
    /// bulks for the whole pass.
    pub zero_ms_counter: int,
    /// Frame counts per distinct frame-time value, sorted ascending by value.
    pub hist: Seq<(int, nat)>,
    pub save: nat,
    pub shared_seed: nat,
    pub buttons: nat,
    pub lgagst: nat,
    pub reset: nat,
    pub comment: nat,
    pub change: nat,
    pub target_yaw: nat,
}

pub open spec fn init_accum() -> SpecAccum {
    SpecAccum {
        start: 0,
        end: 0,
        estimated: 0,
        zero_ms_counter: 0,
        hist: Seq::empty(),
        save: 0,
        shared_seed: 0,
        buttons: 0,
        lgagst: 0,
        reset: 0,
        comment: 0,
        change: 0,
        target_yaw: 0,
    }
}

/// State of the per-frame zero-ms simulation inside one bulk.
pub struct SimState {
    pub counter: int,
    pub total: int,
}

/// The simulation state a bulk starts from: the carried counter, nothing
/// accumulated yet.
pub open spec fn sim_start(counter: int) -> SimState {
    SimState { counter: counter, total: 0 }
}

/// One simulated frame: the counter grows by the frame time; past the fall
/// threshold the frame costs the zero-ms frame time `zft` and the counter
/// resets, otherwise it costs the frame time `ft`.
pub open spec fn sim_frame(st: SimState, ft: int, zft: int) -> SimState {
    if st.counter + ft > fall_threshold() {
        SimState { counter: 0, total: st.total + zft }
    } else {
        SimState { counter: st.counter + ft, total: st.total + ft }
    }
}

/// `n` simulated frames in sequence.
pub open spec fn sim_frames(st: SimState, ft: int, zft: int, n: nat) -> SimState
    decreases n,
{
    if n == 0 {
        st
    } else {
        sim_frame(sim_frames(st, ft, zft, (n - 1) as nat), ft, zft)
    }
}

/// The decimal additions of one simulated frame are exact.
pub open spec fn sim_frame_ok(st: SimState, ft: int, zft: int) -> bool {
    &&& sum_fits(st.counter, ft)
    &&& if st.counter + ft > fall_threshold() {
        sum_fits(st.total, zft)
    } else {
        sum_fits(st.total, ft)
    }
}

/// The decimal additions of `n` simulated frames are all exact.
pub open spec fn sim_frames_ok(st: SimState, ft: int, zft: int, n: nat) -> bool
    decreases n,
{
    n == 0 || (sim_frames_ok(st, ft, zft, (n - 1) as nat) && sim_frame_ok(
        sim_frames(st, ft, zft, (n - 1) as nat),
        ft,
        zft,
    ))
}

/// Add `n` frames under the key `v` to a histogram sorted ascending by key:
/// merge into the entry with exactly that key, or insert a new entry at its
/// ordered position.
pub open spec fn hist_add(h: Seq<(int, nat)>, v: int, n: nat) -> Seq<(int, nat)>
    decreases h.len(),
{
    if h.len() == 0 {
        seq![(v, n)]
    } else if v < h[0].0 {
        seq![(v, n)] + h
    } else if v == h[0].0 {
        seq![(v, (h[0].1 + n) as nat)] + h.drop_first()
    } else {
        seq![h[0]] + hist_add(h.drop_first(), v, n)
    }
}

/// Total frame count held by a histogram.
pub open spec fn hist_sum(h: Seq<(int, nat)>) -> nat
    decreases h.len(),
{
    if h.len() == 0 {
        0
    } else {
        h[0].1 + hist_sum(h.drop_first())
    }
}

/// The frame count a histogram holds under key `v` (0 if absent).
pub open spec fn hist_count(h: Seq<(int, nat)>, v: int) -> nat
    decreases h.len(),
{
    if h.len() == 0 {
        0
    } else if h[0].0 == v {
        h[0].1
    } else {
        hist_count(h.drop_first(), v)
    }
}

/// Keys strictly ascend: the histogram is sorted and keys are unique.
pub open spec fn hist_sorted(h: Seq<(int, nat)>) -> bool {
    forall|j: int, k: int| 0 <= j < k < h.len() ==> h[j].0 < h[k].0
}

/// The effect of one frame bulk on the accumulator, given its parsed frame
/// time `ft`, count `n` and zero-ms duck-tap flag `z`.
pub open spec fn bulk_step(acc: SpecAccum, ft: int, n: nat, z: bool, zft: int) -> SpecAccum {
    let fb_time = ft * n;
    let sim1 = sim_frames(SimState { counter: acc.zero_ms_counter, total: 0 }, ft, zft, n);
    SpecAccum {
        start: if z {
            acc.start
        } else {
            acc.start + fb_time
        },
        end: acc.end + fb_time,
        estimated: acc.estimated + if z {
            sim1.total
        } else {
            fb_time
        },
        zero_ms_counter: if z {
            sim1.counter
        } else {
            acc.zero_ms_counter
        },
        hist: hist_add(acc.hist, ft, n),
        ..acc
    }
}

/// Classify one line: a frame bulk feeds the timing accumulator (failing if
/// its frame time does not parse, with the offending text as the error), a
/// counted directive bumps exactly its own counter, the rest change nothing.
pub open spec fn line_step(acc: SpecAccum, line: Line, zft: int) -> Result<SpecAccum, Seq<char>> {
    match line {
        Line::FrameBulk(fb) => match dec_of_text(fb.frame_time@) {
            Some(ft) => Ok(bulk_step(acc, ft, fb.frame_count as nat, fb.zero_ms_ducktap(), zft)),
            None => Err(fb.frame_time@),
        },
        Line::Save => Ok(SpecAccum { save: acc.save + 1, ..acc }),
        Line::SharedSeed => Ok(SpecAccum { shared_seed: acc.shared_seed + 1, ..acc }),
        Line::Buttons => Ok(SpecAccum { buttons: acc.buttons + 1, ..acc }),
        Line::LgagstMinSpeed => Ok(SpecAccum { lgagst: acc.lgagst + 1, ..acc }),
        Line::Reset => Ok(SpecAccum { reset: acc.reset + 1, ..acc }),
        Line::Comment => Ok(SpecAccum { comment: acc.comment + 1, ..acc }),
        Line::VectorialStrafing => Ok(acc),
        Line::VectorialStrafingConstraints => Ok(acc),
        Line::Change => Ok(SpecAccum { change: acc.change + 1, ..acc }),
        Line::TargetYawOverride => Ok(SpecAccum { target_yaw: acc.target_yaw + 1, ..acc }),
    }
}

/// The fold over the first `i` lines, stopping at the first frame-time parse
/// failure.
pub open spec fn accum_prefix(lines: Seq<Line>, zft: int, i: nat) -> Result<SpecAccum, Seq<char>>
    decreases i,
{
    if i == 0 {
        Ok(init_accum())
    } else {
        match accum_prefix(lines, zft, (i - 1) as nat) {
            Ok(acc) => line_step(acc, lines[i - 1], zft),
            Err(t) => Err(t),
        }
    }
}

/// How a whole analysis fails: a frame time that does not parse, or a
/// zero-ms frame-time property that does not parse.  Each carries the
/// offending text.
pub enum SpecError {
    Frametime(Seq<char>),
    ZeroMs(Seq<char>),
}

pub open spec fn run_lines(lines: Seq<Line>, zft: int) -> Result<SpecAccum, SpecError> {
    match accum_prefix(lines, zft, lines.len()) {
        Ok(acc) => Ok(acc),
        Err(t) => Err(SpecError::Frametime(t)),
    }
}

/// The whole analysis: parse the zero-ms frame-time property first (failing
/// before the pass if it does not parse, defaulting to 10^-10 s when
/// absent), then fold the lines.
pub open spec fn spec_analyze(script: Script) -> Result<SpecAccum, SpecError> {
    match script.frametime_0ms {
        Some(t) => match dec_of_text(t@) {
            Some(zft) => run_lines(script.lines@, zft),
            None => Err(SpecError::ZeroMs(t@)),
        },
        None => run_lines(script.lines@, default_zero_ms()),
    }
}

/// The decimal operations of one frame bulk are all exact from state `acc`.
pub open spec fn bulk_ok(acc: SpecAccum, ft: int, n: nat, z: bool, zft: int) -> bool {
    let fb_time = ft * n;
    let sim0 = SimState { counter: acc.zero_ms_counter, total: 0 };
    &&& prod_fits(ft, n)
    &&& (!z ==> sum_fits(acc.start, fb_time))
    &&& sum_fits(acc.end, fb_time)
    &&& (z ==> sim_frames_ok(sim0, ft, zft, n) && sum_fits(
        acc.estimated,
        sim_frames(sim0, ft, zft, n).total,
    ))
    &&& (!z ==> sum_fits(acc.estimated, fb_time))
}

/// The decimal operations of one line are all exact from state `acc`.
pub open spec fn line_ok(acc: SpecAccum, line: Line, zft: int) -> bool {
    match line {
        Line::FrameBulk(fb) => match dec_of_text(fb.frame_time@) {
            Some(ft) => bulk_ok(acc, ft, fb.frame_count as nat, fb.zero_ms_ducktap(), zft),
            None => true,
        },
        _ => true,
    }
}

/// The decimal operations of the first `i` lines are all exact (lines after
/// a parse failure excepted, since the pass stops there).
pub open spec fn prefix_ok(lines: Seq<Line>, zft: int, i: nat) -> bool
    decreases i,
{
    i == 0 || (prefix_ok(lines, zft, (i - 1) as nat) && match accum_prefix(
        lines,
        zft,
        (i - 1) as nat,
    ) {
        Ok(acc) => line_ok(acc, lines[i - 1], zft),
        Err(_) => true,
    })
}

/// Every decimal operation of the whole analysis stays exactly
/// representable in a 96-bit decimal.  This is the one machine limit the
/// analyzer imposes on scripts.
pub open spec fn in_range(script: Script) -> bool {
    match script.frametime_0ms {
        Some(t) => match dec_of_text(t@) {
            Some(zft) => prefix_ok(script.lines@, zft, script.lines@.len()),
            None => true,
        },
        None => prefix_ok(script.lines@, default_zero_ms(), script.lines@.len()),
    }
}

/// Frames contributed to the histogram by the first `i` lines.
pub open spec fn total_frames(lines: Seq<Line>, i: nat) -> nat
    decreases i,
{
    if i == 0 {
        0
    } else {
        total_frames(lines, (i - 1) as nat) + match lines[i - 1] {
            Line::FrameBulk(fb) => fb.frame_count as nat,
            _ => 0,
        }
    }
}

/// Frames contributed by the first `i` lines whose frame time parses to
/// exactly the value `v`.
pub open spec fn frames_with_ft(lines: Seq<Line>, i: nat, v: int) -> nat
    decreases i,
{
    if i == 0 {
        0
    } else {
        frames_with_ft(lines, (i - 1) as nat, v) + match lines[i - 1] {
            Line::FrameBulk(fb) => if dec_of_text(fb.frame_time@) == Some(v) {
                fb.frame_count as nat
            } else {
                0
            },
            _ => 0,
        }
    }
}

/// The counted directive kinds, one per counter of the result.
#[derive(Clone, Copy, PartialEq, Eq, Structural, Debug)]
pub enum Directive {
    Save,
    SharedSeed,
    Buttons,
    LgagstMinSpeed,
    Reset,
    Comment,
    Change,
    TargetYawOverride,
}

/// Whether a line is of the counted kind `d`.
pub open spec fn is_directive(line: Line, d: Directive) -> bool {
    match d {
        Directive::Save => line is Save,
        Directive::SharedSeed => line is SharedSeed,
        Directive::Buttons => line is Buttons,
        Directive::LgagstMinSpeed => line is LgagstMinSpeed,
        Directive::Reset => line is Reset,
        Directive::Comment => line is Comment,
        Directive::Change => line is Change,
        Directive::TargetYawOverride => line is TargetYawOverride,
    }
}

/// Lines among the first `i` of the counted kind `d`.
pub open spec fn count_directive(lines: Seq<Line>, i: nat, d: Directive) -> nat
    decreases i,
{
    if i == 0 {
        0
    } else {
        count_directive(lines, (i - 1) as nat, d) + if is_directive(lines[i - 1], d) {
            1nat
        } else {
            0nat
        }
    }
}

/// The accumulator's counter for the directive kind `d`.
pub open spec fn counter_of(acc: SpecAccum, d: Directive) -> nat {
    match d {
        Directive::Save => acc.save,
        Directive::SharedSeed => acc.shared_seed,
        Directive::Buttons => acc.buttons,
        Directive::LgagstMinSpeed => acc.lgagst,
        Directive::Reset => acc.reset,
        Directive::Comment => acc.comment,
        Directive::Change => acc.change,
        Directive::TargetYawOverride => acc.target_yaw,
    }
}

pub proof fn lemma_hist_add_sum(h: Seq<(int, nat)>, v: int, n: nat)
    ensures
        hist_sum(hist_add(h, v, n)) == hist_sum(h) + n,
    decreases h.len(),
{
    let r = hist_add(h, v, n);
    if h.len() == 0 {
        assert(r[0] == (v, n));
        assert(r.drop_first() =~= Seq::<(int, nat)>::empty());
        assert(hist_sum(r.drop_first()) == 0);
    } else if v < h[0].0 {
        assert(r[0] == (v, n));
        assert(r.drop_first() =~= h);
    } else if v == h[0].0 {
        assert(r[0] == (v, (h[0].1 + n) as nat));
        assert(r.drop_first() =~= h.drop_first());
    } else {
        lemma_hist_add_sum(h.drop_first(), v, n);
        assert(r[0] == h[0]);
        assert(r.drop_first() =~= hist_add(h.drop_first(), v, n));
    }
}

proof fn lemma_sorted_tail(h: Seq<(int, nat)>)
    requires
        hist_sorted(h),
        h.len() >= 1,
    ensures
        hist_sorted(h.drop_first()),
{
    let t = h.drop_first();
    assert forall|j: int, k: int| 0 <= j < k < t.len() implies t[j].0 < t[k].0 by {
        assert(t[j] == h[j + 1]);
        assert(t[k] == h[k + 1]);
    }
}

pub proof fn lemma_hist_add_sorted(h: Seq<(int, nat)>, v: int, n: nat)
    requires
        hist_sorted(h),
    ensures
        hist_sorted(hist_add(h, v, n)),
        hist_add(h, v, n).len() >= 1,
        hist_add(h, v, n)[0].0 == if h.len() == 0 || v <= h[0].0 {
            v
        } else {
            h[0].0
        },
    decreases h.len(),
{
    let r = hist_add(h, v, n);
    if h.len() == 0 {
    } else if v < h[0].0 {
        assert forall|j: int, k: int| 0 <= j < k < r.len() implies r[j].0 < r[k].0 by {
            assert(r[k] == h[k - 1]);
            if j > 0 {
                assert(r[j] == h[j - 1]);
            }
        }
    } else if v == h[0].0 {
        assert forall|j: int, k: int| 0 <= j < k < r.len() implies r[j].0 < r[k].0 by {
            assert(r[k] == h.drop_first()[k - 1] && h.drop_first()[k - 1] == h[k]);
            if j > 0 {
                assert(r[j] == h.drop_first()[j - 1] && h.drop_first()[j - 1] == h[j]);
            }
        }
    } else {
        let t = h.drop_first();
        lemma_sorted_tail(h);
        lemma_hist_add_sorted(t, v, n);
        let rt = hist_add(t, v, n);
        assert(t.len() > 0 ==> t[0] == h[1]);
        assert(rt[0].0 > h[0].0);
        assert forall|j: int, k: int| 0 <= j < k < r.len() implies r[j].0 < r[k].0 by {
            assert(r[k] == rt[k - 1]);
            if j > 0 {
                assert(r[j] == rt[j - 1]);
            }
        }
    }
}

proof fn lemma_hist_count_absent(h: Seq<(int, nat)>, w: int)
    requires
        forall|j: int| 0 <= j < h.len() ==> h[j].0 != w,
    ensures
        hist_count(h, w) == 0,
    decreases h.len(),
{
    if h.len() > 0 {
        assert forall|j: int| 0 <= j < h.drop_first().len() implies h.drop_first()[j].0 != w by {
            assert(h.drop_first()[j] == h[j + 1]);
        }
        lemma_hist_count_absent(h.drop_first(), w);
    }
}

pub proof fn lemma_hist_add_count(h: Seq<(int, nat)>, v: int, n: nat, w: int)
    requires
        hist_sorted(h),
    ensures
        hist_count(hist_add(h, v, n), w) == hist_count(h, w) + if w == v {
            n
        } else {
            0nat
        },
    decreases h.len(),
{
    let r = hist_add(h, v, n);
    if h.len() == 0 {
        assert(r[0] == (v, n));
        assert(r.drop_first() =~= Seq::<(int, nat)>::empty());
        assert(hist_count(r.drop_first(), w) == 0);
    } else if v < h[0].0 {
        assert(r[0] == (v, n));
        assert(r.drop_first() =~= h);
        if w == v {
            lemma_hist_count_absent(h, w);
        }
    } else if v == h[0].0 {
        assert(r[0] == (v, (h[0].1 + n) as nat));
        assert(r.drop_first() =~= h.drop_first());
    } else {
        lemma_sorted_tail(h);
        lemma_hist_add_count(h.drop_first(), v, n, w);
        assert(r[0] == h[0]);
        assert(r.drop_first() =~= hist_add(h.drop_first(), v, n));
    }
}

pub proof fn lemma_hist_count_pos(h: Seq<(int, nat)>, v: int)
    requires
        hist_count(h, v) > 0,
    ensures
        exists|j: int| 0 <= j < h.len() && h[j].0 == v,
    decreases h.len(),
{
    if h.len() > 0 && h[0].0 != v {
        lemma_hist_count_pos(h.drop_first(), v);
        let j = choose|j: int| 0 <= j < h.drop_first().len() && h.drop_first()[j].0 == v;
        assert(h[j + 1].0 == v);
    }
}

pub proof fn lemma_hist_count_le_sum(h: Seq<(int, nat)>, v: int)
    ensures
        hist_count(h, v) <= hist_sum(h),
    decreases h.len(),
{
    if h.len() > 0 {
        lemma_hist_count_le_sum(h.drop_first(), v);
    }
}

/// In a sorted histogram each entry holds exactly the count for its key.
pub proof fn lemma_sorted_hist_count(h: Seq<(int, nat)>, j: int)
    requires
        hist_sorted(h),
        0 <= j < h.len(),
    ensures
        hist_count(h, h[j].0) == h[j].1,
    decreases h.len(),
{
    if j > 0 {
        lemma_sorted_tail(h);
        assert(h.drop_first()[j - 1] == h[j]);
        lemma_sorted_hist_count(h.drop_first(), j - 1);
    }
}

/// `hist_add` when the key is already present at position `j`.
pub proof fn lemma_hist_add_found(h: Seq<(int, nat)>, v: int, n: nat, j: int)
    requires
        0 <= j < h.len(),
        forall|k: int| 0 <= k < j ==> h[k].0 < v,
        h[j].0 == v,
    ensures
        hist_add(h, v, n) == h.update(j, (v, (h[j].1 + n) as nat)),
    decreases j,
{
    if j == 0 {
        assert(hist_add(h, v, n) =~= h.update(0, (v, (h[0].1 + n) as nat)));
    } else {
        let t = h.drop_first();
        assert(t[j - 1] == h[j]);
        assert forall|k: int| 0 <= k < j - 1 implies t[k].0 < v by {
            assert(t[k] == h[k + 1]);
        }
        lemma_hist_add_found(t, v, n, j - 1);
        assert(hist_add(h, v, n) =~= h.update(j, (v, (h[j].1 + n) as nat)));
    }
}

/// `hist_add` when the key is absent and belongs at position `j`.
pub proof fn lemma_hist_add_insert(h: Seq<(int, nat)>, v: int, n: nat, j: int)
    requires
        0 <= j <= h.len(),
        forall|k: int| 0 <= k < j ==> h[k].0 < v,
        j < h.len() ==> h[j].0 > v,
    ensures
        hist_add(h, v, n) == h.insert(j, (v, n)),
    decreases j,
{
    if j == 0 {
        assert(hist_add(h, v, n) =~= h.insert(0, (v, n)));
    } else {
        let t = h.drop_first();
        assert forall|k: int| 0 <= k < j - 1 implies t[k].0 < v by {
            assert(t[k] == h[k + 1]);
        }
        assert(j - 1 < t.len() ==> t[j - 1] == h[j]);
        lemma_hist_add_insert(t, v, n, j - 1);
        assert(hist_add(h, v, n) =~= h.insert(j, (v, n)));
    }
}

/// Exactness of a longer prefix implies exactness of a shorter one.
pub proof fn lemma_prefix_ok_mono(lines: Seq<Line>, zft: int, i: nat, m: nat)
    requires
        i <= m,
        prefix_ok(lines, zft, m),
    ensures
        prefix_ok(lines, zft, i),
    decreases m,
{
    if i < m {
        lemma_prefix_ok_mono(lines, zft, i, (m - 1) as nat);
    }
}

/// Once the fold has failed, folding further lines changes nothing and
/// leaves every range condition vacuous.
pub proof fn lemma_prefix_err_stable(lines: Seq<Line>, zft: int, i: nat, m: nat)
    requires
        i <= m,
        accum_prefix(lines, zft, i) is Err,
        prefix_ok(lines, zft, i),
    ensures
        accum_prefix(lines, zft, m) == accum_prefix(lines, zft, i),
        prefix_ok(lines, zft, m),
    decreases m,
{
    if i < m {
        lemma_prefix_err_stable(lines, zft, i, (m - 1) as nat);
    }
}

/// Exactness of a longer simulation run implies exactness of a shorter one.
pub proof fn lemma_sim_frames_ok_mono(st: SimState, ft: int, zft: int, k: nat, n: nat)
    requires
        k <= n,
        sim_frames_ok(st, ft, zft, n),
    ensures
        sim_frames_ok(st, ft, zft, k),
    decreases n,
{
    if k < n {
        lemma_sim_frames_ok_mono(st, ft, zft, k, (n - 1) as nat);
    }
}

pub proof fn lemma_count_directive_le(lines: Seq<Line>, i: nat, d: Directive)
    ensures
        count_directive(lines, i, d) <= i,
    decreases i,
{
    if i > 0 {
        lemma_count_directive_le(lines, (i - 1) as nat, d);
    }
}

pub proof fn lemma_total_frames_le(lines: Seq<Line>, i: nat)
    ensures
        total_frames(lines, i) <= i * 0xffff_ffff,
    decreases i,
{
    if i > 0 {
        lemma_total_frames_le(lines, (i - 1) as nat);
        assert((i - 1) * 0xffff_ffff == i * 0xffff_ffff - 0xffff_ffff) by (nonlinear_arith);
    }
}

/// The fold invariant: the counters count exactly their directives, the
/// histogram is sorted with unique keys, it holds exactly the frames of each
/// frame-time value, and its total is the total frame count.
pub open spec fn accum_inv(lines: Seq<Line>, zft: int, i: nat, acc: SpecAccum) -> bool {
    &&& forall|d: Directive| counter_of(acc, d) == count_directive(lines, i, d)
    &&& hist_sum(acc.hist) == total_frames(lines, i)
    &&& hist_sorted(acc.hist)
    &&& forall|v: int| hist_count(acc.hist, v) == frames_with_ft(lines, i, v)
}

/// Whenever the first `i` lines fold without error, the fold invariant holds
/// of the accumulator.
pub proof fn lemma_accum_invariant(lines: Seq<Line>, zft: int, i: nat)
    ensures
        accum_prefix(lines, zft, i) is Ok ==> accum_inv(
            lines,
            zft,
            i,
            accum_prefix(lines, zft, i)->Ok_0,
        ),
    decreases i,
{
    if i > 0 {
        lemma_accum_invariant(lines, zft, (i - 1) as nat);
        if accum_prefix(lines, zft, i) is Ok {
            let acc = accum_prefix(lines, zft, i)->Ok_0;
            let prev = accum_prefix(lines, zft, (i - 1) as nat)->Ok_0;
            assert(accum_inv(lines, zft, (i - 1) as nat, prev));
            match lines[i - 1] {
                Line::FrameBulk(fb) => {
                    let ft = dec_of_text(fb.frame_time@)->Some_0;
                    let n = fb.frame_count as nat;
                    lemma_hist_add_sum(prev.hist, ft, n);
                    lemma_hist_add_sorted(prev.hist, ft, n);
                    assert(acc.hist == hist_add(prev.hist, ft, n));
                    assert(hist_sum(acc.hist) == total_frames(lines, i));
                    assert(hist_sorted(acc.hist));
                    assert forall|v: int|
                        hist_count(acc.hist, v) == frames_with_ft(lines, i, v) by {
                        lemma_hist_add_count(prev.hist, ft, n, v);
                    }
                    assert forall|d: Directive|
                        counter_of(acc, d) == count_directive(lines, i, d) by {
                        assert(count_directive(lines, i, d) == count_directive(
                            lines,
                            (i - 1) as nat,
                            d,
                        ) + if is_directive(lines[i - 1], d) {
                            1nat
                        } else {
                            0nat
                        });
                        assert(!is_directive(lines[i - 1], d));
                        assert(counter_of(prev, d) == count_directive(lines, (i - 1) as nat, d));
                        assert(counter_of(acc, d) == counter_of(prev, d));
                    }
                },
                _ => {
                    assert(acc.hist == prev.hist);
                    assert forall|d: Directive|
                        counter_of(acc, d) == count_directive(lines, i, d) by {
                        assert(count_directive(lines, i, d) == count_directive(
                            lines,
                            (i - 1) as nat,
                            d,
                        ) + if is_directive(lines[i - 1], d) {
                            1nat
                        } else {
                            0nat
                        });
                        assert(counter_of(prev, d) == count_directive(lines, (i - 1) as nat, d));
                        assert(counter_of(acc, d) == counter_of(prev, d) + if is_directive(
                            lines[i - 1],
                            d,
                        ) {
                            1nat
                        } else {
                            0nat
                        });
                    }
                },
            }
        }
    }
}

} // verus!
