//! The analyzer: one verified forward pass over the line sequence.
//!
//! [`analyze_hltas`] produces exactly the result of the specification fold
//! in [`crate::model`], provided every decimal operation of the pass stays
//! exactly representable ([`in_range`]); [`try_analyze_hltas`] decides that
//! condition at run time and calls it only when it holds.

use crate::dec::{
    dec_add_checked, dec_lt, dec_mul_u32_checked, dec_parse, lemma_value_injective, Dec,
};
use crate::model::{
    accum_inv, accum_prefix, bulk_ok, bulk_step, counter_of, fall_threshold, hist_add,
    hist_sorted, hist_sum, in_range, lemma_accum_invariant, lemma_count_directive_le,
    lemma_hist_add_found, lemma_hist_add_insert, lemma_hist_count_le_sum, lemma_prefix_err_stable,
    lemma_prefix_ok_mono, lemma_sim_frames_ok_mono, lemma_sorted_hist_count,
    lemma_total_frames_le, prefix_ok, run_lines, sim_frame, sim_frames, sim_frames_ok, sim_start,
    spec_analyze, Directive, SpecAccum, SpecError,
};
use crate::script::{is_zero_ms_ducktap, Line, Script};
use vstd::pervasive::unreached;
use vstd::prelude::*;

verus! {

/// Why an analysis failed.  Both kinds carry the text that did not parse as
/// a decimal and abort the whole call: no partial result is produced.
#[derive(Clone, Debug, PartialEq, Eq)]
pub enum Error {
    /// A frame bulk's frame time did not parse.
    FrametimeParseError { string: String },
    /// The script's zero-ms frame-time property did not parse.  Found
    /// before the pass begins.
    ZeroMsFrametimeParseError { string: String },
}

/// The bounds on the script's playback duration: `start` assumes every
/// zero-ms duck-tap bulk costs nothing, `end` that none does.
#[derive(Clone, Copy, PartialEq, Eq, Structural, Debug)]
pub struct FinalTime {
    pub start: Dec,
    pub end: Dec,
}

/// One histogram entry: a distinct frame-time value and the total number of
/// frames played at it.
#[derive(Clone, Copy, PartialEq, Eq, Structural, Debug)]
pub struct FrametimeStats {
    pub frametime: Dec,
    pub frame_count: u128,
}

/// The immutable aggregate of one analysis pass.
#[derive(Clone, Debug, PartialEq, Eq)]
pub struct AnalyzerResult {
    /// Shortest and longest possible playback duration.
    pub final_time: FinalTime,
    /// Simulated duration under the flat-ground zero-ms approximation.
    pub estimated_time: Dec,
    /// Frame counts per distinct frame time, sorted ascending by value.
    pub frametime_stats: Vec<FrametimeStats>,
    pub save_count: u128,
    pub shared_seed_set_count: u128,
    pub button_set_count: u128,
    pub lgagst_min_speed_set_count: u128,
    pub reset_count: u128,
    pub comment_count: u128,
    pub change_angle_count: u128,
    pub target_yaw_override_count: u128,
}

/// The executable histogram carries exactly the modelled one: same length,
/// and entry by entry a well-formed decimal of the modelled value with the
/// modelled count.
pub open spec fn stats_match(s: Seq<FrametimeStats>, h: Seq<(int, nat)>) -> bool {
    &&& s.len() == h.len()
    &&& forall|j: int|
        0 <= j < h.len() ==> {
            &&& (#[trigger] s[j]).frametime.wf()
            &&& s[j].frametime.value() == h[j].0
            &&& s[j].frame_count == h[j].1
        }
}

/// The result carries exactly the modelled accumulator.
pub open spec fn result_matches(res: AnalyzerResult, acc: SpecAccum) -> bool {
    &&& res.final_time.start.wf() && res.final_time.start.value() == acc.start
    &&& res.final_time.end.wf() && res.final_time.end.value() == acc.end
    &&& res.estimated_time.wf() && res.estimated_time.value() == acc.estimated
    &&& stats_match(res.frametime_stats@, acc.hist)
    &&& res.save_count == acc.save
    &&& res.shared_seed_set_count == acc.shared_seed
    &&& res.button_set_count == acc.buttons
    &&& res.lgagst_min_speed_set_count == acc.lgagst
    &&& res.reset_count == acc.reset
    &&& res.comment_count == acc.comment
    &&& res.change_angle_count == acc.change
    &&& res.target_yaw_override_count == acc.target_yaw
}

/// The error carries exactly the modelled failure, text included.
pub open spec fn error_matches(e: Error, se: SpecError) -> bool {
    match se {
        SpecError::Frametime(t) => e matches Error::FrametimeParseError { string } && string@
            == t,
        SpecError::ZeroMs(t) => e matches Error::ZeroMsFrametimeParseError { string } && string@
            == t,
    }
}

/// Merge `n` frames at the frame time `key` into the sorted histogram: add
/// to the entry holding exactly this value, or insert a new entry at its
/// ordered position.
fn hist_insert(
    hist: &mut Vec<FrametimeStats>,
    key: &Dec,
    n: u32,
    Ghost(h): Ghost<Seq<(int, nat)>>,
)
    requires
        key.wf(),
        stats_match(old(hist)@, h),
        hist_sorted(h),
        hist_sum(h) + n <= u128::MAX,
    ensures
        stats_match(final(hist)@, hist_add(h, key.value(), n as nat)),
{
    let ghost v = key.value();
    let len = hist.len();
    let mut j: usize = 0;
    loop
        invariant_except_break
            j <= len,
            len == hist@.len(),
            stats_match(hist@, h),
            hist_sorted(h),
            key.wf(),
            v == key.value(),
            forall|k: int| 0 <= k < j ==> h[k].0 < v,
        ensures
            j <= len,
            len == hist@.len(),
            stats_match(hist@, h),
            forall|k: int| 0 <= k < j ==> h[k].0 < v,
            j < len ==> h[j as int].0 >= v,
        decreases len - j,
    {
        if j == len {
            break ;
        }
        let below = dec_lt(&hist[j].frametime, key);
        proof {
            assert(hist@[j as int].frametime.value() == h[j as int].0);
        }
        if !below {
            break ;
        }
        j = j + 1;
    }
    if j < len {
        let entry = *&hist[j];
        if entry.frametime == *key {
            proof {
                assert(h[j as int].0 == v);
                lemma_sorted_hist_count(h, j as int);
                lemma_hist_count_le_sum(h, h[j as int].0);
                lemma_hist_add_found(h, v, n as nat, j as int);
            }
            let fc = entry.frame_count + n as u128;
            hist.set(j, FrametimeStats { frametime: entry.frametime, frame_count: fc });
        } else {
            proof {
                if entry.frametime.value() == v {
                    lemma_value_injective(entry.frametime, *key);
                }
                lemma_hist_add_insert(h, v, n as nat, j as int);
            }
            hist.insert(j, FrametimeStats { frametime: *key, frame_count: n as u128 });
        }
    } else {
        proof {
            lemma_hist_add_insert(h, v, n as nat, len as int);
        }
        hist.push(FrametimeStats { frametime: *key, frame_count: n as u128 });
    }
}

/// Run the zero-ms duck-tap simulation for one bulk of `n` frames of `ft`
/// seconds each, advancing the carried counter and returning the bulk's
/// contribution to the estimated time; `None` exactly when one of its
/// decimal additions would be inexact.
fn sim_bulk(counter: &mut Dec, ft: &Dec, n: u32, zft: &Dec) -> (r: Option<Dec>)
    requires
        old(counter).wf(),
        ft.wf(),
        zft.wf(),
    ensures
        r is Some <==> sim_frames_ok(
            sim_start(old(counter).value()),
            ft.value(),
            zft.value(),
            n as nat,
        ),
        r matches Some(total) ==> {
            &&& total.wf()
            &&& final(counter).wf()
            &&& total.value() == sim_frames(
                sim_start(old(counter).value()),
                ft.value(),
                zft.value(),
                n as nat,
            ).total
            &&& final(counter).value() == sim_frames(
                sim_start(old(counter).value()),
                ft.value(),
                zft.value(),
                n as nat,
            ).counter
        },
{
    let ghost st0 = sim_start(old(counter).value());
    let ghost ftv = ft.value();
    let ghost zftv = zft.value();
    let threshold = Dec { mantissa: 201, scale: 3 };
    proof {
        assert(threshold.value() == fall_threshold());
    }
    let mut total = Dec::zero();
    let mut k: u32 = 0;
    while k < n
        invariant
            k <= n,
            ft.wf(),
            zft.wf(),
            counter.wf(),
            total.wf(),
            threshold == (Dec { mantissa: 201, scale: 3 }),
            threshold.value() == fall_threshold(),
            ftv == ft.value(),
            zftv == zft.value(),
            st0 == sim_start(old(counter).value()),
            sim_frames_ok(st0, ftv, zftv, k as nat),
            counter.value() == sim_frames(st0, ftv, zftv, k as nat).counter,
            total.value() == sim_frames(st0, ftv, zftv, k as nat).total,
        decreases n - k,
    {
        let ghost stk = sim_frames(st0, ftv, zftv, k as nat);
        let c1 = match dec_add_checked(counter, ft) {
            Some(d) => d,
            None => {
                proof {
                    if sim_frames_ok(st0, ftv, zftv, n as nat) {
                        lemma_sim_frames_ok_mono(st0, ftv, zftv, (k + 1) as nat, n as nat);
                    }
                }
                return None;
            },
        };
        if dec_lt(&threshold, &c1) {
            *counter = Dec::zero();
            total = match dec_add_checked(&total, zft) {
                Some(d) => d,
                None => {
                    proof {
                        if sim_frames_ok(st0, ftv, zftv, n as nat) {
                            lemma_sim_frames_ok_mono(st0, ftv, zftv, (k + 1) as nat, n as nat);
                        }
                    }
                    return None;
                },
            };
        } else {
            *counter = c1;
            total = match dec_add_checked(&total, ft) {
                Some(d) => d,
                None => {
                    proof {
                        if sim_frames_ok(st0, ftv, zftv, n as nat) {
                            lemma_sim_frames_ok_mono(st0, ftv, zftv, (k + 1) as nat, n as nat);
                        }
                    }
                    return None;
                },
            };
        }
        proof {
            assert(sim_frames(st0, ftv, zftv, (k + 1) as nat) == sim_frame(stk, ftv, zftv));
        }
        k = k + 1;
    }
    Some(total)
}

/// The executable running state carries exactly the modelled accumulator.
spec fn state_matches(
    start: Dec,
    end: Dec,
    estimated: Dec,
    zc: Dec,
    hist: Seq<FrametimeStats>,
    save: u128,
    shared: u128,
    buttons: u128,
    lgagst: u128,
    reset: u128,
    comment: u128,
    change: u128,
    tyo: u128,
    acc: SpecAccum,
) -> bool {
    &&& start.wf() && start.value() == acc.start
    &&& end.wf() && end.value() == acc.end
    &&& estimated.wf() && estimated.value() == acc.estimated
    &&& zc.wf() && zc.value() == acc.zero_ms_counter
    &&& stats_match(hist, acc.hist)
    &&& save == acc.save
    &&& shared == acc.shared_seed
    &&& buttons == acc.buttons
    &&& lgagst == acc.lgagst
    &&& reset == acc.reset
    &&& comment == acc.comment
    &&& change == acc.change
    &&& tyo == acc.target_yaw
}

/// One pass over the whole script with every decimal operation checked:
/// `None` exactly when some operation of the modelled pass would be
/// inexact, the modelled outcome otherwise.
fn pass(script: &Script) -> (r: Option<Result<AnalyzerResult, Error>>)
    ensures
        r is Some <==> in_range(*script),
        r matches Some(inner) ==> match spec_analyze(*script) {
            Ok(acc) => inner matches Ok(res) && result_matches(res, acc),
            Err(se) => inner matches Err(e) && error_matches(e, se),
        },
{
    let ghost lines = script.lines@;
    let zft: Dec = match &script.frametime_0ms {
        Some(t) => match dec_parse(t.as_str()) {
            Some(d) => d,
            None => {
                return Some(Err(Error::ZeroMsFrametimeParseError { string: t.clone() }));
            },
        },
        None => Dec { mantissa: 1, scale: 10 },
    };
    let ghost zv = zft.value();
    proof {
        assert(zft.wf());
        assert(spec_analyze(*script) == run_lines(lines, zv));
        assert(in_range(*script) == prefix_ok(lines, zv, lines.len()));
    }
    let mut start = Dec::zero();
    let mut end = Dec::zero();
    let mut estimated = Dec::zero();
    let mut zero_ms_counter = Dec::zero();
    let mut hist: Vec<FrametimeStats> = Vec::new();
    let mut save_count: u128 = 0;
    let mut shared_seed_set_count: u128 = 0;
    let mut button_set_count: u128 = 0;
    let mut lgagst_min_speed_set_count: u128 = 0;
    let mut reset_count: u128 = 0;
    let mut comment_count: u128 = 0;
    let mut change_angle_count: u128 = 0;
    let mut target_yaw_override_count: u128 = 0;
    let n_lines = script.lines.len();
    let mut i: usize = 0;
    while i < n_lines
        invariant
            i <= n_lines,
            n_lines == lines.len(),
            lines == script.lines@,
            zft.wf(),
            zv == zft.value(),
            spec_analyze(*script) == run_lines(lines, zv),
            in_range(*script) == prefix_ok(lines, zv, lines.len()),
            accum_prefix(lines, zv, i as nat) is Ok,
            prefix_ok(lines, zv, i as nat),
            state_matches(
                start,
                end,
                estimated,
                zero_ms_counter,
                hist@,
                save_count,
                shared_seed_set_count,
                button_set_count,
                lgagst_min_speed_set_count,
                reset_count,
                comment_count,
                change_angle_count,
                target_yaw_override_count,
                accum_prefix(lines, zv, i as nat)->Ok_0,
            ),
        decreases n_lines - i,
    {
        let ghost prev = accum_prefix(lines, zv, i as nat)->Ok_0;
        let line = &script.lines[i];
        match line {
            Line::FrameBulk(fb) => {
                let z = is_zero_ms_ducktap(fb);
                let ft = match dec_parse(fb.frame_time.as_str()) {
                    Some(d) => d,
                    None => {
                        proof {
                            assert(accum_prefix(lines, zv, (i + 1) as nat) == Err::<
                                SpecAccum,
                                Seq<char>,
                            >(fb.frame_time@));
                            assert(prefix_ok(lines, zv, (i + 1) as nat));
                            lemma_prefix_err_stable(lines, zv, (i + 1) as nat, lines.len());
                        }
                        return Some(
                            Err(Error::FrametimeParseError { string: fb.frame_time.clone() }),
                        );
                    },
                };
                let ghost ftv = ft.value();
                let ghost n = fb.frame_count as nat;
                let ghost acc1 = bulk_step(prev, ftv, n, z, zv);
                proof {
                    lemma_accum_invariant(lines, zv, i as nat);
                    lemma_total_frames_le(lines, i as nat);
                    assert(accum_inv(lines, zv, i as nat, prev));
                    assert(hist_sum(prev.hist) + fb.frame_count <= u128::MAX)
                        by (nonlinear_arith)
                        requires
                            hist_sum(prev.hist) <= (i as nat) * 0xffff_ffffnat,
                            i <= 0xffff_ffff_ffff_ffffnat,
                            fb.frame_count <= 0xffff_ffffnat,
                    ;
                }
                hist_insert(&mut hist, &ft, fb.frame_count, Ghost(prev.hist));
                let fb_time = match dec_mul_u32_checked(&ft, fb.frame_count) {
                    Some(d) => d,
                    None => {
                        proof {
                            assert(!bulk_ok(prev, ftv, n, z, zv));
                            assert(!prefix_ok(lines, zv, (i + 1) as nat));
                            if prefix_ok(lines, zv, lines.len()) {
                                lemma_prefix_ok_mono(lines, zv, (i + 1) as nat, lines.len());
                            }
                        }
                        return None;
                    },
                };
                if !z {
                    start = match dec_add_checked(&start, &fb_time) {
                        Some(d) => d,
                        None => {
                            proof {
                                assert(!bulk_ok(prev, ftv, n, z, zv));
                                if prefix_ok(lines, zv, lines.len()) {
                                    lemma_prefix_ok_mono(lines, zv, (i + 1) as nat, lines.len());
                                }
                            }
                            return None;
                        },
                    };
                }
                end = match dec_add_checked(&end, &fb_time) {
                    Some(d) => d,
                    None => {
                        proof {
                            assert(!bulk_ok(prev, ftv, n, z, zv));
                            if prefix_ok(lines, zv, lines.len()) {
                                lemma_prefix_ok_mono(lines, zv, (i + 1) as nat, lines.len());
                            }
                        }
                        return None;
                    },
                };
                if z {
                    let bulk_sim_time = match sim_bulk(&mut zero_ms_counter, &ft, fb.frame_count, &zft) {
                        Some(d) => d,
                        None => {
                            proof {
                                assert(!bulk_ok(prev, ftv, n, z, zv));
                                if prefix_ok(lines, zv, lines.len()) {
                                    lemma_prefix_ok_mono(lines, zv, (i + 1) as nat, lines.len());
                                }
                            }
                            return None;
                        },
                    };
                    estimated = match dec_add_checked(&estimated, &bulk_sim_time) {
                        Some(d) => d,
                        None => {
                            proof {
                                assert(!bulk_ok(prev, ftv, n, z, zv));
                                if prefix_ok(lines, zv, lines.len()) {
                                    lemma_prefix_ok_mono(lines, zv, (i + 1) as nat, lines.len());
                                }
                            }
                            return None;
                        },
                    };
                } else {
                    estimated = match dec_add_checked(&estimated, &fb_time) {
                        Some(d) => d,
                        None => {
                            proof {
                                assert(!bulk_ok(prev, ftv, n, z, zv));
                                if prefix_ok(lines, zv, lines.len()) {
                                    lemma_prefix_ok_mono(lines, zv, (i + 1) as nat, lines.len());
                                }
                            }
                            return None;
                        },
                    };
                }
                proof {
                    assert(bulk_ok(prev, ftv, n, z, zv));
                    assert(accum_prefix(lines, zv, (i + 1) as nat) == Ok::<SpecAccum, Seq<char>>(
                        acc1,
                    ));
                    assert(prefix_ok(lines, zv, (i + 1) as nat));
                }
            },
            Line::Save => {
                proof {
                    lemma_accum_invariant(lines, zv, i as nat);
                    lemma_count_directive_le(lines, i as nat, Directive::Save);
                    assert(counter_of(prev, Directive::Save) == prev.save);
                }
                save_count = save_count + 1;
            },
            Line::SharedSeed => {
                proof {
                    lemma_accum_invariant(lines, zv, i as nat);
                    lemma_count_directive_le(lines, i as nat, Directive::SharedSeed);
                    assert(counter_of(prev, Directive::SharedSeed) == prev.shared_seed);
                }
                shared_seed_set_count = shared_seed_set_count + 1;
            },
            Line::Buttons => {
                proof {
                    lemma_accum_invariant(lines, zv, i as nat);
                    lemma_count_directive_le(lines, i as nat, Directive::Buttons);
                    assert(counter_of(prev, Directive::Buttons) == prev.buttons);
                }
                button_set_count = button_set_count + 1;
            },
            Line::LgagstMinSpeed => {
                proof {
                    lemma_accum_invariant(lines, zv, i as nat);
                    lemma_count_directive_le(lines, i as nat, Directive::LgagstMinSpeed);
                    assert(counter_of(prev, Directive::LgagstMinSpeed) == prev.lgagst);
                }
                lgagst_min_speed_set_count = lgagst_min_speed_set_count + 1;
            },
            Line::Reset => {
                proof {
                    lemma_accum_invariant(lines, zv, i as nat);
                    lemma_count_directive_le(lines, i as nat, Directive::Reset);
                    assert(counter_of(prev, Directive::Reset) == prev.reset);
                }
                reset_count = reset_count + 1;
            },
            Line::Comment => {
                proof {
                    lemma_accum_invariant(lines, zv, i as nat);
                    lemma_count_directive_le(lines, i as nat, Directive::Comment);
                    assert(counter_of(prev, Directive::Comment) == prev.comment);
                }
                comment_count = comment_count + 1;
            },
            Line::VectorialStrafing => {},
            Line::VectorialStrafingConstraints => {},
            Line::Change => {
                proof {
                    lemma_accum_invariant(lines, zv, i as nat);
                    lemma_count_directive_le(lines, i as nat, Directive::Change);
                    assert(counter_of(prev, Directive::Change) == prev.change);
                }
                change_angle_count = change_angle_count + 1;
            },
            Line::TargetYawOverride => {
                proof {
                    lemma_accum_invariant(lines, zv, i as nat);
                    lemma_count_directive_le(lines, i as nat, Directive::TargetYawOverride);
                    assert(counter_of(prev, Directive::TargetYawOverride) == prev.target_yaw);
                }
                target_yaw_override_count = target_yaw_override_count + 1;
            },
        }
        proof {
            assert(accum_prefix(lines, zv, (i + 1) as nat) is Ok);
            assert(prefix_ok(lines, zv, (i + 1) as nat));
        }
        i = i + 1;
    }
    let result = AnalyzerResult {
        final_time: FinalTime { start, end },
        estimated_time: estimated,
        frametime_stats: hist,
        save_count,
        shared_seed_set_count,
        button_set_count,
        lgagst_min_speed_set_count,
        reset_count,
        comment_count,
        change_angle_count,
        target_yaw_override_count,
    };
    Some(Ok(result))
}

/// Analyze a script: visit each line once, in order; count each counted
/// directive; accumulate the exact duration bounds, the sorted frame-time
/// histogram and the simulated zero-ms estimate; fail with the offending
/// text if the zero-ms frame-time property or some frame time does not
/// parse as a decimal.  The result is exactly the one the specification
/// fold [`spec_analyze`] describes.
///
/// The caller is answerable for [`in_range`]: every decimal of the pass
/// must stay exactly representable in 96 bits.  [`try_analyze_hltas`]
/// checks that condition at run time instead.
pub fn analyze_hltas(script: &Script) -> (r: Result<AnalyzerResult, Error>)
    requires
        in_range(*script),
    ensures
        match spec_analyze(*script) {
            Ok(acc) => r matches Ok(res) && result_matches(res, acc),
            Err(se) => r matches Err(e) && error_matches(e, se),
        },
{
    match pass(script) {
        Some(inner) => inner,
        None => unreached(),
    }
}

/// Analyze a script, deciding at run time whether every decimal operation
/// of the pass stays exactly representable: `None` exactly when one would
/// not, the analysis outcome of [`analyze_hltas`] otherwise.
pub fn try_analyze_hltas(script: &Script) -> (r: Option<Result<AnalyzerResult, Error>>)
    ensures
        r is Some <==> in_range(*script),
        r matches Some(inner) ==> match spec_analyze(*script) {
            Ok(acc) => inner matches Ok(res) && result_matches(res, acc),
            Err(se) => inner matches Err(e) && error_matches(e, se),
        },
{
    match pass(script) {
        Some(_) => Some(analyze_hltas(script)),
        None => None,
    }
}

} // verus!
