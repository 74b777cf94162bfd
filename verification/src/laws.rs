//! The analyzer's laws, stated and proved over the model in
//! [`crate::model`]: the final-time bounds, the histogram's conservation,
//! uniqueness and ordering of keys, the exactness of the directive
//! counters, and the determinism of the whole analysis.

use crate::analyzer::{result_matches, AnalyzerResult};
use crate::dec::{dec_of_text, lemma_value_injective};
use crate::model::{
    accum_inv, accum_prefix, count_directive, counter_of, frames_with_ft, hist_sorted,
    hist_sum, lemma_accum_invariant, lemma_hist_count_pos, lemma_sorted_hist_count, spec_analyze,
    total_frames, Directive,
};
use crate::script::{Line, Script};
use vstd::prelude::*;

verus! {

/// Every frame bulk among the lines has a frame time that parses to a
/// positive value and a frame count of at least one.
pub open spec fn positive_frame_bulks(lines: Seq<Line>) -> bool {
    forall|k: int|
        0 <= k < lines.len() ==> match #[trigger] lines[k] {
            Line::FrameBulk(fb) => {
                &&& dec_of_text(fb.frame_time@) is Some
                &&& dec_of_text(fb.frame_time@)->Some_0 > 0
                &&& fb.frame_count >= 1
            },
            _ => true,
        }
}

/// Some line among the first `i` is a frame bulk flagged zero-ms duck-tap.
pub open spec fn has_zero_ms_bulk(lines: Seq<Line>, i: nat) -> bool {
    exists|k: int|
        0 <= k < i && match #[trigger] lines[k] {
            Line::FrameBulk(fb) => fb.zero_ms_ducktap(),
            _ => false,
        }
}

proof fn lemma_final_time_prefix(lines: Seq<Line>, zft: int, i: nat)
    requires
        positive_frame_bulks(lines),
        i <= lines.len(),
    ensures
        accum_prefix(lines, zft, i) matches Ok(acc) ==> {
            &&& 0 <= acc.start <= acc.end
            &&& (has_zero_ms_bulk(lines, i) <==> acc.start < acc.end)
        },
    decreases i,
{
    if i > 0 {
        lemma_final_time_prefix(lines, zft, (i - 1) as nat);
        if accum_prefix(lines, zft, i) is Ok {
            let acc = accum_prefix(lines, zft, i)->Ok_0;
            let prev = accum_prefix(lines, zft, (i - 1) as nat)->Ok_0;
            match lines[i - 1] {
                Line::FrameBulk(fb) => {
                    let ft = dec_of_text(fb.frame_time@)->Some_0;
                    let n = fb.frame_count as nat;
                    assert(ft * n >= ft * 1 > 0) by (nonlinear_arith)
                        requires
                            ft > 0,
                            n >= 1,
                    ;
                    if fb.zero_ms_ducktap() {
                        assert(has_zero_ms_bulk(lines, i)) by {
                            assert(0 <= i - 1 < i && match lines[i - 1] {
                                Line::FrameBulk(fb2) => fb2.zero_ms_ducktap(),
                                _ => false,
                            });
                        }
                    } else {
                        lemma_zero_ms_extend(lines, i);
                    }
                },
                _ => {
                    lemma_zero_ms_extend(lines, i);
                },
            }
        }
    }
}

/// A line that is no zero-ms duck-tap bulk does not change whether the
/// prefix holds one.
proof fn lemma_zero_ms_extend(lines: Seq<Line>, i: nat)
    requires
        i >= 1,
        !match lines[i - 1] {
            Line::FrameBulk(fb) => fb.zero_ms_ducktap(),
            _ => false,
        },
    ensures
        has_zero_ms_bulk(lines, i) == has_zero_ms_bulk(lines, (i - 1) as nat),
{
    if has_zero_ms_bulk(lines, i) {
        let k = choose|k: int|
            0 <= k < i && match #[trigger] lines[k] {
                Line::FrameBulk(fb) => fb.zero_ms_ducktap(),
                _ => false,
            };
        assert(k < i - 1);
        assert(has_zero_ms_bulk(lines, (i - 1) as nat));
    }
    if has_zero_ms_bulk(lines, (i - 1) as nat) {
        let k = choose|k: int|
            0 <= k < i - 1 && match #[trigger] lines[k] {
                Line::FrameBulk(fb) => fb.zero_ms_ducktap(),
                _ => false,
            };
        assert(0 <= k < i && match lines[k] {
            Line::FrameBulk(fb) => fb.zero_ms_ducktap(),
            _ => false,
        });
    }
}

/// For every script whose frame bulks carry positive frame times and
/// counts, the final-time range of a successful analysis satisfies
/// `start <= end`, with equality exactly when no line is flagged zero-ms
/// duck-tap.
pub proof fn lemma_final_time_bounds(script: Script)
    requires
        positive_frame_bulks(script.lines@),
    ensures
        spec_analyze(script) matches Ok(acc) ==> {
            &&& 0 <= acc.start <= acc.end
            &&& ((acc.start == acc.end) <==> !has_zero_ms_bulk(
                script.lines@,
                script.lines@.len(),
            ))
        },
{
    match script.frametime_0ms {
        Some(t) => {
            if dec_of_text(t@) is Some {
                lemma_final_time_prefix(
                    script.lines@,
                    dec_of_text(t@)->Some_0,
                    script.lines@.len(),
                );
            }
        },
        None => {
            lemma_final_time_prefix(
                script.lines@,
                crate::model::default_zero_ms(),
                script.lines@.len(),
            );
        },
    }
}

/// For every input, the histogram of a successful analysis conserves
/// frames: the sum of its counts is the sum of `frame_count` over all frame
/// bulk lines.
pub proof fn lemma_histogram_total(script: Script)
    ensures
        spec_analyze(script) matches Ok(acc) ==> hist_sum(acc.hist) == total_frames(
            script.lines@,
            script.lines@.len(),
        ),
{
    lemma_run_invariant(script);
}

/// For every input, the histogram of a successful analysis merges frame
/// bulks by the numeric value of their frame times: its keys strictly
/// ascend (so each value appears once, however it was spelled), each entry
/// counts exactly the frames of the bulks parsing to its value, and every
/// value some bulk parses to has its entry.
pub proof fn lemma_histogram_merged(script: Script)
    ensures
        spec_analyze(script) matches Ok(acc) ==> {
            &&& hist_sorted(acc.hist)
            &&& forall|j: int|
                0 <= j < acc.hist.len() ==> (#[trigger] acc.hist[j]).1 == frames_with_ft(
                    script.lines@,
                    script.lines@.len(),
                    acc.hist[j].0,
                )
            &&& forall|v: int|
                #[trigger] frames_with_ft(script.lines@, script.lines@.len(), v) > 0
                    ==> exists|j: int| 0 <= j < acc.hist.len() && (#[trigger] acc.hist[j]).0 == v
        },
{
    lemma_run_invariant(script);
    if spec_analyze(script) is Ok {
        let acc = spec_analyze(script)->Ok_0;
        let lines = script.lines@;
        assert forall|j: int|
            0 <= j < acc.hist.len() implies (#[trigger] acc.hist[j]).1 == frames_with_ft(
            lines,
            lines.len(),
            acc.hist[j].0,
        ) by {
            lemma_sorted_hist_count(acc.hist, j);
        }
        assert forall|v: int|
            #[trigger] frames_with_ft(lines, lines.len(), v) > 0 implies exists|j: int|
            0 <= j < acc.hist.len() && (#[trigger] acc.hist[j]).0 == v by {
            lemma_hist_count_pos(acc.hist, v);
        }
    }
}

/// For every input, each directive counter of a successful analysis equals
/// exactly the number of lines of its kind, whatever the frame bulks hold.
pub proof fn lemma_counter_exactness(script: Script, d: Directive)
    ensures
        spec_analyze(script) matches Ok(acc) ==> counter_of(acc, d) == count_directive(
            script.lines@,
            script.lines@.len(),
            d,
        ),
{
    lemma_run_invariant(script);
}

/// A successful whole analysis satisfies the fold invariant.
proof fn lemma_run_invariant(script: Script)
    ensures
        spec_analyze(script) matches Ok(acc) ==> accum_inv(
            script.lines@,
            zero_ms_value(script),
            script.lines@.len(),
            acc,
        ),
{
    lemma_accum_invariant(script.lines@, zero_ms_value(script), script.lines@.len());
}

/// The zero-ms frame time a script is analyzed with (meaningful when the
/// property, if present, parses).
pub open spec fn zero_ms_value(script: Script) -> int {
    match script.frametime_0ms {
        Some(t) => dec_of_text(t@)->Some_0,
        None => crate::model::default_zero_ms(),
    }
}

/// The analysis is a function of the script alone: any two results that
/// carry the modelled accumulator of the same script are equal, field for
/// field — the estimated time in particular.
pub proof fn lemma_analysis_deterministic(script: Script, r1: AnalyzerResult, r2: AnalyzerResult)
    requires
        spec_analyze(script) is Ok,
        result_matches(r1, spec_analyze(script)->Ok_0),
        result_matches(r2, spec_analyze(script)->Ok_0),
    ensures
        r1.estimated_time == r2.estimated_time,
        r1.final_time == r2.final_time,
        r1.frametime_stats@ == r2.frametime_stats@,
        r1.save_count == r2.save_count,
        r1.shared_seed_set_count == r2.shared_seed_set_count,
        r1.button_set_count == r2.button_set_count,
        r1.lgagst_min_speed_set_count == r2.lgagst_min_speed_set_count,
        r1.reset_count == r2.reset_count,
        r1.comment_count == r2.comment_count,
        r1.change_angle_count == r2.change_angle_count,
        r1.target_yaw_override_count == r2.target_yaw_override_count,
{
    lemma_value_injective(r1.estimated_time, r2.estimated_time);
    lemma_value_injective(r1.final_time.start, r2.final_time.start);
    lemma_value_injective(r1.final_time.end, r2.final_time.end);
    let acc = spec_analyze(script)->Ok_0;
    assert forall|j: int|
        0 <= j < r1.frametime_stats@.len() implies r1.frametime_stats@[j]
        == r2.frametime_stats@[j] by {
        lemma_value_injective(r1.frametime_stats@[j].frametime, r2.frametime_stats@[j].frametime);
    }
    assert(r1.frametime_stats@ =~= r2.frametime_stats@);
}

} // verus!

