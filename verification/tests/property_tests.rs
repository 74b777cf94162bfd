//! Errors, merging of equal frame times, ordering, determinism, and the
//! run-time range check.

use hltas_framebulk_analyzer::analyzer::try_analyze_hltas;
use hltas_framebulk_analyzer::analyze_hltas;
use hltas_framebulk_analyzer::{Dec, Error, FrameBulk, FrametimeStats, LeaveGround, Line, Script};

fn bulk(frame_time: &str, frame_count: u32) -> Line {
    Line::FrameBulk(FrameBulk {
        frame_time: frame_time.to_string(),
        frame_count,
        leave_ground: None,
    })
}

#[test]
fn unparseable_frametime_fails_with_its_text() {
    let s = Script {
        frametime_0ms: None,
        lines: vec![bulk("0.001", 10), bulk("abc", 5), Line::Save],
    };

    let result = analyze_hltas(&s);

    assert_eq!(
        result,
        Err(Error::FrametimeParseError { string: "abc".to_string() })
    );
}

#[test]
fn unparseable_zero_ms_property_fails_before_the_pass() {
    let s = Script {
        frametime_0ms: Some("xyz".to_string()),
        lines: vec![bulk("0.001", 10)],
    };

    let result = analyze_hltas(&s);

    assert_eq!(
        result,
        Err(Error::ZeroMsFrametimeParseError { string: "xyz".to_string() })
    );
}

#[test]
fn first_unparseable_frametime_wins() {
    let s = Script {
        frametime_0ms: None,
        lines: vec![bulk("nope", 1), bulk("abc", 1)],
    };

    let result = analyze_hltas(&s);

    assert_eq!(
        result,
        Err(Error::FrametimeParseError { string: "nope".to_string() })
    );
}

#[test]
fn equal_values_with_different_spellings_merge() {
    let s = Script {
        frametime_0ms: None,
        lines: vec![bulk("0.003", 10), bulk("0.0030", 20), bulk("0.00300", 12)],
    };

    let result = analyze_hltas(&s).unwrap();

    assert_eq!(
        result.frametime_stats,
        vec![FrametimeStats { frametime: Dec { mantissa: 3, scale: 3 }, frame_count: 42 }]
    );
}

#[test]
fn histogram_sorts_ascending_by_value() {
    let s = Script {
        frametime_0ms: None,
        lines: vec![bulk("0.001", 100), bulk("0.010000001", 5719), bulk("0.003", 5151)],
    };

    let result = analyze_hltas(&s).unwrap();

    assert_eq!(
        result.frametime_stats,
        vec![
            FrametimeStats { frametime: Dec { mantissa: 1, scale: 3 }, frame_count: 100 },
            FrametimeStats { frametime: Dec { mantissa: 3, scale: 3 }, frame_count: 5151 },
            FrametimeStats { frametime: Dec { mantissa: 10000001, scale: 9 }, frame_count: 5719 },
        ]
    );
}

#[test]
fn histogram_total_matches_frame_counts() {
    let s = Script {
        frametime_0ms: None,
        lines: vec![bulk("0.001", 7), bulk("0.0010", 8), bulk("0.25", 5), Line::Save],
    };

    let result = analyze_hltas(&s).unwrap();

    let total: u128 = result.frametime_stats.iter().map(|e| e.frame_count).sum();
    assert_eq!(total, 20);
}

#[test]
fn repeated_runs_agree() {
    let make = || Script {
        frametime_0ms: None,
        lines: vec![
            bulk("0.001", 100),
            Line::FrameBulk(FrameBulk {
                frame_time: "0.003".to_string(),
                frame_count: 5151,
                leave_ground: Some(LeaveGround::DuckTap { zero_ms: true }),
            }),
        ],
    };

    let r1 = analyze_hltas(&make()).unwrap();
    let r2 = analyze_hltas(&make()).unwrap();

    assert_eq!(r1.estimated_time, r2.estimated_time);
    assert_eq!(r1.final_time, r2.final_time);
    assert_eq!(r1.frametime_stats, r2.frametime_stats);
}

#[test]
fn try_analyze_agrees_on_ordinary_scripts() {
    let s = Script {
        frametime_0ms: None,
        lines: vec![bulk("0.001", 100), Line::Save],
    };

    let checked = try_analyze_hltas(&s).unwrap().unwrap();
    let direct = analyze_hltas(&s).unwrap();

    assert_eq!(checked.final_time, direct.final_time);
    assert_eq!(checked.save_count, 1);
}

#[test]
fn try_analyze_rejects_unrepresentable_sums() {
    // Each bulk is the largest representable decimal; their sum exceeds the
    // 96-bit mantissa.
    let s = Script {
        frametime_0ms: None,
        lines: vec![
            bulk("79228162514264337593543950335", 1),
            bulk("79228162514264337593543950335", 1),
        ],
    };

    assert_eq!(try_analyze_hltas(&s), None);
}

#[test]
fn try_analyze_reports_errors_as_results() {
    let s = Script {
        frametime_0ms: None,
        lines: vec![bulk("abc", 1)],
    };

    assert_eq!(
        try_analyze_hltas(&s),
        Some(Err(Error::FrametimeParseError { string: "abc".to_string() }))
    );
}

#[test]
fn duck_tap_without_zero_ms_flag_counts_in_full() {
    let s = Script {
        frametime_0ms: None,
        lines: vec![Line::FrameBulk(FrameBulk {
            frame_time: "0.001".to_string(),
            frame_count: 100,
            leave_ground: Some(LeaveGround::DuckTap { zero_ms: false }),
        })],
    };

    let result = analyze_hltas(&s).unwrap();

    assert_eq!(result.final_time.start, result.final_time.end);
    assert_eq!(result.final_time.end, Dec { mantissa: 1, scale: 1 });
}

#[test]
fn jump_action_is_no_duck_tap() {
    let s = Script {
        frametime_0ms: None,
        lines: vec![Line::FrameBulk(FrameBulk {
            frame_time: "0.001".to_string(),
            frame_count: 100,
            leave_ground: Some(LeaveGround::Jump),
        })],
    };

    let result = analyze_hltas(&s).unwrap();

    assert_eq!(result.final_time.start, result.final_time.end);
}

#[test]
fn vectorial_strafing_lines_are_ignored() {
    let s = Script {
        frametime_0ms: None,
        lines: vec![Line::VectorialStrafing, Line::VectorialStrafingConstraints],
    };

    let result = analyze_hltas(&s).unwrap();

    assert_eq!(result.save_count, 0);
    assert_eq!(result.final_time.end, Dec { mantissa: 0, scale: 0 });
    assert_eq!(result.frametime_stats, vec![]);
}

#[test]
fn integer_frame_times_normalize_to_scale_zero() {
    let s = Script {
        frametime_0ms: None,
        lines: vec![bulk("1000", 1), bulk("1000.00", 2)],
    };

    let result = analyze_hltas(&s).unwrap();

    assert_eq!(
        result.frametime_stats,
        vec![FrametimeStats { frametime: Dec { mantissa: 1000, scale: 0 }, frame_count: 3 }]
    );
    assert_eq!(result.final_time.end, Dec { mantissa: 3000, scale: 0 });
}

#[test]
fn negative_frame_times_subtract() {
    let s = Script {
        frametime_0ms: None,
        lines: vec![bulk("-0.5", 2)],
    };

    let result = analyze_hltas(&s).unwrap();

    assert_eq!(result.final_time.end, Dec { mantissa: -1, scale: 0 });
    assert_eq!(result.final_time.start, result.final_time.end);
}

#[test]
fn fall_threshold_is_strict() {
    // The first frame lands the counter exactly on 0.201 s, which does not
    // yet cross the threshold; the second frame does.
    let s = Script {
        frametime_0ms: None,
        lines: vec![Line::FrameBulk(FrameBulk {
            frame_time: "0.201".to_string(),
            frame_count: 2,
            leave_ground: Some(LeaveGround::DuckTap { zero_ms: true }),
        })],
    };

    let result = analyze_hltas(&s).unwrap();

    // 0.201 + 1e-10
    assert_eq!(result.estimated_time, Dec { mantissa: 2010000001, scale: 10 });
}
