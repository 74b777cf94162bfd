//! The analyzer's behaviour on whole scripts: duration bounds, histogram,
//! and the per-directive counters.

use hltas_framebulk_analyzer::analyze_hltas;
use hltas_framebulk_analyzer::{Dec, FinalTime, FrameBulk, FrametimeStats, LeaveGround, Line, Script};

fn bulk(frame_time: &str, frame_count: u32) -> Line {
    Line::FrameBulk(FrameBulk {
        frame_time: frame_time.to_string(),
        frame_count,
        leave_ground: None,
    })
}

fn ducktap_bulk(frame_time: &str, frame_count: u32) -> Line {
    Line::FrameBulk(FrameBulk {
        frame_time: frame_time.to_string(),
        frame_count,
        leave_ground: Some(LeaveGround::DuckTap { zero_ms: true }),
    })
}

fn script(lines: Vec<Line>) -> Script {
    Script { frametime_0ms: None, lines }
}

#[test]
fn final_time() {
    let s = script(vec![
        bulk("0.001", 100),
        bulk("0.010000001", 5719),
        ducktap_bulk("0.003", 5151),
    ]);

    let result = analyze_hltas(&s).unwrap();

    assert_eq!(
        result.final_time,
        FinalTime {
            start: Dec { mantissa: 57290005719, scale: 9 },
            end: Dec { mantissa: 72743005719, scale: 9 },
        }
    );
}

#[test]
fn frametime_stats() {
    let s = script(vec![
        bulk("0.001", 100),
        bulk("0.010000001", 5719),
        bulk("0.003", 5151),
    ]);

    let result = analyze_hltas(&s).unwrap();

    assert_eq!(
        result.frametime_stats,
        vec![
            FrametimeStats { frametime: Dec { mantissa: 1, scale: 3 }, frame_count: 100 },
            FrametimeStats { frametime: Dec { mantissa: 3, scale: 3 }, frame_count: 5151 },
            FrametimeStats { frametime: Dec { mantissa: 10000001, scale: 9 }, frame_count: 5719 },
        ]
    );
}

#[test]
fn save_count() {
    let s = script(vec![
        Line::Save,
        bulk("0.001", 100),
        Line::Save,
        Line::Save,
    ]);

    let result = analyze_hltas(&s).unwrap();

    assert_eq!(result.save_count, 3);
}

#[test]
fn shared_seed_set_count() {
    let s = script(vec![
        Line::SharedSeed,
        Line::SharedSeed,
        bulk("0.001", 100),
        Line::SharedSeed,
    ]);

    let result = analyze_hltas(&s).unwrap();

    assert_eq!(result.shared_seed_set_count, 3);
}

#[test]
fn button_set_count() {
    let s = script(vec![
        Line::Buttons,
        bulk("0.001", 100),
        Line::Buttons,
    ]);

    let result = analyze_hltas(&s).unwrap();

    assert_eq!(result.button_set_count, 2);
}

#[test]
fn lgagst_min_speed_set_count() {
    let s = script(vec![
        Line::LgagstMinSpeed,
        Line::LgagstMinSpeed,
        bulk("0.001", 100),
        Line::LgagstMinSpeed,
    ]);

    let result = analyze_hltas(&s).unwrap();

    assert_eq!(result.lgagst_min_speed_set_count, 3);
}

#[test]
fn reset_count() {
    let s = script(vec![
        Line::Reset,
        bulk("0.001", 100),
        Line::Reset,
    ]);

    let result = analyze_hltas(&s).unwrap();

    assert_eq!(result.reset_count, 2);
}

#[test]
fn comment_count() {
    let s = script(vec![
        Line::Comment,
        bulk("0.001", 100),
        Line::Comment,
    ]);

    let result = analyze_hltas(&s).unwrap();

    assert_eq!(result.comment_count, 2);
}

#[test]
fn change_angle_count() {
    let s = script(vec![
        Line::Change,
        bulk("0.001", 100),
        Line::Change,
    ]);

    let result = analyze_hltas(&s).unwrap();

    assert_eq!(result.change_angle_count, 2);
}

#[test]
fn target_yaw_override_count() {
    let s = script(vec![
        Line::TargetYawOverride,
        bulk("0.001", 100),
        Line::TargetYawOverride,
    ]);

    let result = analyze_hltas(&s).unwrap();

    assert_eq!(result.target_yaw_override_count, 2);
}

#[test]
fn estimated_time_without_ducktaps_is_the_sum() {
    let s = script(vec![bulk("0.001", 150), bulk("0.004", 150)]);

    let result = analyze_hltas(&s).unwrap();

    // 150 * 0.001 + 150 * 0.004 = 0.75
    assert_eq!(result.estimated_time, Dec { mantissa: 75, scale: 2 });
    assert_eq!(result.final_time.start, result.final_time.end);
}

#[test]
fn estimated_time_ducktap_with_default_zero_ms() {
    // Frames accumulate 0.1 each; the third crosses 0.201 s, costs the
    // default zero-ms frame time 1e-10 and resets the counter.
    let s = script(vec![ducktap_bulk("0.1", 5)]);

    let result = analyze_hltas(&s).unwrap();

    // 0.1 + 0.1 + 1e-10 + 0.1 + 0.1
    assert_eq!(result.estimated_time, Dec { mantissa: 4000000001, scale: 10 });
    assert_eq!(result.final_time.start, Dec { mantissa: 0, scale: 0 });
    assert_eq!(result.final_time.end, Dec { mantissa: 5, scale: 1 });
}

#[test]
fn estimated_time_ducktap_with_zero_ms_property() {
    let s = Script {
        frametime_0ms: Some("0.0000001".to_string()),
        lines: vec![ducktap_bulk("0.1", 5)],
    };

    let result = analyze_hltas(&s).unwrap();

    // 0.1 + 0.1 + 1e-7 + 0.1 + 0.1
    assert_eq!(result.estimated_time, Dec { mantissa: 4000001, scale: 7 });
}

#[test]
fn zero_ms_counter_carries_across_bulks() {
    // 0.15 + 0.15 crosses the 0.201 s threshold only because the counter
    // is carried from the first bulk into the second.
    let s = script(vec![ducktap_bulk("0.15", 1), ducktap_bulk("0.15", 1)]);

    let result = analyze_hltas(&s).unwrap();

    // first frame: 0.15; second frame: counter 0.3 > 0.201, costs 1e-10
    assert_eq!(result.estimated_time, Dec { mantissa: 1500000001, scale: 10 });
}

#[test]
fn empty_script_yields_zeros() {
    let s = script(vec![]);

    let result = analyze_hltas(&s).unwrap();

    assert_eq!(result.final_time, FinalTime {
        start: Dec { mantissa: 0, scale: 0 },
        end: Dec { mantissa: 0, scale: 0 },
    });
    assert_eq!(result.estimated_time, Dec { mantissa: 0, scale: 0 });
    assert_eq!(result.frametime_stats, vec![]);
    assert_eq!(result.save_count, 0);
}
