use prodash::draw::{
    bar_color, bar_fill, bar_fill_ppm, draw_overflow, headline_text, level_prefix, pane,
    spinner_color, spinner_offset, to_tree_prefix, InterruptDrawInfo, State, Tint,
};
use prodash::key::Key;
use prodash::progress::{add_block_eta, progress_format, Progress, ProgressState, Value};
use prodash::text::{decimal_chars, pad_left};
use prodash::viewport::{needs_overflow_row, overflow_stats, sanitize_offset};
use tui::buffer::Buffer;
use tui::layout::Rect;

fn chars(s: &str) -> Vec<char> {
    s.chars().collect()
}

fn running(step: u32, done_at: Option<u32>) -> Option<Progress> {
    Some(Progress {
        step,
        done_at,
        unit: None,
        state: ProgressState::Running,
    })
}

fn row(key: Key, name: &str, progress: Option<Progress>) -> (Key, Value) {
    (
        key,
        Value {
            name: chars(name),
            progress,
        },
    )
}

#[test]
fn half_done_bar_fills_half_the_columns_rounded_up() {
    assert_eq!(bar_fill(10, 50, 100), 5);
    assert_eq!(bar_fill(9, 50, 100), 5);
    assert_eq!(bar_fill(10, 0, 100), 0);
    assert_eq!(bar_fill(10, 100, 100), 10);
    assert_eq!(bar_fill(10, 300, 100), 10);
    assert_eq!(bar_fill(10, 1, 100), 1);
}

#[test]
fn half_done_label_shows_step_against_target() {
    let p = running(50, Some(100));
    assert_eq!(progress_format(&p, 0), chars("50 / 100"));
}

#[test]
fn labels_carry_units_and_groups_render_dashes() {
    let with_unit = Some(Progress {
        step: 3,
        done_at: Some(4),
        unit: Some(chars("files")),
        state: ProgressState::Running,
    });
    assert_eq!(progress_format(&with_unit, 0), chars("3 / 4 files"));
    let stepping = running(7, None);
    assert_eq!(progress_format(&stepping, 0), chars("7"));
    assert_eq!(progress_format(&None, 6), chars("──────"));
}

#[test]
fn offsets_clamp_into_the_scrollable_range() {
    assert_eq!(sanitize_offset(0, 100, 10), 0);
    assert_eq!(sanitize_offset(42, 100, 10), 42);
    assert_eq!(sanitize_offset(95, 100, 10), 90);
    assert_eq!(sanitize_offset(u16::MAX, 100, 10), 90);
    assert_eq!(sanitize_offset(u16::MAX, 5, 10), 0);
    assert_eq!(sanitize_offset(3, 0, 10), 0);
}

#[test]
fn overflow_row_is_reserved_only_when_needed() {
    assert!(!needs_overflow_row(5, 10, 0));
    assert!(!needs_overflow_row(10, 10, 0));
    assert!(needs_overflow_row(11, 10, 0));
    assert!(needs_overflow_row(5, 10, 3));
    assert!(!needs_overflow_row(0, 10, 3));
}

#[test]
fn hidden_rows_aggregate_to_their_mean_fraction() {
    let mut rows = Vec::new();
    for i in 0..9 {
        rows.push(row(Key::default().add_child(i), "idle", running(0, Some(100))));
    }
    rows.push(row(Key::default().add_child(9), "done", running(100, Some(100))));
    // a window of height zero hides all ten rows
    let (count, mean_ppm) = overflow_stats(&rows, 0, 0);
    assert_eq!(count, 10);
    assert_eq!(mean_ppm, 100_000);
}

#[test]
fn fractions_scale_to_millionths() {
    let p = Progress {
        step: 1,
        done_at: Some(3),
        unit: None,
        state: ProgressState::Running,
    };
    assert_eq!(p.fraction_ppm(), Some(333_333));
    let unbounded = Progress {
        step: 1,
        done_at: None,
        unit: None,
        state: ProgressState::Running,
    };
    assert_eq!(unbounded.fraction_ppm(), None);
    assert_eq!(bar_fill_ppm(10, 100_000), 1);
    assert_eq!(bar_fill_ppm(10, 0), 0);
    assert_eq!(bar_fill_ppm(10, 2_000_000), 10);
}

#[test]
fn decimal_and_padding_render_plain_numbers() {
    assert_eq!(decimal_chars(0), chars("0"));
    assert_eq!(decimal_chars(7), chars("7"));
    assert_eq!(decimal_chars(1234), chars("1234"));
    assert_eq!(pad_left(&chars("7"), 3), chars("  7"));
    assert_eq!(pad_left(&chars("1234"), 3), chars("1234"));
}

#[test]
fn blocked_rows_append_reason_and_remaining_time() {
    let state = ProgressState::Blocked(chars("stuck"), Some(1_090));
    let mut text = chars("5 / 9");
    add_block_eta(&state, 1_000, &mut text);
    assert_eq!(text, chars("5 / 9 [stuck] → 1m 30s to unblock"));
}

#[test]
fn halted_rows_say_continue_and_past_times_are_dropped() {
    let halted = ProgressState::Halted(chars("paused"), Some(2_000));
    let mut text = chars("x");
    add_block_eta(&halted, 1_999, &mut text);
    assert_eq!(text, chars("x [paused] → 1s to continue"));
    let past = ProgressState::Blocked(chars("late"), Some(5));
    let mut text2 = chars("y");
    add_block_eta(&past, 10, &mut text2);
    assert_eq!(text2, chars("y [late]"));
}

#[test]
fn bar_colors_follow_state_and_fraction() {
    let blocked = ProgressState::Blocked(chars("io"), None);
    let halted = ProgressState::Halted(chars("quota"), None);
    assert_eq!(bar_color(&ProgressState::Running, 79, 100), Tint::Yellow);
    assert_eq!(bar_color(&ProgressState::Running, 80, 100), Tint::Green);
    assert_eq!(bar_color(&blocked, 99, 100), Tint::Red);
    assert_eq!(bar_color(&halted, 99, 100), Tint::LightRed);
    assert_eq!(spinner_color(&ProgressState::Running), Tint::White);
    assert_eq!(spinner_color(&blocked), Tint::Red);
    assert_eq!(spinner_color(&halted), Tint::LightRed);
}

#[test]
fn spinner_positions_wrap_and_differ_between_neighbors() {
    assert_eq!(spinner_offset(3, 0, 10), 3);
    assert_eq!(spinner_offset(3, 1, 10), 4);
    assert_eq!(spinner_offset(13, 0, 10), 3);
    for seed in 0..10 {
        assert!(spinner_offset(7, seed, 10) < 10);
    }
}

#[test]
fn tree_prefixes_follow_the_three_level_policy() {
    assert_eq!(level_prefix(None, 1, 1), chars(""));
    assert_eq!(level_prefix(Some(1), 1, 1), chars("├"));
    assert_eq!(level_prefix(Some(1), 1, 0), chars("└"));
    assert_eq!(level_prefix(Some(1), 2, 2), chars(" ├"));
    assert_eq!(level_prefix(Some(2), 2, 0), chars(" └"));
    assert_eq!(level_prefix(Some(3), 2, 2), chars("  "));
    assert_eq!(level_prefix(Some(1), 3, 0), chars("   └"));
    let entry = row(Key::default().add_child(0).add_child(1), "unpack", None);
    assert_eq!(to_tree_prefix(&entry, Some(1), 2), chars(" ├ unpack "));
}

#[test]
fn headline_counts_all_three_buckets() {
    let blocked = Some(Progress {
        step: 1,
        done_at: None,
        unit: None,
        state: ProgressState::Blocked(chars("io"), None),
    });
    let rows = vec![
        row(Key::default().add_child(0), "a", running(1, None)),
        row(Key::default().add_child(1), "b", blocked),
        row(Key::default().add_child(2), "c", None),
    ];
    let text = headline_text(&rows, InterruptDrawInfo::Instantly);
    assert_eq!(
        text,
        chars(" 'q' or CTRL+c to quit    1 running +   1 blocked +   1 groups = 3 ")
    );
    let deferred = headline_text(&rows, InterruptDrawInfo::Deferred(true));
    assert!(deferred.iter().collect::<String>().contains("interrupt requested"));
}

fn sample_rows() -> Vec<(Key, Value)> {
    let mut rows = Vec::new();
    for i in 0..12 {
        let parent = Key::default().add_child(i);
        rows.push(row(parent, "job", running(i as u32 * 10, Some(100))));
        rows.push(row(
            parent.add_child(0),
            "part",
            if i % 3 == 0 { None } else { running(i as u32, None) },
        ));
    }
    rows
}

#[test]
fn rendering_twice_with_unchanged_inputs_is_identical() {
    let rows = sample_rows();
    let area = Rect::new(0, 0, 60, 10);
    let mut buf1 = Buffer::empty(area);
    let mut buf2 = Buffer::empty(area);
    let start = State {
        task_offset: 3,
        next_tree_column_width: None,
        last_tree_column_width: None,
    };
    let mut s1 = start;
    let mut s2 = start;
    pane(&rows, &mut buf1, 0, 0, 60, 10, &mut s1, 1_000);
    pane(&rows, &mut buf2, 0, 0, 60, 10, &mut s2, 1_000);
    assert_eq!(s1, s2);
    assert_eq!(buf1, buf2);
    // and a second pass over the same buffer changes nothing further
    let mut s3 = s1;
    pane(&rows, &mut buf2, 0, 0, 60, 10, &mut s3, 1_000);
    assert_eq!(buf1, buf2);
    assert_eq!(s1, s3);
}

#[test]
fn pane_clamps_the_offset_and_records_the_tree_width() {
    let rows = sample_rows();
    let area = Rect::new(0, 0, 60, 10);
    let mut buf = Buffer::empty(area);
    let mut state = State {
        task_offset: u16::MAX,
        next_tree_column_width: None,
        last_tree_column_width: None,
    };
    pane(&rows, &mut buf, 0, 0, 60, 10, &mut state, 0);
    // 24 rows, 10 high, one row reserved for the overflow summary
    assert_eq!(state.task_offset, 14);
    assert!(state.last_tree_column_width.is_some());
    assert!(state.last_tree_column_width.unwrap() > 0);
}

#[test]
fn narrow_panes_collapse_the_tree_column() {
    let rows = sample_rows();
    let area = Rect::new(0, 0, 30, 30);
    let mut buf = Buffer::empty(area);
    let mut state = State {
        task_offset: 0,
        next_tree_column_width: None,
        last_tree_column_width: None,
    };
    pane(&rows, &mut buf, 0, 0, 30, 30, &mut state, 0);
    assert_eq!(state.last_tree_column_width, Some(0));
}

fn row_text(buf: &Buffer, y: u16, width: u16) -> String {
    let mut out = String::new();
    for x in 0..width {
        out.push_str(&buf.get(x, y).symbol);
    }
    out
}

#[test]
fn overflow_row_names_the_skipped_and_remaining_rows() {
    let rows = sample_rows();
    let area = Rect::new(0, 0, 60, 1);
    let mut buf = Buffer::empty(area);
    draw_overflow(&rows, &mut buf, 0, 0, 60, 0, 5, 4);
    let text = row_text(&buf, 0, 60);
    // 4 rows scrolled past above, 5 shown, the rest summarized
    assert!(text.contains("…4 skipped and 14 more"), "got: {text:?}");
    assert!(text.contains("⇊ = d|↓ = j|⇈ = u|↑ = k"), "got: {text:?}");
}

#[test]
fn visible_rows_show_their_labels_and_bars() {
    let rows = vec![
        row(Key::default().add_child(0), "build", running(50, Some(100))),
        row(Key::default().add_child(1), "group", None),
    ];
    let area = Rect::new(0, 0, 60, 4);
    let mut buf = Buffer::empty(area);
    let mut state = State {
        task_offset: 0,
        next_tree_column_width: None,
        last_tree_column_width: None,
    };
    pane(&rows, &mut buf, 0, 0, 60, 4, &mut state, 0);
    let tree_row = row_text(&buf, 0, 60);
    assert!(tree_row.contains("build"), "got: {tree_row:?}");
    assert!(tree_row.contains("50 / 100"), "got: {tree_row:?}");
    let group_row = row_text(&buf, 1, 60);
    assert!(group_row.contains("group"), "got: {group_row:?}");
}

#[test]
fn a_full_frame_shows_the_headline_over_the_pane() {
    let rows = sample_rows();
    let area = Rect::new(0, 0, 70, 8);
    let mut buf = Buffer::empty(area);
    let mut state = State {
        task_offset: 0,
        next_tree_column_width: None,
        last_tree_column_width: None,
    };
    let drew = prodash::draw::draw_frame(&rows, &mut buf, &mut state, InterruptDrawInfo::Instantly, 0);
    assert!(drew);
    let head = row_text(&buf, 0, 70);
    assert!(head.contains("running"), "got: {head:?}");
    assert!(head.contains("'q' or CTRL+c to quit"), "got: {head:?}");
    let mut empty_buf = Buffer::empty(Rect::new(0, 0, 0, 5));
    let before = state;
    let drew_nothing = prodash::draw::draw_frame(
        &rows,
        &mut empty_buf,
        &mut state,
        InterruptDrawInfo::Instantly,
        0,
    );
    assert!(!drew_nothing);
    assert_eq!(state, before);
}

#[test]
fn a_zero_target_has_no_computable_fraction() {
    let p = Progress {
        step: 5,
        done_at: Some(0),
        unit: None,
        state: ProgressState::Running,
    };
    assert_eq!(p.fraction_ppm(), None);
}

#[test]
fn indeterminate_labels_still_carry_units() {
    let p = Some(Progress {
        step: 7,
        done_at: None,
        unit: Some("files".chars().collect()),
        state: ProgressState::Running,
    });
    assert_eq!(progress_format(&p, 0), chars("7 files"));
}

#[test]
fn empty_snapshots_render_no_rows_and_keep_the_remembered_width() {
    let rows: Vec<(Key, Value)> = Vec::new();
    let area = Rect::new(0, 0, 40, 5);
    let mut buf = Buffer::empty(area);
    let mut state = State {
        task_offset: 9,
        next_tree_column_width: Some(12),
        last_tree_column_width: Some(7),
    };
    pane(&rows, &mut buf, 0, 0, 40, 5, &mut state, 0);
    assert_eq!(state.task_offset, 0);
    assert_eq!(state.next_tree_column_width, Some(12));
    assert_eq!(state.last_tree_column_width, Some(7));
    assert_eq!(buf, Buffer::empty(area));
}

#[test]
fn determinate_bars_paint_the_leading_cells() {
    let rows = vec![row(Key::default().add_child(0), "half", running(50, Some(100)))];
    let area = Rect::new(0, 0, 20, 1);
    let mut buf = Buffer::empty(area);
    prodash::draw::draw_progress(&rows, &mut buf, 0, 0, 20, 1, false, 0, 0);
    // half of twenty cells, rounded up, in yellow (fraction below 0.8)
    for x in 0..10 {
        assert_eq!(buf.get(x, 0).bg, tui::style::Color::Yellow, "cell {x}");
    }
    assert_ne!(buf.get(10, 0).bg, tui::style::Color::Yellow);
    let text = row_text(&buf, 0, 20);
    assert!(text.contains("50 / 100"), "got: {text:?}");
}

#[test]
fn spinners_fill_exactly_one_cell() {
    let rows = vec![row(Key::default().add_child(0), "tick", running(7, None))];
    let area = Rect::new(0, 0, 20, 1);
    let mut buf = Buffer::empty(area);
    prodash::draw::draw_progress(&rows, &mut buf, 0, 0, 20, 1, false, 0, 0);
    // the label column is one cell wide, so the spinner bar starts at 1 and
    // the block sits at 1 + (7 + 0) % 19 == 8
    assert_eq!(buf.get(8, 0).bg, tui::style::Color::White);
    assert_ne!(buf.get(7, 0).bg, tui::style::Color::White);
    assert_ne!(buf.get(9, 0).bg, tui::style::Color::White);
}

#[test]
fn group_rows_put_the_name_after_the_filler() {
    let rows = vec![
        row(Key::default().add_child(0), "job", running(3, Some(9))),
        row(Key::default().add_child(1), "grp", None),
    ];
    let area = Rect::new(0, 0, 24, 2);
    let mut buf = Buffer::empty(area);
    prodash::draw::draw_progress(&rows, &mut buf, 0, 0, 24, 2, false, 0, 0);
    // the label column is len("3 / 9") == 5 cells wide; the group row shows
    // the dashed filler of that width, then its name
    let text = row_text(&buf, 1, 24);
    assert!(text.contains("───── grp"), "got: {text:?}");
}
