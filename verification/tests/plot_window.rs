//! The plot window: its time axis, its groups and its exports.
use std::collections::VecDeque;
use tscope::calendar::{civil_from_days, timestamp};
use tscope::csv::csv_field;
use tscope::curve::{export_csv, export_name, line_segments, time_text, NothingToExport};
use tscope::double::Double;
use tscope::plot_app::{
    apply_view, check_groups, color_for, PlotApp, PlotError, PlotKey, PlotOptions, Point, ViewPlan,
};
use tscope::source::{next_wave_sample, ChannelSource, Sample};

const SECOND: u64 = 1_000_000_000;

fn double(v: f64) -> Double {
    Double { bits: v.to_bits() }
}

fn value(d: Double) -> f64 {
    f64::from_bits(d.bits)
}

fn ns(seconds: f64) -> i64 {
    (seconds * 1e9) as i64
}

fn hist(pairs: &[(f64, f64)]) -> VecDeque<Point> {
    pairs.iter().map(|p| (ns(p.0) as i128, double(p.1))).collect()
}

fn show(d: Double) -> String {
    value(d).to_string()
}

fn app_with(channels: &[&str], window: u64) -> PlotApp {
    let names = channels.iter().map(|c| c.to_string()).collect();
    PlotApp::new(names, PlotOptions { window, ..Default::default() }).unwrap()
}

fn sample(t: u64, v: f64) -> Sample {
    Sample { t: t as i64, values: vec![double(v)] }
}

#[test]
fn civil_from_days_known_dates() {
    assert_eq!(civil_from_days(0), (1970, 1, 1));
    assert_eq!(civil_from_days(11_017), (2000, 3, 1));
    assert_eq!(civil_from_days(-1), (1969, 12, 31));
}

#[test]
fn dates_run_through_leap_years() {
    // 2000-02-29, the leap day that a century has once in four
    assert_eq!(civil_from_days(11_016), (2000, 2, 29));
    // 1900-02-28 is followed by March
    assert_eq!(civil_from_days(-25_509), (1900, 2, 28));
    assert_eq!(civil_from_days(-25_508), (1900, 3, 1));
}

#[test]
fn timestamps_name_the_second() {
    assert_eq!(timestamp(0), "19700101-000000");
    assert_eq!(timestamp(951_782_399), "20000228-235959");
    assert_eq!(export_name(&timestamp(951_782_400)), "tscope-plot-export-20000229-000000.csv");
}

#[test]
fn csv_field_escaping() {
    assert_eq!(csv_field("theta_ref"), "theta_ref");
    assert_eq!(csv_field("a,b"), "\"a,b\"");
}

#[test]
fn csv_fields_double_their_quotes() {
    assert_eq!(csv_field("say \"x\""), "\"say \"\"x\"\"\"");
    assert_eq!(csv_field("two\nlines"), "\"two\nlines\"");
}

#[test]
fn line_segments_break_at_nan() {
    let h = hist(&[(0.0, 1.0), (1.0, 2.0), (2.0, f64::NAN), (3.0, 4.0)]);
    let points: Vec<Point> = h.into_iter().collect();
    assert_eq!(line_segments(&points).len(), 2);
    let h2 = hist(&[(0.0, f64::NAN), (1.0, f64::NAN)]);
    let points2: Vec<Point> = h2.into_iter().collect();
    assert!(line_segments(&points2).is_empty());
}

#[test]
fn segments_hold_all_values_and_only_the_first_is_named() {
    let h = hist(&[(0.0, f64::NAN), (1.0, 2.0), (2.0, f64::NAN), (3.0, 4.0), (4.0, 5.0)]);
    let points: Vec<Point> = h.into_iter().collect();
    let segments = line_segments(&points);
    assert_eq!(segments.len(), 2);
    assert!(segments[0].named);
    assert!(!segments[1].named);
    let values: Vec<f64> = segments.iter().flat_map(|s| s.points.iter().map(|p| value(p.1))).collect();
    assert_eq!(values, [2.0, 4.0, 5.0]);
}

#[test]
fn export_csv_writes_window_aligned_columns() {
    let names = vec!["theta".to_string(), "cnt".to_string()];
    let histories = vec![
        hist(&[(0.0, 1.0), (1.0, 2.5), (2.0, 3.0), (3.0, f64::NAN)]),
        hist(&[(0.0, 10.0), (1.0, 20.0), (2.0, 30.0), (3.0, 40.0)]),
    ];
    let csv = export_csv(&names, &histories, 2 * SECOND, &show).unwrap();
    let lines: Vec<&str> = csv.lines().collect();
    assert_eq!(lines.len(), 4, "csv: {csv}");
    assert_eq!(lines[0], "t,theta,cnt");
    assert_eq!(lines[1], "1.000000,2.5,20");
    assert_eq!(lines[3], "3.000000,,40");
}

#[test]
fn nothing_is_exported_before_the_first_sample() {
    let names = vec!["theta".to_string()];
    let r = export_csv(&names, &[VecDeque::new()], SECOND, &show);
    assert!(matches!(r, Err(NothingToExport)));
    assert_eq!(NothingToExport.message(), "还没有采样数据");
}

#[test]
fn times_have_six_decimals() {
    assert_eq!(time_text(0), "0.000000");
    assert_eq!(time_text(1_250_000_000), "1.250000");
    assert_eq!(time_text(-500_000_000), "-0.500000");
}

fn app_with_groups(groups: Vec<Vec<usize>>) -> Result<PlotApp, PlotError<String>> {
    let names = vec!["a".to_string(), "b".to_string(), "c".to_string(), "d".to_string()];
    PlotApp::new(names, PlotOptions { groups, ..Default::default() })
}

#[test]
fn groups_validation() {
    assert!(app_with_groups(vec![]).is_ok());
    assert!(app_with_groups(vec![vec![0, 1], vec![2, 3]]).is_ok());
    assert!(app_with_groups(vec![vec![0], vec![4]]).is_err());
    assert!(app_with_groups(vec![vec![0, 1], vec![1, 2, 3]]).is_err());
    assert!(app_with_groups(vec![vec![0], vec![1, 2]]).is_err());
    assert!(app_with_groups(vec![vec![], vec![0, 1, 2, 3]]).is_err());
}

#[test]
fn group_errors_say_what_is_wrong() {
    assert!(matches!(app_with_groups(vec![vec![0], vec![4]]), Err(PlotError::NoSuchChannel(4, 4))));
    assert!(matches!(app_with_groups(vec![vec![], vec![0, 1, 2, 3]]), Err(PlotError::EmptyGroup)));
    let none = PlotApp::new(Vec::new(), PlotOptions::default());
    assert!(matches!(none, Err(PlotError::NoChannels)));
    let names = vec!["a".to_string(), "b".to_string()];
    assert!(check_groups(&vec![vec![1], vec![0]], &names).is_ok());
    let twice = check_groups(&vec![vec![0, 0], vec![1]], &names).err().unwrap();
    assert_eq!(twice.message(), "通道 0 被划分到了多个图组");
    let left_out = check_groups(&vec![vec![0]], &names).err().unwrap();
    assert_eq!(left_out.message(), "通道 1（b）未被划分到任何图组");
    assert_eq!(
        PlotError::<String>::EmptyGroup.message(),
        "存在空的图组（每个图至少要有一个通道）"
    );
}

#[test]
fn one_plot_takes_all_channels() {
    let app = app_with_groups(vec![]).unwrap();
    assert_eq!(app.groups, vec![vec![0usize, 1, 2, 3]]);
}

#[test]
fn colors_repeat_after_eight() {
    assert_eq!(color_for(0), (0x00, 0x72, 0xB2));
    assert_eq!(color_for(9), (0xE6, 0x9F, 0x00));
}

#[test]
fn channel_pairs_window_cutoff_uses_wall_clock() {
    let mut app = app_with(&["x"], 2 * SECOND);
    app.histories[0] = hist(&[(0.0, 1.0), (1.0, 2.0), (2.0, 3.0), (3.0, 4.0), (4.0, 5.0)]);
    let (window, full) = app.channel_pairs(0, 4 * SECOND + SECOND / 2);
    assert_eq!(window.len(), 2, "window: {window:?}");
    assert_eq!(window[0], (3 * SECOND as i128, double(4.0)));
    assert_eq!(full.len(), 5);
    app.set_paused(true, 2 * SECOND);
    let frozen = app.wall_now(2 * SECOND + 50_000_000);
    assert_eq!(frozen, 2 * SECOND, "frozen={frozen}");
}

#[test]
fn pause_resume_excludes_pause_from_time_axis() {
    let mut app = app_with(&["x"], 5 * SECOND);
    let t1 = 10_000_000;
    app.append(&[sample(t1, 1.0)]);
    let w1 = app.wall_now(t1);
    app.set_paused(true, t1);
    let resumed = t1 + 50_000_000;
    app.set_paused(false, resumed);
    let w2 = app.wall_now(resumed);
    assert_eq!(w1, w2);
    let t2 = resumed + 1_000;
    app.append(&[sample(t2, 2.0)]);
    let h = &app.histories[0];
    assert_eq!(h.len(), 3, "{h:?}");
    assert_eq!(value(h[0].1), 1.0);
    assert!(h[1].1.is_nan());
    assert_eq!(value(h[2].1), 2.0);
    let dt = h[2].0 - h[0].0;
    assert!(dt < 20_000_000, "dt={dt}");
    assert_eq!(h[2].0, app.wall_now(t2) as i128);
}

#[test]
fn a_pause_is_cut_out_of_the_curve() {
    let mut app = app_with(&["x"], 5 * SECOND);
    app.poll_and_append(&[sample(SECOND, 1.0)]);
    app.set_paused(true, 2 * SECOND);
    app.poll_and_append(&[sample(3 * SECOND, 7.0)]);
    app.set_paused(false, 6 * SECOND);
    assert_eq!(app.wall_now(6 * SECOND), 2 * SECOND);
    app.poll_and_append(&[sample(5 * SECOND, 8.0)]);
    app.poll_and_append(&[sample(7 * SECOND, 2.0)]);
    let h = &app.histories[0];
    let times: Vec<i128> = h.iter().map(|p| p.0).collect();
    assert_eq!(times, [SECOND as i128, 3 * SECOND as i128, 3 * SECOND as i128]);
    assert_eq!(value(h[0].1), 1.0);
    assert!(h[1].1.is_nan());
    assert_eq!(value(h[2].1), 2.0);
}

#[test]
fn rapid_pause_resume_never_goes_negative() {
    let mut app = app_with(&["x"], 5 * SECOND);
    let mut source = ChannelSource::new(vec!["x".to_string()]);
    let mut now: u64 = 1_000_000;
    app.append(&[sample(now, 1.0)]);
    for i in 0..5 {
        now += 1_000;
        app.set_paused(true, now);
        now += 40_000_000;
        source.send(sample(now, 100.0 + i as f64));
        app.set_paused(false, now);
        let batch = source.poll();
        app.poll_and_append(&batch);
        now += 1_000;
        app.append(&[sample(now, 2.0 + i as f64)]);
    }
    let h = &app.histories[0];
    assert!(h.len() >= 2, "{h:?}");
    let mut last_t: i128 = -1;
    for &(t, v) in h.iter() {
        assert!(t >= 0, "t={t}");
        assert!(t >= last_t, "t={t}, before={last_t}");
        if !v.is_nan() {
            assert!(value(v) < 50.0, "v={}", value(v));
        }
        last_t = t;
    }
}

#[test]
fn history_is_bounded() {
    let names = vec!["x".to_string()];
    let mut app =
        PlotApp::new(names, PlotOptions { max_history: 100, ..Default::default() }).unwrap();
    for i in 0..250u64 {
        app.append(&[sample(i * 1_000, i as f64)]);
    }
    assert_eq!(app.histories[0].len(), 100);
    assert_eq!(value(app.histories[0][99].1), 249.0);
    assert_eq!(value(app.histories[0][0].1), 150.0);
}

#[test]
fn keys_pause_and_zoom() {
    let mut app = app_with(&["x"], 5 * SECOND);
    assert_eq!(app.handle_key(PlotKey::Space, SECOND), Some(true));
    assert!(app.paused);
    assert_eq!(app.handle_key(PlotKey::Space, 2 * SECOND), Some(false));
    app.handle_key(PlotKey::Plus, 2 * SECOND);
    assert_eq!(app.window, 5 * SECOND + SECOND / 2);
    app.handle_key(PlotKey::Minus, 2 * SECOND);
    assert_eq!(app.window, 5 * SECOND);
    app.set_external_pause();
    assert_eq!(app.handle_key(PlotKey::Space, 3 * SECOND), None);
    assert!(!app.paused);
}

#[test]
fn titles_tell_the_mode() {
    let mut app = app_with(&["x"], 5 * SECOND);
    app.set_paused(true, SECOND);
    assert_eq!(
        app.title("5.0", Some("已导出")),
        "tscope-plot — ⏸ 已暂停（空格继续） — 窗口 5.0 s — 已导出"
    );
    app.set_external_pause();
    assert!(app.title("5.0", None).contains("内核已暂停（跟随调试器）"));
}

#[test]
fn views_freeze_when_they_are_moved() {
    assert_eq!(
        apply_view(true, false, false),
        ViewPlan { set_auto: Some(false), use_full: true, froze: true }
    );
    assert_eq!(
        apply_view(false, true, false),
        ViewPlan { set_auto: Some(true), use_full: false, froze: false }
    );
    let mut app = app_with(&["x"], SECOND);
    app.view_drawn(true, false);
    assert!(!app.follow);
    app.view_drawn(false, true);
    assert!(app.follow);
    app.picture_done();
    assert!(!app.force_follow);
}

#[test]
fn channel_source_drains_all_pending() {
    let mut s = ChannelSource::new(vec!["theta".to_string()]);
    for i in 0..5u64 {
        s.send(sample(i * SECOND, i as f64));
    }
    assert_eq!(s.poll().len(), 5);
    assert!(s.poll().is_empty());
    assert_eq!(s.channel_names(), &["theta".to_string()]);
}

#[test]
fn wave_samples_skip_what_was_missed() {
    assert_eq!(next_wave_sample(1_000, 100, 1_150), 1_100);
    assert_eq!(next_wave_sample(1_000, 100, 1_350), 1_350);
}
