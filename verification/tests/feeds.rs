//! What a debugging session sends to its windows, line by line.
use tscope::double::Double;
use tscope::feed::{next_close_step, ChildState, CloseStep};
use tscope::link::{Metronome, PlotLink, PlotTick};
use tscope::plot_feed::{
    parse_data_line, read_header, write_header, write_pause_line, write_sample_line, DataEvent,
    PlotHeaderError, PlotHeaderReader,
};
use tscope::sampling::{after_attach_failure, attach_failure_text, beat_ms, next_beat, AttachStep};
use tscope::watch::Change;
use tscope::watch_feed::{
    escape_value, feed_write_value, parse_change, parse_v_line, read_watch_header, unescape_value,
    write_change, write_watch_header, WatchHeaderError, WatchHeaderReader,
};

fn parse(s: &str) -> Option<Double> {
    s.parse::<f64>().ok().map(|v| Double { bits: v.to_bits() })
}

fn value(d: Double) -> f64 {
    f64::from_bits(d.bits)
}

fn strings(v: &[&str]) -> Vec<String> {
    v.iter().map(|s| s.to_string()).collect()
}

#[test]
fn value_escape_round_trip() {
    let cases = [
        "1.5 (float)",
        "positionStruct = {\n    position: -3.03 (float)\n    rotations: -1 (int)\n}",
        "反斜杠 \\ 与制表\t符",
        "空行\n\n结束",
    ];
    for text in cases {
        let escaped = escape_value(text);
        assert!(!escaped.contains('\n'), "{escaped:?}");
        assert_eq!(unescape_value(&escaped), text);
    }
}

#[test]
fn v_line_parse() {
    let Some((idx, text)) = parse_v_line("V 3 1.5 (float)") else {
        panic!("not a value line");
    };
    assert_eq!(idx, 3);
    assert_eq!(text, "1.5 (float)");
    let multi = "struct = {\n    a: 1\n}";
    let line = format!("V 0 {}", escape_value(multi));
    let (i, t) = parse_v_line(&line).unwrap();
    assert_eq!(i, 0);
    assert_eq!(t, multi);
    assert!(parse_v_line("S 0 x").is_none());
    assert!(parse_v_line("V abc x").is_none());
    assert!(parse_v_line("").is_none());
}

#[test]
fn written_values_are_one_line_and_read_back() {
    let text = "a = {\n\tb\\n\r\n}";
    let line = feed_write_value(7, text);
    assert_eq!(line.matches('\n').count(), 0);
    assert_eq!(parse_v_line(&line), Some((7, text.to_string())));
    assert_eq!(feed_write_value(0, "1 (int)"), "V 0 1 (int)");
}

#[test]
fn changes_are_read_back_from_their_lines() {
    for failed in [true, false] {
        let change = Change { row: 4, text: "a\n\\b".to_string(), failed };
        let line = write_change(&change);
        assert_eq!(line, if failed { "E 4 a\\n\\\\b" } else { "V 4 a\\n\\\\b" });
        assert_eq!(parse_change(&line), Some(change));
        assert_eq!(parse_v_line(&line).is_none(), failed);
    }
    assert_eq!(parse_change("E x y"), None);
    assert_eq!(parse_change("P 1"), None);
}

#[test]
fn watch_header_round_trip() {
    let labels = strings(&["theta", "buf[0]", "ENC_1_POS_SENSOR"]);
    let text = write_watch_header(&labels, "debug watch [w1]");
    assert_eq!(text, "T debug watch [w1]\nN 3\nC theta\nC buf[0]\nC ENC_1_POS_SENSOR\n");
    let (h, used) = read_watch_header(&text).unwrap();
    assert_eq!(h.title, "debug watch [w1]");
    assert_eq!(h.labels, labels);
    assert_eq!(text.lines().skip(used).count(), 0);
}

#[test]
fn watch_header_errors() {
    let bad = ["", "T t\n", "T t\nN 2\nC a\n", "T t\nC a\nG 1\n"];
    for bad in &bad {
        assert!(read_watch_header(bad).is_err(), "{bad:?}");
    }
}

#[test]
fn watch_header_errors_say_what_is_wrong() {
    let error = |text: &str| read_watch_header(text).err().unwrap();
    assert!(matches!(error(""), WatchHeaderError::NoTitle));
    assert!(matches!(error("T t\n"), WatchHeaderError::NoRows));
    assert!(matches!(error("T t\nN 2\nC a\n"), WatchHeaderError::CountMismatch));
    assert!(matches!(error("T t\nN x\n"), WatchHeaderError::Count(_)));
    let unknown = error("T t\nG \"1\"\n");
    assert_eq!(unknown.message(), "未知的头部行：\"G \\\"1\\\"\"（期望 T/N/C 开头的行）");
    assert_eq!(error("T t\nN x\n").message(), "行数不是数字: invalid digit found in string");
}

#[test]
fn watch_header_leaves_the_values_alone() {
    let (h, used) = read_watch_header("T t\nN 1\nC a\nV 0 5\n").unwrap();
    assert_eq!(h.labels, strings(&["a"]));
    assert_eq!(used, 3);
    let mut reader = WatchHeaderReader::new();
    assert_eq!(reader.push_line("T t").unwrap(), false);
    assert_eq!(reader.push_line("N 1").unwrap(), false);
    assert_eq!(reader.push_line("C a").unwrap(), true);
    assert_eq!(reader.finish().unwrap().title, "t");
}

#[test]
fn header_round_trip() {
    let channels = strings(&["theta", "cnt", "gain"]);
    let text = write_header("debug plot [plot1]", "7.5", &channels, &[vec![0, 1], vec![2]]);
    assert_eq!(text, "T debug plot [plot1]\nW 7.5\nC theta\nC cnt\nC gain\nG 2 1\n");
    let (h, used) = read_header(&text, &parse).unwrap();
    assert_eq!(h.title, "debug plot [plot1]");
    assert_eq!(value(h.window_secs), 7.5);
    assert_eq!(h.channels, ["theta", "cnt", "gain"]);
    assert_eq!(h.group_sizes, [2, 1]);
    assert_eq!(h.groups_idx(), vec![vec![0usize, 1], vec![2]]);
    assert_eq!(text.lines().skip(used).count(), 0);
}

#[test]
fn header_errors_are_explicit() {
    let bad = [
        "",
        "T t\n",
        "T t\nW 5\n",
        "T t\nW 5\nC a\nG 2\n",
        "T t\nW x\nC a\nG 1\n",
        "T t\nW 5\nC a\nG 0\n",
        "T t\nW 5\nC a\nG 1 1\n",
        "X nope\n",
    ];
    for bad in &bad {
        assert!(read_header(bad, &parse).is_err(), "{bad:?}");
    }
}

#[test]
fn header_errors_say_what_is_wrong() {
    let error = |text: &str| read_header(text, &parse).err().unwrap();
    assert!(matches!(error(""), PlotHeaderError::NoTitle));
    assert!(matches!(error("T t\n"), PlotHeaderError::NoWindow));
    assert!(matches!(error("T t\nW 5\n"), PlotHeaderError::NoChannels));
    assert!(matches!(error("T t\nW 5\nC a\n"), PlotHeaderError::NoGroups));
    assert!(matches!(error("T t\nW x\n"), PlotHeaderError::Window));
    assert!(matches!(error("T t\nW 5\nC a\nG 0\n"), PlotHeaderError::EmptyGroup));
    assert!(matches!(error("T t\nW 5\nC a\nG q\n"), PlotHeaderError::GroupSize(_)));
    assert_eq!(error("T t\nW 5\nC a\nG 1 1\n").message(), "图组大小之和 2 与通道数 1 不符");
    assert_eq!(error("X nope\n").message(), "未知的头部行：\"X nope\"（期望 T/W/C/G 开头的行）");
}

#[test]
fn plot_header_is_read_line_by_line() {
    let mut reader = PlotHeaderReader::new();
    for line in ["T t", "W 5", "C a"] {
        assert_eq!(reader.push_line(line, &parse).unwrap(), false);
    }
    assert_eq!(reader.push_line("G 1", &parse).unwrap(), true);
    assert_eq!(reader.finish().unwrap().channels, strings(&["a"]));
}

#[test]
fn sample_line_round_trip_and_padding() {
    let texts = strings(&["2.5", "NaN"]);
    assert_eq!(write_sample_line("1.25", &texts), "S 1.25 2.5 NaN\n");
    let DataEvent::Sample(t, values) = parse_data_line("S 1.25 2.5 NaN", 2, &parse) else {
        panic!("not a sample");
    };
    assert_eq!(value(t), 1.25);
    assert_eq!(values.len(), 2);
    assert_eq!(value(values[0]), 2.5);
    assert!(values[1].is_nan());
    let DataEvent::Sample(_, values) = parse_data_line("S 1.25 2.5", 3, &parse) else {
        panic!()
    };
    assert_eq!(values.len(), 3);
    assert_eq!(value(values[0]), 2.5);
    assert!(values[1].is_nan());
    assert!(values[2].is_nan());
    let DataEvent::Sample(_, values) = parse_data_line("S 1.25 2.5 3 4", 2, &parse) else {
        panic!()
    };
    assert_eq!(values.iter().map(|v| value(*v)).collect::<Vec<f64>>(), [2.5, 3.0]);
}

#[test]
fn pause_and_garbage_lines() {
    assert!(matches!(parse_data_line("P 1", 2, &parse), DataEvent::Pause(true)));
    assert!(matches!(parse_data_line("P 0", 2, &parse), DataEvent::Pause(false)));
    assert!(matches!(parse_data_line("P 2", 2, &parse), DataEvent::Ignore));
    assert!(matches!(parse_data_line("", 2, &parse), DataEvent::Ignore));
    assert!(matches!(parse_data_line("S abc 1", 2, &parse), DataEvent::Ignore));
    assert!(matches!(parse_data_line("随便一行", 2, &parse), DataEvent::Ignore));
}

#[test]
fn pause_line_format() {
    let mut text = write_pause_line(true);
    text.push_str(&write_pause_line(false));
    assert_eq!(text, "P 1\nP 0\n");
}

#[test]
fn plots_follow_the_core() {
    let mut link = PlotLink::open(0, 20);
    let runs = [true, true, false, false, true];
    let ticks: Vec<PlotTick> = runs.iter().map(|r| link.plot_sample(*r)).collect();
    assert_eq!(ticks[0], PlotTick { pause: Some(false), sample: true });
    assert_eq!(ticks[1], PlotTick { pause: None, sample: true });
    assert_eq!(ticks[2], PlotTick { pause: Some(true), sample: false });
    assert_eq!(ticks[3], PlotTick { pause: None, sample: false });
    assert_eq!(ticks[4], PlotTick { pause: Some(false), sample: true });
}

#[test]
fn ticks_keep_their_rhythm() {
    let mut beat = Metronome::start(100, 20);
    assert!(!beat.due(99));
    assert!(beat.due(100));
    assert!(!beat.due(20_000_099));
    assert!(beat.due(50_000_000));
    assert!(beat.due(50_000_000));
    assert!(!beat.due(50_000_000));
    assert_eq!(Metronome::start(0, 1).interval, 10_000_000);
}

#[test]
fn beats_do_not_drift() {
    assert_eq!(next_beat(1_000, 100, 1_030), (1_100, 70));
    assert_eq!(next_beat(1_000, 100, 1_250), (1_250, 0));
    assert_eq!(beat_ms(3), 10);
    assert_eq!(beat_ms(25), 25);
}

#[test]
fn attaching_is_tried_five_times() {
    assert_eq!(after_attach_failure(1), AttachStep::Retry(300));
    assert_eq!(after_attach_failure(4), AttachStep::Retry(1_200));
    assert_eq!(after_attach_failure(5), AttachStep::GiveUp);
    assert_eq!(
        attach_failure_text(2, "x", "曲线窗口"),
        "采样线程挂接失败（第 2/5 次）：x，重试中…"
    );
    assert_eq!(
        attach_failure_text(5, "x", "监视窗口"),
        "采样线程挂接失败（第 5/5 次）：x，放弃采样（监视窗口将无数据）"
    );
}

#[test]
fn windows_get_time_to_leave() {
    assert_eq!(next_close_step(1, ChildState::Running), CloseStep::Sleep(10));
    assert_eq!(next_close_step(30, ChildState::Running), CloseStep::Sleep(10));
    assert_eq!(next_close_step(31, ChildState::Running), CloseStep::Kill);
    assert_eq!(next_close_step(2, ChildState::Exited), CloseStep::Done);
    assert_eq!(next_close_step(2, ChildState::Unknown), CloseStep::Kill);
}
