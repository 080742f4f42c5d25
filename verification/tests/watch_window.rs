//! The watch window: rows, values, and the marks of changed values.
use tscope::config::WatchGroup;
use tscope::layout::{Leaf, LeafType, ScalarType, TypeDesc};
use tscope::symbol::{Encoding, SymbolError};
use tscope::variable::{PrepareError, PreparedSymbol};
use tscope::watch::{
    pending_changes, plan_reads, prepare_watch_adhoc, render_field, sample_rows_core, symbol_rows,
    take_changes, Change, Field, PreparedWatch, RowSource, WatchRow,
};
use tscope::watch_app::{demo_rows, DemoValues, WatchApp, HIGHLIGHT_US};

fn show(bits: u64, wide: bool) -> String {
    if wide {
        f64::from_bits(bits).to_string()
    } else {
        f32::from_bits(bits as u32).to_string()
    }
}

fn strings(v: &[&str]) -> Vec<String> {
    v.iter().map(|s| s.to_string()).collect()
}

fn leaf(label: &str, size: usize, encoding: Encoding) -> LeafType {
    Leaf::Scalar(ScalarType { label: label.to_string(), size, encoding })
}

#[test]
fn highlight_only_on_change_and_not_on_first_fill() {
    let mut app = WatchApp::new(strings(&["a", "b"]));
    app.set_values(strings(&["1", "2"]));
    assert_eq!(app.highlight_left, [0, 0]);
    app.set_values(strings(&["1", "3"]));
    assert_eq!(app.highlight_left[0], 0);
    assert!(app.highlight_left[1] > 0);
    app.highlight_left[1] = 0;
    app.set_values(strings(&["1", "3"]));
    assert_eq!(app.highlight_left, [0, 0]);
    app.set_values(strings(&["9", "9", "9"]));
    assert_eq!(app.entries.len(), 2);
}

fn demo(state: usize, position: &str) -> DemoValues {
    DemoValues {
        position: position.to_string(),
        electrical: position.to_string(),
        reference: position.to_string(),
        rotations: state as i64,
        loops: state as i64 * 1_000,
        state,
        adc_a: 2_048,
        adc_b: 2_047,
    }
}

#[test]
fn demo_has_rows_and_updates() {
    let mut app = WatchApp::new_demo(&demo(0, "0.0000"));
    assert!(app.entries.len() >= 4);
    let before = app.entries[3].value.clone();
    app.demo_tick(&demo(1, "0.5000"));
    assert_ne!(app.entries[3].value, before);
}

#[test]
fn demo_rows_have_names_and_values() {
    let (names, values) = demo_rows(&demo(1, "0.5000"));
    assert_eq!(names.len(), values.len());
    assert!(values.iter().any(|v| v.contains("0.5000")));
}

#[test]
fn marks_fade_and_go() {
    let mut app = WatchApp::new(strings(&["a"]));
    app.set_value(0, "1".to_string());
    app.set_value(0, "2".to_string());
    assert_eq!(app.highlight_left[0], HIGHLIGHT_US);
    assert_eq!(app.mark(0), 200);
    app.fade(90_000);
    assert_eq!(app.highlight_left[0], HIGHLIGHT_US - 90_000);
    // a long pause between two pictures counts for a tenth of a second
    app.fade(5_000_000);
    assert_eq!(app.highlight_left[0], HIGHLIGHT_US - 190_000);
    app.fade(100_000);
    app.fade(100_000);
    assert_eq!(app.highlight_left[0], 0);
    assert_eq!(app.mark(0), 0);
}

#[test]
fn broken_symbols_have_a_row() {
    let e = PrepareError::Symbol("nope".to_string(), SymbolError::NotFound);
    let rows = symbol_rows("nope.x", &Err(e), 8);
    assert_eq!(rows.len(), 1);
    assert_eq!(rows[0].label, "nope.x");
    assert!(matches!(&rows[0].source, RowSource::Broken(t) if t.contains("没有找到符号 nope")));
    assert!(rows[0].display_text().contains("没有"));
}

fn compound() -> PreparedSymbol {
    let element = TypeDesc::Plain(leaf("int", 2, Encoding::Signed));
    PreparedSymbol {
        address: 0x2000_0000,
        size: 8,
        offset: 0,
        kind: TypeDesc::Array(4, Box::new(element)),
    }
}

#[test]
fn long_symbols_end_in_a_summary() {
    let rows = symbol_rows("buf", &Ok(compound()), 2);
    assert_eq!(rows.len(), 3);
    assert!(rows[0].label.contains("[0]"));
    assert!(matches!(rows[2].source, RowSource::Summary(_)));
    assert!(rows[2].display_text().contains("… 其余 2 项未显示"), "{}", rows[2].display_text());
}

#[test]
fn a_variable_is_read_once_and_only_changes_are_sent() {
    let mut rows: Vec<WatchRow> = symbol_rows("buf", &Ok(compound()), 8);
    assert_eq!(plan_reads(&rows), [(0x2000_0000, 8)]);
    let bytes = vec![1u8, 0, 0xff, 0xff, 3, 0, 4, 0];
    sample_rows_core(&mut rows, &[Ok(bytes.clone())], &show);
    assert_eq!(pending_changes(&rows).len(), 4);
    let sent = take_changes(&mut rows);
    assert_eq!(sent.len(), 4);
    assert_eq!(sent[1], Change { row: 1, text: "-1 (int)".to_string(), failed: false });
    assert!(pending_changes(&rows).is_empty());
    assert!(take_changes(&mut rows).is_empty());
    let mut next = bytes;
    next[4] = 9;
    sample_rows_core(&mut rows, &[Ok(next)], &show);
    let nine = Change { row: 2, text: "9 (int)".to_string(), failed: false };
    assert_eq!(take_changes(&mut rows), [nine]);
    assert!(!rows[0].failed());
    sample_rows_core(&mut rows, &[Err("断开".to_string())], &show);
    assert!(rows[0].display_text().contains("断开"));
    assert!(rows[0].failed() && rows[3].failed());
    let sent = take_changes(&mut rows);
    assert_eq!(sent.len(), 4);
    assert!(sent.iter().all(|c| c.failed));
}

fn elsewhere() -> PreparedSymbol {
    PreparedSymbol { address: 0x2000_0100, ..compound() }
}

#[test]
fn a_variable_that_is_watched_twice_is_read_once() {
    let mut rows: Vec<WatchRow> = symbol_rows("a", &Ok(compound()), 1);
    rows.append(&mut symbol_rows("b", &Ok(elsewhere()), 1));
    rows.append(&mut symbol_rows("a", &Ok(compound()), 1));
    assert_eq!(plan_reads(&rows), [(0x2000_0000, 8), (0x2000_0100, 8)]);
    let bytes = vec![5u8, 0, 0, 0, 0, 0, 0, 0];
    let mut other = bytes.clone();
    other[0] = 6;
    sample_rows_core(&mut rows, &[Ok(bytes), Ok(other)], &show);
    let shown: Vec<String> = rows.iter().map(|r| r.display_text()).collect();
    assert_eq!((shown[0].as_str(), shown[2].as_str(), shown[4].as_str()), ("5 (int)", "6 (int)", "5 (int)"));
    sample_rows_core(&mut rows, &[Err("断开".to_string()), Ok(vec![7; 8])], &show);
    assert!(rows[0].display_text().contains("断开"));
    assert!(rows[4].failed() && !rows[2].failed());
    assert!(!rows[1].failed());
}

#[test]
fn failures_are_told_from_values() {
    let e = PrepareError::Symbol("nope".to_string(), SymbolError::NotFound);
    let mut rows = symbol_rows("nope", &Err(e), 8);
    assert!(rows[0].failed());
    let mut app = WatchApp::new(strings(&["nope"]));
    for change in take_changes(&mut rows) {
        app.take(change);
    }
    assert!(app.entries[0].failed);
    assert_eq!(app.entries[0].value, rows[0].display_text());
    app.set_value(0, "1".to_string());
    assert!(!app.entries[0].failed);
    app.take(Change { row: 9, text: String::new(), failed: true });
    assert!(!app.entries[0].failed);
}

#[test]
fn fields_show_value_and_type() {
    let field = Field {
        address: 0,
        size: 4,
        offset: 0,
        kind: leaf("float", 4, Encoding::Float),
    };
    assert_eq!(render_field(&field, &1.5f32.to_le_bytes(), &show), "1.5 (float)");
}

#[test]
fn a_single_symbol_makes_a_group() {
    let w: PreparedWatch = prepare_watch_adhoc(&[], strings(&["theta"]), 100, 8);
    assert_eq!(w.interval_ms, 100);
    assert_eq!(w.labels(), strings(&["theta"]));
    assert!(matches!(w.rows[0].source, RowSource::Broken(_)));
    let group = WatchGroup { interval_ms: 100, max_elems: 8, symbols: strings(&["theta"]) };
    assert_eq!(tscope::watch::build_rows(&group, &[]).len(), 1);
}
