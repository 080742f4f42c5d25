//! Memory dumps, printed once and watched.
use tscope::dump_watch::{dump_title, sample_interval, DumpKey, DumpPicture, DumpWatch};
use tscope::hexdump::{
    cut_region, print_rows, read_plan, region_failure, validate, write_row, DumpError, DumpOptions,
    WordRange,
};

fn opts(address: u64, length: u64) -> DumpOptions {
    DumpOptions { address, length, width: 16, group: 4, show_ascii: true, collapse: false }
}

#[test]
fn options_are_checked() {
    assert!(validate(&opts(0, 1)).is_ok());
    assert!(validate(&opts(0, 0)).is_err());
    let mut wide = opts(0, 1);
    wide.width = 12;
    assert!(validate(&wide).is_err());
    let mut odd = opts(0, 1);
    odd.group = 3;
    let e: DumpError = validate(&odd).err().unwrap();
    assert!(e.message().contains('3'), "{}", e.message());
    let mut big = opts(0, 1);
    big.width = 4;
    big.group = 8;
    assert!(validate(&big).is_err());
}

#[test]
fn bytes_are_read_in_whole_words() {
    assert_eq!(read_plan(0x2000_0001, 3), Some(WordRange { start: 0x2000_0000, count: 1 }));
    assert_eq!(read_plan(0x2000_0002, 4), Some(WordRange { start: 0x2000_0000, count: 2 }));
    assert_eq!(cut_region(&[0x0403_0201, 0x0807_0605], 0x2000_0002, 4), [3, 4, 5, 6]);
    let text = region_failure(WordRange { start: 0x2000_0000, count: 2 });
    assert!(text.contains("0x20000000"), "{text}");
}

#[test]
fn rows_have_address_values_and_characters() {
    let row = write_row(0x2000_0000, b"0123456789abcdef", &opts(0x2000_0000, 16));
    assert_eq!(
        row.trim_end_matches('\n'),
        "0x20000000  30 31 32 33  34 35 36 37  38 39 61 62  63 64 65 66  |0123456789abcdef|"
    );
    let short = write_row(0x10, &[0x41, 0x00], &opts(0x10, 2));
    assert!(short.starts_with("0x00000010  41 00    "), "{short}");
    let mut bare = opts(0x2000_0000, 16);
    bare.show_ascii = false;
    assert!(!write_row(0x2000_0000, b"0123456789abcdef", &bare).contains("0123456789abcdef"));
}

#[test]
fn equal_rows_fold() {
    let bytes = vec![0xffu8; 64];
    let mut o = opts(0, 64);
    assert_eq!(print_rows(&bytes, &o).lines().count(), 4);
    o.collapse = true;
    let folded = print_rows(&bytes, &o);
    let lines: Vec<&str> = folded.lines().collect();
    assert_eq!(lines.len(), 2, "{folded}");
    assert_eq!(lines[1], "*");
}

#[test]
fn watched_dumps_mark_what_changed() {
    let o = opts(0x2000_0000, 16);
    let mut w = DumpWatch::new();
    w.sample(Ok(vec![0; 16]));
    let first = match w.picture(&o) {
        DumpPicture::Rows(rows) => rows,
        _ => panic!("no rows"),
    };
    assert!(first.iter().all(|r| r.iter().all(|s| !s.changed)));
    let drawn: String = first[0].iter().map(|s| s.text.as_str()).collect();
    assert_eq!(drawn, write_row(0x2000_0000, &[0; 16], &o));
    w.drawn(10, first.len());
    let mut next = vec![0u8; 16];
    next[5] = 7;
    w.sample(Ok(next));
    let second = match w.picture(&o) {
        DumpPicture::Rows(rows) => rows,
        _ => panic!("no rows"),
    };
    let marked: Vec<&str> =
        second[0].iter().filter(|s| s.changed).map(|s| s.text.as_str()).collect();
    assert!(!marked.is_empty());
    assert!(marked.iter().all(|t| t.trim() == "07" || t.trim() == "."), "{marked:?}");
}

#[test]
fn failed_samples_are_shown() {
    let mut w = DumpWatch::new();
    w.sample(Err("断开".to_string()));
    assert!(matches!(w.picture(&opts(0, 16)), DumpPicture::Failure(t) if t.contains("断开")));
}

#[test]
fn keys_scroll_and_leave() {
    let mut w = DumpWatch::new();
    w.drawn(10, 100);
    assert!(!w.key(DumpKey::Down));
    assert_eq!(w.scroll, 1);
    assert!(!w.key(DumpKey::Up));
    assert_eq!(w.scroll, 0);
    assert!(!w.key(DumpKey::Up));
    assert_eq!(w.scroll, 0);
    assert!(w.key(DumpKey::Char('q')));
    assert_eq!(sample_interval(1), sample_interval(10));
    assert!(dump_title(&opts(0x2000_0000, 16), 100, 3).contains("0x20000000"));
}
