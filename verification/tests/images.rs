//! Firmware images: variables, functions, source lines and call stacks.
use tscope::backtrace::{
    active_vector_handler, backtrace, dwarf_register, frame_return_address, is_exc_return,
    BacktraceError, Frame, FrameInfo, ICSR, VTOR,
};
use tscope::code_map::{all_turnable, CodeMap, LookupError};
use tscope::config::PlotConfig;
use tscope::double::Double;
use tscope::layout::{Leaf, ScalarType, TypeDesc};
use tscope::member_path::PathError;
use tscope::plot::{prepare_groups, run_adhoc, PlotSymbolError};
use tscope::render::FmtOptions;
use tscope::symbol::{find_symbol, Encoding, SymbolError, Value};
use tscope::target::{parse_target, resolve_target, BreakTarget, TargetError};
use tscope::variable::{
    describe, prepare_symbol, read_failure, value_from_field, PrepareError, PreparedSymbol,
};
use tscope::watch::{prepare_watch_adhoc, sample_rows_core, RowSource};

fn show(bits: u64, wide: bool) -> String {
    if wide {
        f64::from_bits(bits).to_string()
    } else {
        f32::from_bits(bits as u32).to_string()
    }
}

// ---------------------------------------------------------------------------
// A small image
// ---------------------------------------------------------------------------

fn word(out: &mut Vec<u8>, v: u32) {
    out.extend_from_slice(&v.to_le_bytes());
}

fn half(out: &mut Vec<u8>, v: u16) {
    out.extend_from_slice(&v.to_le_bytes());
}

fn text(out: &mut Vec<u8>, s: &str) {
    out.extend_from_slice(s.as_bytes());
    out.push(0);
}

fn abbrevs() -> Vec<u8> {
    vec![
        // 1: compile unit with name, directory and line program
        1, 0x11, 1, 0x03, 0x08, 0x1b, 0x08, 0x10, 0x17, 0, 0,
        // 2: base type with name, size and encoding
        2, 0x24, 0, 0x03, 0x08, 0x0b, 0x0b, 0x3e, 0x0b, 0, 0,
        // 3: variable with name, type and location
        3, 0x34, 0, 0x03, 0x08, 0x49, 0x13, 0x02, 0x18, 0, 0,
        // 4: structure with name, size and members
        4, 0x13, 1, 0x03, 0x08, 0x0b, 0x0b, 0, 0,
        // 5: variable with name and type
        5, 0x34, 0, 0x03, 0x08, 0x49, 0x13, 0, 0,
        // 6: typedef with name and type
        6, 0x16, 0, 0x03, 0x08, 0x49, 0x13, 0, 0,
        // 7: member with name, type and place
        7, 0x0d, 0, 0x03, 0x08, 0x49, 0x13, 0x38, 0x0b, 0, 0,
        // 8: array with type and dimensions
        8, 0x01, 1, 0x49, 0x13, 0, 0,
        // 9: dimension with the highest index
        9, 0x21, 0, 0x2f, 0x0b, 0, 0,
        // 10: enumeration with name, size and values
        10, 0x04, 1, 0x03, 0x08, 0x0b, 0x0b, 0, 0,
        // 11: value with name and number
        11, 0x28, 0, 0x03, 0x08, 0x1c, 0x0d, 0, 0,
        // 12: pointer with size
        12, 0x0f, 0, 0x0b, 0x0b, 0, 0,
        // 13: union with name, size and members
        13, 0x17, 1, 0x03, 0x08, 0x0b, 0x0b, 0, 0,
        // 14: member with name, type and number of bits
        14, 0x0d, 0, 0x03, 0x08, 0x49, 0x13, 0x0d, 0x0b, 0, 0,
        // 15: structure with size and members
        15, 0x13, 1, 0x0b, 0x0b, 0, 0,
        // 16: member with name and type
        16, 0x0d, 0, 0x03, 0x08, 0x49, 0x13, 0, 0,
        // 17: dimension with a count
        17, 0x21, 0, 0x37, 0x0b, 0, 0,
        0,
    ]
}

fn variable(out: &mut Vec<u8>, name: &str, kind: u32, address: u32) {
    out.push(3);
    text(out, name);
    word(out, kind);
    out.push(5);
    out.push(0x03);
    word(out, address);
}

fn member(out: &mut Vec<u8>, name: &str, kind: u32, offset: u8) {
    out.push(7);
    text(out, name);
    word(out, kind);
    out.push(offset);
}

fn info() -> Vec<u8> {
    let mut u = Vec::new();
    half(&mut u, 4);
    word(&mut u, 0);
    u.push(4);
    let at = |u: &Vec<u8>| u.len() as u32 + 4;
    u.push(1);
    text(&mut u, "main.c");
    text(&mut u, "/work/fw");
    word(&mut u, 0);
    let float = at(&u);
    u.push(2);
    text(&mut u, "float");
    u.push(4);
    u.push(4);
    let signed = at(&u);
    u.push(2);
    text(&mut u, "int");
    u.push(4);
    u.push(5);
    let alias = at(&u);
    u.push(6);
    text(&mut u, "count_t");
    word(&mut u, signed);
    let point = at(&u);
    u.push(4);
    text(&mut u, "Point");
    u.push(8);
    member(&mut u, "x", signed, 0);
    member(&mut u, "y", signed, 4);
    member(&mut u, "far", signed, 6);
    u.push(0);
    let vector = at(&u);
    u.push(4);
    text(&mut u, "Vec");
    u.push(8);
    member(&mut u, "x", float, 0);
    member(&mut u, "y", float, 4);
    u.push(0);
    let state = at(&u);
    u.push(10);
    text(&mut u, "State");
    u.push(1);
    for (name, value) in [("IDLE", 0u8), ("RUN", 1), ("FAULT", 0x7f)] {
        u.push(11);
        text(&mut u, name);
        u.push(value);
    }
    u.push(0);
    let pointer = at(&u);
    u.push(12);
    u.push(4);
    let body = at(&u);
    u.push(15);
    u.push(20);
    member(&mut u, "v", vector, 0);
    member(&mut u, "n", alias, 8);
    member(&mut u, "state", state, 12);
    u.push(14);
    text(&mut u, "flags");
    word(&mut u, signed);
    u.push(3);
    member(&mut u, "next", pointer, 16);
    u.push(0);
    let item = at(&u);
    u.push(6);
    text(&mut u, "Item");
    word(&mut u, body);
    let items = at(&u);
    u.push(8);
    word(&mut u, item);
    u.extend_from_slice(&[9, 1, 0]);
    let matrix = at(&u);
    u.push(8);
    word(&mut u, signed);
    u.extend_from_slice(&[9, 1, 17, 3, 0]);
    let mix = at(&u);
    u.push(13);
    text(&mut u, "Mix");
    u.push(4);
    for (name, kind) in [("i", signed), ("f", float)] {
        u.push(16);
        text(&mut u, name);
        word(&mut u, kind);
    }
    u.push(0);
    variable(&mut u, "items", items, 0x2000_0100);
    variable(&mut u, "matrix", matrix, 0x2000_0200);
    variable(&mut u, "mix", mix, 0x2000_0300);
    variable(&mut u, "theta_ref", float, 0x2000_0010);
    variable(&mut u, "cnt", alias, 0x2000_0020);
    variable(&mut u, "origin", point, 0x2000_0030);
    u.push(5);
    text(&mut u, "gone");
    word(&mut u, signed);
    u.push(0);
    let mut out = Vec::new();
    word(&mut out, u.len() as u32);
    out.extend_from_slice(&u);
    out
}

/// A unit with nested structures around an integer, and a structure that holds
/// itself.
fn deep_info(levels: usize) -> Vec<u8> {
    let mut u = Vec::new();
    half(&mut u, 4);
    word(&mut u, 0);
    u.push(4);
    let at = |u: &Vec<u8>| u.len() as u32 + 4;
    u.push(1);
    text(&mut u, "main.c");
    text(&mut u, "/work/fw");
    word(&mut u, 0);
    let signed = at(&u);
    u.push(2);
    text(&mut u, "int");
    u.push(4);
    u.push(5);
    let mut inner = signed;
    for _ in 0..levels {
        let outer = at(&u);
        u.push(4);
        text(&mut u, "Level");
        u.push(4);
        member(&mut u, "in", inner, 0);
        u.push(0);
        inner = outer;
    }
    let ring = at(&u);
    u.push(4);
    text(&mut u, "Ring");
    u.push(4);
    member(&mut u, "again", ring, 0);
    u.push(0);
    variable(&mut u, "deep", inner, 0x2000_0400);
    variable(&mut u, "ring", ring, 0x2000_0500);
    u.push(0);
    let mut out = Vec::new();
    word(&mut out, u.len() as u32);
    out.extend_from_slice(&u);
    out
}

fn lines() -> Vec<u8> {
    // line 11 at the start, 12 two instructions on, 20 of the header behind it
    let mut p = vec![3u8, 10, 1];
    p.extend_from_slice(&[2, 2, 3, 1, 1]);
    p.extend_from_slice(&[2, 2, 4, 2, 3, 8, 1]);
    p.extend_from_slice(&[2, 4, 0, 1, 1]);
    line_program(&p)
}

fn line_program(steps: &[u8]) -> Vec<u8> {
    let mut h = vec![2u8, 1, 1, 0xfb, 14, 13, 0, 1, 1, 1, 1, 0, 0, 0, 1, 0, 0, 1];
    text(&mut h, "src");
    h.push(0);
    text(&mut h, "main.c");
    h.extend_from_slice(&[1, 0, 0]);
    text(&mut h, "/abs/util.h");
    h.extend_from_slice(&[0, 0, 0]);
    h.push(0);
    let mut p = vec![0u8, 5, 2];
    word(&mut p, 0x0800_4000);
    p.extend_from_slice(steps);
    let mut u = Vec::new();
    half(&mut u, 4);
    word(&mut u, h.len() as u32);
    u.extend_from_slice(&h);
    u.extend_from_slice(&p);
    let mut out = Vec::new();
    word(&mut out, u.len() as u32);
    out.extend_from_slice(&u);
    out
}

fn frames() -> Vec<u8> {
    let mut cie = Vec::new();
    word(&mut cie, 0xffff_ffff);
    cie.extend_from_slice(&[1, 0, 2, 0x7c, 14, 0x0c, 13, 0]);
    let mut out = Vec::new();
    word(&mut out, cie.len() as u32);
    out.extend_from_slice(&cie);
    for (start, size) in [(0x0800_4000u32, 0x20u32), (0x0800_4100, 0x20)] {
        let mut fde = Vec::new();
        word(&mut fde, 0);
        word(&mut fde, start);
        word(&mut fde, size);
        // behind the first instruction: r7 and lr are on the stack
        fde.extend_from_slice(&[0x41, 0x0e, 8, 0x8e, 1, 0x87, 2, 0]);
        word(&mut out, fde.len() as u32);
        out.extend_from_slice(&fde);
    }
    out
}

fn symbols(names: &mut Vec<u8>) -> Vec<u8> {
    let mut out = vec![0u8; 16];
    names.push(0);
    for (name, address, size, kind) in [
        ("main", 0x0800_4001u32, 0x20u32, 0x12u8),
        ("tick", 0x0800_4101, 0x20, 0x12),
        ("theta_ref", 0x2000_0010, 4, 0x11),
    ] {
        word(&mut out, names.len() as u32);
        word(&mut out, address);
        word(&mut out, size);
        out.push(kind);
        out.push(0);
        half(&mut out, 1);
        text(names, name);
    }
    out
}

/// A 32-bit little-endian image with the given sections: name, kind, content,
/// link, size of an entry.
fn elf(sections: &[(&str, u32, Vec<u8>, u32, u32)]) -> Vec<u8> {
    let mut names = vec![0u8];
    let mut body: Vec<u8> = Vec::new();
    let mut table = vec![0u8; 40];
    let mut all: Vec<(&str, u32, Vec<u8>, u32, u32)> = sections.to_vec();
    all.push((".shstrtab", 3, Vec::new(), 0, 0));
    let last = all.len() - 1;
    for (i, (name, kind, content, link, entry)) in all.iter().enumerate() {
        let at = names.len() as u32;
        text(&mut names, name);
        let bytes = if i == last { names.clone() } else { content.clone() };
        word(&mut table, at);
        word(&mut table, *kind);
        word(&mut table, 0);
        word(&mut table, 0);
        word(&mut table, 52 + body.len() as u32);
        word(&mut table, bytes.len() as u32);
        word(&mut table, *link);
        word(&mut table, if *kind == 2 { 1 } else { 0 });
        word(&mut table, 1);
        word(&mut table, *entry);
        body.extend_from_slice(&bytes);
    }
    let mut out = vec![0x7f, b'E', b'L', b'F', 1, 1, 1, 0, 0, 0, 0, 0, 0, 0, 0, 0];
    half(&mut out, 2);
    half(&mut out, 40);
    word(&mut out, 1);
    word(&mut out, 0);
    word(&mut out, 0);
    word(&mut out, 52 + body.len() as u32);
    word(&mut out, 0);
    half(&mut out, 52);
    half(&mut out, 0);
    half(&mut out, 0);
    half(&mut out, 40);
    half(&mut out, all.len() as u16 + 1);
    half(&mut out, all.len() as u16);
    out.extend_from_slice(&body);
    out.extend_from_slice(&table);
    out
}

fn image() -> Vec<u8> {
    image_of(info(), lines())
}

fn image_of(info: Vec<u8>, lines: Vec<u8>) -> Vec<u8> {
    let mut names = Vec::new();
    let table = symbols(&mut names);
    elf(&[
        (".text", 1, vec![0; 4], 0, 0),
        (".debug_abbrev", 1, abbrevs(), 0, 0),
        (".debug_info", 1, info, 0, 0),
        (".debug_line", 1, lines, 0, 0),
        (".debug_frame", 1, frames(), 0, 0),
        (".symtab", 2, table, 7, 16),
        (".strtab", 3, names, 0, 0),
    ])
}

// ---------------------------------------------------------------------------
// Variables
// ---------------------------------------------------------------------------

fn found(expr: &str) -> PreparedSymbol {
    prepare_symbol(&image(), expr).unwrap()
}

fn refused(expr: &str) -> PrepareError<String> {
    prepare_symbol(&image(), expr).err().unwrap()
}

fn options(max_elems: Option<usize>, max_depth: usize) -> FmtOptions {
    FmtOptions { max_elems, max_depth }
}

fn scalar(p: &PreparedSymbol) -> &ScalarType {
    match &p.kind {
        TypeDesc::Plain(Leaf::Scalar(s)) => s,
        other => panic!("{other:?}"),
    }
}

#[test]
fn variables_have_address_and_type() {
    let data = image();
    assert_eq!(find_symbol(&data, "theta_ref").unwrap().1.address, 0x2000_0010);
    let f = found("theta_ref");
    assert_eq!((f.address, f.size, f.offset), (0x2000_0010, 4, 0));
    assert_eq!((scalar(&f).label.as_str(), scalar(&f).size), ("float", 4));
    assert!(matches!(scalar(&f).encoding, Encoding::Float));
    // through a typedef
    let n = found("cnt");
    assert_eq!((n.address, n.field_size()), (0x2000_0020, 4));
    assert!(matches!(scalar(&n).encoding, Encoding::Signed));
}

#[test]
fn variables_that_cannot_be_read_say_why() {
    let missing = find_symbol(&image(), "nothing").err().unwrap();
    assert!(matches!(missing, SymbolError::NotFound));
    assert!(refused("nothing").message("nothing").starts_with("在 ELF 里没有找到符号 nothing。"));
    let gone = refused("gone.x");
    assert!(matches!(&gone, PrepareError::Symbol(n, SymbolError::OptimizedOut) if n == "gone"));
    assert!(gone.message("gone.x").starts_with("符号 gone 在 ELF 里存在，但读不出值：被编译器优化掉了"));
    let other = prepare_symbol(b"no image", "x").err().unwrap();
    assert!(matches!(other, PrepareError::Symbol(_, SymbolError::NotElf(_))));
}

#[test]
fn values_are_written_by_their_type() {
    let f = found("theta_ref");
    let lines = describe("theta_ref", &f, &1.5f32.to_le_bytes(), options(None, 3), &show).unwrap();
    assert_eq!(lines, ["theta_ref = 1.5", "类型: float    地址: 0x20000010"]);
    let n = found("cnt");
    let lines = describe("cnt", &n, &(-3i32).to_le_bytes(), options(None, 3), &show).unwrap();
    assert_eq!(lines[0], "cnt = -3");
    assert_eq!(value_from_field(&n, &(-3i32).to_le_bytes()), Some(Value::Signed(-3)));
    assert_eq!(
        read_failure("theta_ref", &f),
        "读取符号 theta_ref 失败（地址 0x20000010，4 字节）"
    );
    let odd = PreparedSymbol {
        address: 0,
        size: 3,
        offset: 0,
        kind: TypeDesc::Plain(Leaf::Scalar(ScalarType {
            label: "x".to_string(),
            size: 3,
            encoding: Encoding::Unsigned,
        })),
    };
    let e = describe("x", &odd, &[0, 0, 0], options(None, 3), &show).err().unwrap();
    assert_eq!(e.message(), "不支持的编码/大小组合：Unsigned × 3 字节");
    assert_eq!(value_from_field(&odd, &[0, 0, 0]), None);
}

#[test]
fn expressions_lead_to_parts() {
    let y = found("items[1].v.y");
    assert_eq!((y.address, y.size, y.offset), (0x2000_0100, 40, 24));
    assert_eq!((y.field_address(), y.field_size()), (0x2000_0118, 4));
    let lines = describe("items[1].v.y", &y, &2.5f32.to_le_bytes(), options(None, 3), &show);
    assert_eq!(lines.unwrap(), ["items[1].v.y = 2.5", "类型: float    地址: 0x20000118"]);
    assert_eq!(found("matrix[1][2]").offset, 20);
    assert_eq!(found("matrix[1]").kind.label(), "int[3]");
    assert_eq!(found("items").kind.label(), "Item[2]");
    assert_eq!((found("mix.f").offset, found("mix.i").offset), (0, 0));
    let state = found("items[0].state");
    assert_eq!(state.offset, 12);
    assert_eq!(value_from_field(&state, &[1]), Some(Value::Unsigned(1)));
    let lines = describe("s", &state, &[1], options(None, 3), &show).unwrap();
    assert_eq!(lines, ["s = RUN", "类型: State    地址: 0x2000010c"]);
    let lines = describe("s", &state, &[9], options(None, 3), &show).unwrap();
    assert_eq!(lines[0], "s = 9");
    // a negative value agrees with the byte that stands for it
    let lines = describe("s", &state, &[0xff], options(None, 3), &show).unwrap();
    assert_eq!(lines[0], "s = FAULT");
    let next = found("items[0].next");
    let lines = describe("p", &next, &[0, 0, 0, 0], options(None, 3), &show).unwrap();
    assert_eq!(lines[0], "p = NULL");
    let lines = describe("p", &next, &[4, 0, 0, 0x20], options(None, 3), &show).unwrap();
    assert_eq!(lines[0], "p = 0x20000004");
}

#[test]
fn expressions_that_lead_nowhere_say_why() {
    let e = refused("items[2]");
    assert!(matches!(e, PrepareError::Path(PathError::OutOfRange(2, 2))));
    assert_eq!(e.message("items[2]"), "下标 2 越界（数组长度 2）");
    assert_eq!(refused("items[0].zz").message("items[0].zz"), "类型 Item 里没有成员 zz");
    assert_eq!(refused("matrix.x").message("matrix.x"), "类型 int[2][3] 里没有成员 x");
    assert_eq!(refused("cnt[0]").message("cnt[0]"), "类型 int 不是数组，不能取下标 0");
    assert!(matches!(refused("items[0].flags"), PrepareError::BitField));
    assert_eq!(
        refused("origin.far").message("origin.far"),
        "解析符号 origin.far 的类型失败: 成员超出类型范围"
    );
    for bad in ["", ".x", "items[", "items[x]", "items..v", "items[0]v", "items."] {
        let e = refused(bad);
        assert!(matches!(e, PrepareError::Malformed), "{bad}");
        assert!(e.message(bad).starts_with("表达式写法不对："));
    }
}

fn items_bytes() -> Vec<u8> {
    let mut b = Vec::new();
    for k in 0..2 {
        b.extend_from_slice(&(k as f32 + 0.5).to_le_bytes());
        b.extend_from_slice(&(k as f32 - 0.5).to_le_bytes());
        b.extend_from_slice(&(10 * k - 7i32).to_le_bytes());
        b.extend_from_slice(&[k as u8, 0, 0, 0]);
        b.extend_from_slice(&(0x2000_0114u32 * k as u32).to_le_bytes());
    }
    b
}

#[test]
fn compound_values_are_trees() {
    let p = found("items");
    let lines = describe("items", &p, &items_bytes(), options(Some(1), 3), &show).unwrap();
    assert_eq!(
        lines,
        [
            "items (Item[2]) = {",
            "    [0] (Item) = {",
            "        v (Vec) = {",
            "            x: 0.5 (float)",
            "            y: -0.5 (float)",
            "        }",
            "        n: -7 (int)",
            "        state: IDLE (State)",
            "        flags: 〈位域暂不支持〉",
            "        next: NULL",
            "    }",
            "    … 其余 1 项未显示",
            "}",
        ]
    );
    // the limit holds for each dimension, and deep levels are folded
    let m = found("matrix");
    let bytes: Vec<u8> = (1..7i32).flat_map(|n| n.to_le_bytes()).collect();
    let lines = describe("matrix", &m, &bytes, options(Some(2), 3), &show).unwrap();
    assert_eq!(
        lines,
        [
            "matrix (int[2][3]) = {",
            "    [0] (int[3]) = {",
            "        [0]: 1 (int)",
            "        [1]: 2 (int)",
            "        … 其余 1 项未显示",
            "    }",
            "    [1] (int[3]) = {",
            "        [0]: 4 (int)",
            "        [1]: 5 (int)",
            "        … 其余 1 项未显示",
            "    }",
            "}",
        ]
    );
    let lines = describe("matrix", &m, &bytes, options(None, 1), &show).unwrap();
    assert_eq!(
        lines,
        ["matrix (int[2][3]) = {", "    [0] (int[3]) = {…}", "    [1] (int[3]) = {…}", "}"]
    );
}

#[test]
fn compound_variables_are_spread_over_rows() {
    let data = image();
    let mut w = prepare_watch_adhoc(
        &data,
        vec!["items".to_string(), "items[1].n".to_string(), "matrix".to_string()],
        100,
        8,
    );
    let labels = w.labels();
    assert_eq!(
        labels[..8],
        [
            "items[0].v.x",
            "items[0].v.y",
            "items[0].n",
            "items[0].state",
            "items[0].flags",
            "items[0].next",
            "items[1].v.x",
            "items[1].v.y",
        ]
    );
    assert!(w.rows[8].display_text().starts_with("… 其余 4 项未显示"));
    assert_eq!(labels[9], "items[1].n");
    assert_eq!((labels[10].as_str(), labels[15].as_str()), ("matrix[0][0]", "matrix[1][2]"));
    assert_eq!(labels.len(), 16);
    let words: Vec<u8> = (1..7i32).flat_map(|n| n.to_le_bytes()).collect();
    sample_rows_core(&mut w.rows, &[Ok(items_bytes()), Ok(words)], &show);
    assert_eq!(w.rows[3].display_text(), "IDLE (State)");
    assert_eq!(w.rows[4].display_text(), "〈位域暂不支持〉");
    assert_eq!(w.rows[6].display_text(), "1.5 (float)");
    assert_eq!(w.rows[9].display_text(), "3 (int)");
    assert_eq!(w.rows[15].display_text(), "6 (int)");
    // the label of a row is an expression that leads to the same place
    for row in &w.rows {
        if let RowSource::Live(f) = &row.source {
            if let Ok(p) = prepare_symbol(&data, &row.label) {
                assert_eq!((p.address, p.offset), (f.address, f.offset), "{}", row.label);
            }
        }
    }
}

#[test]
fn plots_take_scalars_only() {
    let data = image();
    let plot = run_adhoc(&data, "theta_ref", 20).unwrap();
    assert_eq!(plot.ordered, ["theta_ref"]);
    assert_eq!(plot.prepared[0].address, 0x2000_0010);
    let e = run_adhoc(&data, "items", 20).err().unwrap();
    assert_eq!(
        e.message(),
        "符号 items 是复合类型（Item[2]），plot 只支持标量；请监视具体成员，如 items.成员名 或 items[0]"
    );
    assert_eq!(run_adhoc(&data, "origin.y", 20).unwrap().prepared[0].offset, 4);
    let cfg = PlotConfig {
        interval_ms: 20,
        window_secs: Double { bits: 5.0f64.to_bits() },
        groups: vec![
            vec!["theta_ref".to_string(), "cnt".to_string()],
            vec!["theta_ref".to_string()],
        ],
    };
    let p = prepare_groups(&cfg, &data).unwrap();
    assert_eq!(p.ordered, ["theta_ref", "cnt", "theta_ref"]);
    assert_eq!(p.prepared.len(), 2);
    assert_eq!(p.chan_of, [0, 1, 0]);
    assert_eq!(p.groups_idx, vec![vec![0usize, 1], vec![2]]);
    let broken = PlotConfig {
        interval_ms: 20,
        window_secs: Double { bits: 5.0f64.to_bits() },
        groups: vec![vec!["nothing".to_string()]],
    };
    let e: PlotSymbolError<String> = prepare_groups(&broken, &data).err().unwrap();
    assert!(e.message().contains("nothing"));
}

#[test]
fn watch_rows_come_from_the_image() {
    let data = image();
    let p = prepare_symbol(&data, "cnt").unwrap();
    assert_eq!((p.address, p.size), (0x2000_0020, 4));
    assert!(p.plottable());
    let w = prepare_watch_adhoc(
        &data,
        vec!["cnt".to_string(), "nothing".to_string()],
        100,
        8,
    );
    assert!(matches!(&w.rows[0].source, RowSource::Live(f) if f.address == 0x2000_0020));
    assert!(matches!(&w.rows[1].source, RowSource::Broken(_)));
}

#[test]
fn a_watch_of_no_parts_shows_one_part() {
    let data = image();
    let labels = |max: usize| {
        let all = vec!["matrix".to_string(), "cnt".to_string()];
        prepare_watch_adhoc(&data, all, 100, max).labels()
    };
    assert_eq!(labels(0), ["matrix[0][0]", "matrix", "cnt"]);
    assert_eq!(labels(1), labels(0));
    assert_eq!(labels(2), ["matrix[0][0]", "matrix[0][1]", "matrix", "cnt"]);
}

#[test]
fn types_are_read_however_deep_they_are() {
    let data = image_of(deep_info(60), lines());
    let expr = format!("deep{}", ".in".repeat(60));
    let p = prepare_symbol(&data, &expr).unwrap();
    assert_eq!((p.address, p.size, p.field_size()), (0x2000_0400, 4, 4));
    assert_eq!(scalar(&p).label, "int");
}

#[test]
fn a_type_that_holds_itself_is_not_read() {
    let data = image_of(deep_info(1), lines());
    let e = prepare_symbol(&data, "ring.again").err().unwrap();
    assert!(matches!(&e, PrepareError::Opaque(t) if t == "类型包含自身"));
    assert_eq!(e.message("ring.again"), "解析符号 ring.again 的类型失败: 类型包含自身");
}

// ---------------------------------------------------------------------------
// Code
// ---------------------------------------------------------------------------

#[test]
fn functions_are_found_both_ways() {
    let map = CodeMap::load(&image()).unwrap();
    assert_eq!(map.code_symbol_address("main").unwrap(), 0x0800_4000);
    assert_eq!(map.code_symbol_address("tick").unwrap(), 0x0800_4100);
    assert_eq!(map.function_name_at(0x0800_4000), Some("main".to_string()));
    assert_eq!(map.function_name_at(0x0800_401f), Some("main".to_string()));
    assert_eq!(map.function_name_at(0x0800_4020), None);
    // data has no code
    let e = map.code_symbol_address("theta_ref").err().unwrap();
    assert_eq!(e.message(), "在 ELF 里没有找到函数 theta_ref");
    assert_eq!(map.function_name_at(0x2000_0010), None);
    assert!(CodeMap::load(b"no image").is_err());
}

#[test]
fn lines_are_found_both_ways() {
    let map = CodeMap::load(&image()).unwrap();
    let main = "/work/fw/src/main.c".to_string();
    assert_eq!(map.address_to_line(0x0800_4000), Some((main.clone(), 11)));
    assert_eq!(map.address_to_line(0x0800_4005), Some((main.clone(), 12)));
    assert_eq!(map.address_to_line(0x0800_4008), Some(("/abs/util.h".to_string(), 20)));
    assert_eq!(map.address_to_line(0x0800_4010), None);
    assert_eq!(map.address_to_line(0x0800_3fff), None);
    assert_eq!(map.line_to_address("main.c", 12).unwrap(), 0x0800_4004);
    assert_eq!(map.line_to_address("src/main.c", 11).unwrap(), 0x0800_4000);
    assert_eq!(map.line_to_address("/abs/util.h", 20).unwrap(), 0x0800_4008);
    // the last parts of the path, not the last letters
    assert!(matches!(map.line_to_address("ain.c", 11), Err(LookupError::NoCode(_, 11))));
    let e = map.line_to_address("main.c", 99).err().unwrap();
    assert!(e.message().starts_with("main.c:99 "));
    assert_eq!(map.resolve_source_path("main.c").unwrap(), main);
    assert!(matches!(map.resolve_source_path("x.c"), Err(LookupError::NoSource(_))));
    let spot = map.spot(0x0800_4004);
    assert_eq!(spot.function, Some("main".to_string()));
    assert_eq!(spot.place, Some((main, 12)));
}

#[test]
fn a_line_program_with_a_step_that_has_no_opposite_gives_no_lines() {
    let mut steps = vec![3u8, 10, 1, 2, 2, 3];
    steps.extend_from_slice(&[0x80, 0x80, 0x80, 0x80, 0x80, 0x80, 0x80, 0x80, 0x80, 0x7f, 1]);
    steps.extend_from_slice(&[2, 4, 0, 1, 1]);
    let map = CodeMap::load(&image_of(info(), line_program(&steps))).unwrap();
    assert_eq!(map.address_to_line(0x0800_4000), None);
    assert_eq!(map.code_symbol_address("main").unwrap(), 0x0800_4000);
    // the step next to it can be taken
    steps[6] = 0x81;
    let map = CodeMap::load(&image_of(info(), line_program(&steps))).unwrap();
    assert!(map.address_to_line(0x0800_4000).is_some());
    assert!(all_turnable(&[None, Some(i64::MAX), Some(i64::MIN + 1)]));
    assert!(!all_turnable(&[None, Some(i64::MIN)]));
}

#[test]
fn targets_are_addresses_lines_or_functions() {
    let map = CodeMap::load(&image()).unwrap();
    let resolve = |s: &str| resolve_target(Some(&map), s);
    assert_eq!(resolve("0x08004200").unwrap(), 0x0800_4200);
    assert_eq!(resolve(" 0X10 ").unwrap(), 0x10);
    assert_eq!(resolve("08004200").unwrap(), 0x0800_4200);
    assert_eq!(resolve("main").unwrap(), 0x0800_4000);
    assert_eq!(resolve("main.c:12").unwrap(), 0x0800_4004);
    // fewer than eight digits may be a name
    assert!(matches!(resolve("beef"), Err(TargetError::Unknown(LookupError::NoFunction(_)))));
    assert!(matches!(parse_target("main:3"), Ok(BreakTarget::Function(t)) if t == "main:3"));
    assert!(matches!(parse_target("C:\\a.c:3"), Ok(BreakTarget::Line(f, 3)) if f == "C:\\a.c"));
    assert_eq!(resolve("0x").err().unwrap().message(), "地址不能为空");
    assert_eq!(
        resolve("0xzz").err().unwrap().message(),
        "无效的十六进制地址：0xzz: invalid digit found in string"
    );
    assert_eq!(
        resolve("11112222333344445").err().unwrap().message(),
        "无效的地址：11112222333344445: number too large to fit in target type"
    );
    assert_eq!(
        resolve_target(None, "foc.c:123").err().unwrap().message(),
        "目标是源文件位置 foc.c:123，但配置里没有固件镜像"
    );
    assert_eq!(
        resolve_target(None, " main ").err().unwrap().message(),
        "目标是符号 main，但配置里没有 firmware.elf"
    );
    assert_eq!(resolve_target(None, "0x10").unwrap(), 0x10);
}

// ---------------------------------------------------------------------------
// Call stacks
// ---------------------------------------------------------------------------

fn registers(sp: u64, lr: u64, pc: u64) -> Vec<Option<u64>> {
    let mut regs = vec![Some(0u64); 16];
    regs[13] = Some(sp);
    regs[14] = Some(lr);
    regs[15] = Some(pc);
    regs
}

fn memory(address: u64) -> Option<u32> {
    match address {
        VTOR => Some(0x0800_0000),
        ICSR => Some(0),
        0x0800_0000 => Some(0x2000_1000),
        // tick's frame: r7 and the return into main
        0x2000_0ff0 => Some(0x77),
        0x2000_0ff4 => Some(0x0800_4009),
        // main's frame: r7 and no return
        0x2000_0ff8 => Some(0x78),
        0x2000_0ffc => Some(0),
        _ => None,
    }
}

#[test]
fn call_stacks_follow_the_unwind_table() {
    let info = FrameInfo::load(&image()).unwrap();
    let regs = registers(0x2000_0ff0, 0xffff_ffff, 0x0800_4104);
    let stack = backtrace(&info, regs, &memory, 20).unwrap();
    assert_eq!(stack, [Frame { pc: 0x0800_4104 }, Frame { pc: 0x0800_4008 }]);
    let regs = registers(0x2000_0ff0, 0xffff_ffff, 0x0800_4104);
    assert_eq!(frame_return_address(&info, &regs, &memory), Some(0x0800_4009));
    let short = registers(0x2000_0ff0, 0xffff_ffff, 0x0800_4104);
    assert_eq!(backtrace(&info, short, &memory, 1).unwrap().len(), 1);
}

#[test]
fn call_stacks_are_no_longer_than_asked_for() {
    let info = FrameInfo::load(&image()).unwrap();
    let busy = |a: u64| match a {
        ICSR => Some(15),
        0x0800_003c => Some(0x0800_4201),
        // tick's frame: r7 and the mark of an exception
        0x2000_0ff4 => Some(0xffff_fff9),
        _ => memory(a),
    };
    let stack = |max: usize| {
        let regs = registers(0x2000_0ff0, 0xffff_ffff, 0x0800_4104);
        backtrace(&info, regs, &busy, max)
    };
    assert_eq!(stack(2).unwrap(), [Frame { pc: 0x0800_4104 }, Frame { pc: 0x0800_4200 }]);
    assert_eq!(stack(1).unwrap(), [Frame { pc: 0x0800_4104 }]);
    assert!(matches!(stack(0), Err(BacktraceError::NoFrames)));
}

#[test]
fn at_the_first_instruction_the_link_register_holds_the_return() {
    let info = FrameInfo::load(&image()).unwrap();
    let regs = registers(0x2000_0ff8, 0x0800_4009, 0x0800_4100);
    assert_eq!(frame_return_address(&info, &regs, &memory), Some(0x0800_4009));
}

#[test]
fn a_core_without_program_counter_has_no_stack() {
    let info = FrameInfo::load(&image()).unwrap();
    let mut regs = registers(0x2000_0ff0, 0, 0);
    regs[15] = None;
    let e = backtrace(&info, regs, &memory, 20).err().unwrap();
    assert!(matches!(e, BacktraceError::NoPc));
    assert_eq!(e.message(), "读 PC 失败（内核是否已暂停？）");
    assert!(FrameInfo::load(b"no image").is_err());
}

#[test]
fn handlers_come_from_the_vector_table() {
    let idle = |a: u64| memory(a);
    assert_eq!(active_vector_handler(&idle), None);
    let busy = |a: u64| match a {
        ICSR => Some(15),
        0x0800_003c => Some(0x0800_4101),
        _ => memory(a),
    };
    assert_eq!(active_vector_handler(&busy), Some(0x0800_4100));
}

#[test]
fn exception_returns_and_register_names() {
    assert!(is_exc_return(0xffff_fff9));
    assert!(is_exc_return(0xffff_ffed));
    assert!(!is_exc_return(0x0800_4009));
    assert_eq!(dwarf_register("R0"), Some(0));
    assert_eq!(dwarf_register("R13"), Some(13));
    assert_eq!(dwarf_register("XPSR"), None);
}
