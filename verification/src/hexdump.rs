//! Byte dumps of target memory: an address column, a hexadecimal column and an
//! ASCII column.
//!
//! Memory is read in aligned words and cut to the bytes that were asked for.
//! A dump is printed once, with equal rows folded on request, or redrawn again
//! and again with the changed bytes marked.
use vstd::prelude::*;
use vstd::slice::slice_subrange;
use crate::number::{dec, dec_text, digit_char, hex, hex_text, law_bytes_have_two_digits};

verus! {

/// The most bytes of one dump.
pub const MAX_DUMP_BYTES: u64 = 1048576;

/// What to dump and how.
#[derive(Debug, Clone, Copy)]
pub struct DumpOptions {
    pub address: u64,
    pub length: u64,
    /// Bytes in a row.
    pub width: usize,
    /// Bytes in a group.
    pub group: usize,
    pub show_ascii: bool,
    pub collapse: bool,
}

/// Why options are refused.
#[derive(Debug, Clone, Copy, PartialEq, Eq, Structural)]
pub enum DumpError {
    Empty,
    TooLong(u64),
    Width(usize),
    Group(usize),
    /// The group and the width that it does not divide.
    Ragged(usize, usize),
}

impl DumpError {
    /// The wording of each refusal.
    pub open spec fn text(self) -> Seq<char> {
        match self {
            DumpError::Empty => "length 必须大于 0"@,
            DumpError::TooLong(n) => "单次转储上限 "@ + dec(MAX_DUMP_BYTES as nat)
                + " 字节（请求 "@ + dec(n as nat) + "），防手滑请分段读"@,
            DumpError::Width(w) => "width 只支持 4 / 8 / 16 / 32 字节每行（当前 "@ + dec(w as nat)
                + "）"@,
            DumpError::Group(g) => "group 只支持 1 / 2 / 4 / 8 字节每组（当前 "@ + dec(g as nat)
                + "）"@,
            DumpError::Ragged(g, w) => "group（"@ + dec(g as nat) + "）必须整除 width（"@ + dec(
                w as nat,
            ) + "）"@,
        }
    }

    /// The wording of this refusal.
    pub fn message(&self) -> (r: String)
        ensures
            r@ == self.text(),
    {
        match self {
            DumpError::Empty => String::from_str("length 必须大于 0"),
            DumpError::TooLong(n) => {
                let mut s: String = String::from_str("单次转储上限 ");
                s.append(dec_text(MAX_DUMP_BYTES).as_str());
                s.append(" 字节（请求 ");
                s.append(dec_text(*n).as_str());
                s.append("），防手滑请分段读");
                s
            },
            DumpError::Width(w) => {
                let mut s: String = String::from_str(
                    "width 只支持 4 / 8 / 16 / 32 字节每行（当前 ",
                );
                s.append(dec_text(*w as u64).as_str());
                s.append("）");
                s
            },
            DumpError::Group(g) => {
                let mut s: String = String::from_str(
                    "group 只支持 1 / 2 / 4 / 8 字节每组（当前 ",
                );
                s.append(dec_text(*g as u64).as_str());
                s.append("）");
                s
            },
            DumpError::Ragged(g, w) => {
                let mut s: String = String::from_str("group（");
                s.append(dec_text(*g as u64).as_str());
                s.append("）必须整除 width（");
                s.append(dec_text(*w as u64).as_str());
                s.append("）");
                s
            },
        }
    }
}

/// The first of the rules that options break, if any.
pub open spec fn options_error(o: DumpOptions) -> Option<DumpError> {
    if o.length == 0 {
        Some(DumpError::Empty)
    } else if o.length > MAX_DUMP_BYTES {
        Some(DumpError::TooLong(o.length))
    } else if o.width != 4 && o.width != 8 && o.width != 16 && o.width != 32 {
        Some(DumpError::Width(o.width))
    } else if o.group != 1 && o.group != 2 && o.group != 4 && o.group != 8 {
        Some(DumpError::Group(o.group))
    } else if o.width % o.group != 0 {
        Some(DumpError::Ragged(o.group, o.width))
    } else {
        None
    }
}

/// Holds the options to the rules.
pub fn validate(opts: &DumpOptions) -> (r: Result<(), DumpError>)
    ensures
        match r {
            Ok(_) => options_error(*opts) is None,
            Err(e) => options_error(*opts) == Some(e),
        },
{
    if opts.length == 0 {
        return Err(DumpError::Empty);
    }
    if opts.length > MAX_DUMP_BYTES {
        return Err(DumpError::TooLong(opts.length));
    }
    if opts.width != 4 && opts.width != 8 && opts.width != 16 && opts.width != 32 {
        return Err(DumpError::Width(opts.width));
    }
    if opts.group != 1 && opts.group != 2 && opts.group != 4 && opts.group != 8 {
        return Err(DumpError::Group(opts.group));
    }
    if opts.width % opts.group != 0 {
        return Err(DumpError::Ragged(opts.group, opts.width));
    }
    Ok(())
}

// ---------------------------------------------------------------------------
// Reading
// ---------------------------------------------------------------------------

/// The aligned words that cover a range of bytes.
#[derive(Debug, Clone, Copy, PartialEq, Eq, Structural)]
pub struct WordRange {
    pub start: u64,
    pub count: u64,
}

/// The first word of a byte.
pub open spec fn word_floor(address: int) -> int {
    address / 4 * 4
}

/// The words that cover `length` bytes from `address` on: from the word of the
/// first byte to the end of the word of the last one.
pub fn read_plan(address: u64, length: u64) -> (r: Option<WordRange>)
    ensures
        match r {
            None => address + length > u64::MAX,
            Some(w) => {
                &&& address + length <= u64::MAX
                &&& w.start == word_floor(address as int)
                &&& w.start + 4 * w.count == word_floor(address + length + 3)
            },
        },
{
    match address.checked_add(length) {
        None => None,
        Some(end) => {
            let start: u64 = address / 4 * 4;
            let stop: u128 = (end as u128 + 3) / 4 * 4;
            Some(WordRange { start, count: ((stop - start as u128) / 4) as u64 })
        },
    }
}

/// The wording of a read that failed.
pub fn region_failure(words: WordRange) -> (r: String)
    requires
        words.count <= u64::MAX / 4,
    ensures
        r@ == "读取 0x"@ + hex(words.start as nat, 8) + " 起 "@ + dec((words.count * 4) as nat)
            + " 字节失败（芯片未上电？地址无效？）"@,
{
    let mut s: String = String::from_str("读取 0x");
    s.append(hex_text(words.start, 8).as_str());
    s.append(" 起 ");
    s.append(dec_text(words.count * 4).as_str());
    s.append(" 字节失败（芯片未上电？地址无效？）");
    s
}

/// Byte number `k` of a word, the least significant one first.
pub open spec fn word_byte(w: u32, k: int) -> u8 {
    if k == 0 {
        (w % 0x100) as u8
    } else if k == 1 {
        (w / 0x100 % 0x100) as u8
    } else if k == 2 {
        (w / 0x1_0000 % 0x100) as u8
    } else {
        (w / 0x100_0000) as u8
    }
}

fn byte_of_word(w: u32, k: usize) -> (b: u8)
    requires
        k < 4,
    ensures
        b == word_byte(w, k as int),
{
    if k == 0 {
        (w % 0x100) as u8
    } else if k == 1 {
        (w / 0x100 % 0x100) as u8
    } else if k == 2 {
        (w / 0x1_0000 % 0x100) as u8
    } else {
        (w / 0x100_0000) as u8
    }
}

/// The bytes from `address` on in words that start at `word_floor(address)`.
pub open spec fn region(words: Seq<u32>, address: int, length: int) -> Seq<u8> {
    Seq::new(
        length as nat,
        |j: int| word_byte(words[(address % 4 + j) / 4], (address % 4 + j) % 4),
    )
}

/// Cuts the bytes that were asked for out of the words that cover them.
pub fn cut_region(words: &[u32], address: u64, length: u64) -> (r: Vec<u8>)
    requires
        4 * words@.len() >= address % 4 + length,
    ensures
        r@ == region(words@, address as int, length as int),
{
    let mut r: Vec<u8> = Vec::new();
    let skip: u64 = address % 4;
    let count: usize = words.len();
    let mut j: u64 = 0;
    while j < length
        invariant
            j <= length,
            skip == address % 4,
            count == words@.len(),
            4 * count >= skip + length,
            r@ == region(words@, address as int, j as int),
        decreases length - j,
    {
        let at: u128 = skip as u128 + j as u128;
        assert(at / 4 < count);
        let i: usize = (at / 4) as usize;
        r.push(byte_of_word(words[i], (at % 4) as usize));
        assert(r@ =~= region(words@, address as int, j + 1));
        j += 1;
    }
    r
}

/// Whether `words` are what stands in the memory `mem` from `start` on.
pub open spec fn words_of_memory(words: Seq<u32>, mem: spec_fn(int) -> u8, start: int) -> bool {
    forall|i: int, k: int|
        0 <= i < words.len() && 0 <= k < 4 ==> #[trigger] word_byte(words[i], k) == mem(
            start + 4 * i + k,
        )
}

/// Whatever the alignment of the address, the bytes of a dump are the bytes of
/// memory at the addresses that were asked for.
pub proof fn law_region_is_memory(
    words: Seq<u32>,
    mem: spec_fn(int) -> u8,
    address: int,
    length: int,
)
    requires
        0 <= address,
        0 <= length,
        4 * words.len() >= address % 4 + length,
        words_of_memory(words, mem, word_floor(address)),
    ensures
        region(words, address, length) == Seq::new(length as nat, |j: int| mem(address + j)),
{
    assert forall|j: int| 0 <= j < length implies #[trigger] region(words, address, length)[j]
        == mem(address + j) by {
        let i = (address % 4 + j) / 4;
        let k = (address % 4 + j) % 4;
        assert(word_byte(words[i], k) == mem(word_floor(address) + 4 * i + k));
    }
    assert(region(words, address, length) =~= Seq::new(length as nat, |j: int| mem(address + j)));
}

// ---------------------------------------------------------------------------
// Rows
// ---------------------------------------------------------------------------

/// Row number `k` of a dump.
pub open spec fn row(bytes: Seq<u8>, width: int, k: int) -> Seq<u8> {
    bytes.subrange(
        k * width,
        if (k + 1) * width <= bytes.len() {
            (k + 1) * width
        } else {
            bytes.len() as int
        },
    )
}

/// The number of rows of a dump.
pub open spec fn row_count(len: int, width: int) -> int {
    (len + width - 1) / width
}

/// How a row is shown.
#[derive(Debug, Clone, Copy, PartialEq, Eq, Structural)]
pub enum RowForm {
    /// In full.
    Full,
    /// As a star: it repeats the row above.
    Star,
    /// Not at all: a star above stands for it.
    Hidden,
}

/// How row number `k` is shown. With folding, a row that repeats the one above
/// is a star, and so is every further repetition, under the same star.
pub open spec fn row_form(bytes: Seq<u8>, width: int, collapse: bool, k: int) -> RowForm {
    if !collapse || k == 0 || row(bytes, width, k) != row(bytes, width, k - 1) {
        RowForm::Full
    } else if k == 1 || row(bytes, width, k - 1) != row(bytes, width, k - 2) {
        RowForm::Star
    } else {
        RowForm::Hidden
    }
}

/// What stands in front of byte `i` of a row.
pub open spec fn gap(i: int, group: int) -> Seq<char> {
    if i == 0 {
        Seq::empty()
    } else if i % group == 0 {
        seq![' ', ' ']
    } else {
        seq![' ']
    }
}

/// The hexadecimal cell of byte `i` of a row; blank behind the end of the row.
pub open spec fn hex_cell(row: Seq<u8>, i: int) -> Seq<char> {
    if i < row.len() {
        hex(row[i] as nat, 2)
    } else {
        seq![' ', ' ']
    }
}

/// The first `n` cells of the hexadecimal column.
pub open spec fn hex_column(row: Seq<u8>, group: int, n: int) -> Seq<char>
    decreases n,
{
    if n <= 0 {
        Seq::empty()
    } else {
        hex_column(row, group, n - 1) + gap(n - 1, group) + hex_cell(row, n - 1)
    }
}

/// The ASCII cell of byte `i` of a row: the character where it can be printed,
/// else a dot; blank behind the end of the row.
pub open spec fn ascii_cell(row: Seq<u8>, i: int) -> char {
    if i < row.len() {
        if 0x20 <= row[i] <= 0x7e {
            row[i] as char
        } else {
            '.'
        }
    } else {
        ' '
    }
}

/// The ASCII column.
pub open spec fn ascii_column(row: Seq<u8>, n: int) -> Seq<char> {
    Seq::new(n as nat, |i: int| ascii_cell(row, i))
}

/// The line of a row that is shown in full.
pub open spec fn row_line(address: nat, row: Seq<u8>, o: DumpOptions) -> Seq<char> {
    let left = "0x"@ + hex(address, 8) + "  "@ + hex_column(row, o.group as int, o.width as int);
    if o.show_ascii {
        left + "  |"@ + ascii_column(row, o.width as int) + "|"@
    } else {
        left
    }
}

/// The text of the first `k` rows of a dump.
pub open spec fn dump_rows(bytes: Seq<u8>, o: DumpOptions, k: int) -> Seq<char>
    decreases k,
{
    if k <= 0 {
        Seq::empty()
    } else {
        let above = dump_rows(bytes, o, k - 1);
        match row_form(bytes, o.width as int, o.collapse, k - 1) {
            RowForm::Full => above + row_line(
                (o.address + (k - 1) * o.width) as nat,
                row(bytes, o.width as int, k - 1),
                o,
            ) + "\n"@,
            RowForm::Star => above + "*"@ + "\n"@,
            RowForm::Hidden => above,
        }
    }
}

pub(crate) fn ascii_char(row: &[u8], i: usize) -> (c: char)
    ensures
        c == ascii_cell(row@, i as int),
{
    if i < row.len() {
        let b: u8 = row[i];
        if 0x20 <= b && b <= 0x7e {
            b as char
        } else {
            '.'
        }
    } else {
        ' '
    }
}

/// Writes the line of a row.
pub fn write_row(address: u64, row: &[u8], opts: &DumpOptions) -> (r: String)
    requires
        opts.group > 0,
    ensures
        r@ == row_line(address as nat, row@, *opts),
{
    let mut s: String = String::from_str("0x");
    s.append(hex_text(address, 8).as_str());
    s.append("  ");
    let ghost left = s@;
    let mut i: usize = 0;
    assert(left + hex_column(row@, opts.group as int, 0) =~= left);
    while i < opts.width
        invariant
            i <= opts.width,
            opts.group > 0,
            s@ == left + hex_column(row@, opts.group as int, i as int),
        decreases opts.width - i,
    {
        let ghost before = s@;
        if i > 0 {
            s.push(' ');
            if i % opts.group == 0 {
                s.push(' ');
            }
        }
        assert(s@ =~= before + gap(i as int, opts.group as int));
        let ghost spaced = s@;
        if i < row.len() {
            s.append(hex_text(row[i] as u64, 2).as_str());
        } else {
            s.push(' ');
            s.push(' ');
        }
        assert(s@ =~= spaced + hex_cell(row@, i as int));
        assert(s@ =~= left + hex_column(row@, opts.group as int, i + 1));
        i += 1;
    }
    if opts.show_ascii {
        s.append("  |");
        let ghost left = s@;
        let mut k: usize = 0;
        assert(left + ascii_column(row@, 0) =~= left);
        while k < opts.width
            invariant
                k <= opts.width,
                s@ == left + ascii_column(row@, k as int),
            decreases opts.width - k,
        {
            s.push(ascii_char(row, k));
            assert(s@ =~= left + ascii_column(row@, k + 1));
            k += 1;
        }
        s.append("|");
    }
    s
}

fn same_bytes(a: &[u8], b: &[u8]) -> (r: bool)
    ensures
        r == (a@ == b@),
{
    if a.len() != b.len() {
        return false;
    }
    let mut i: usize = 0;
    while i < a.len()
        invariant
            i <= a.len(),
            a@.len() == b@.len(),
            forall|j: int| 0 <= j < i ==> a@[j] == b@[j],
        decreases a.len() - i,
    {
        if a[i] != b[i] {
            assert(a@[i as int] != b@[i as int]);
            return false;
        }
        i += 1;
    }
    assert(a@ =~= b@);
    true
}

pub(crate) proof fn lemma_row_bounds(len: int, width: int, k: int)
    requires
        width > 0,
        0 <= k,
        k * width < len,
    ensures
        k < row_count(len, width),
        (k + 1) * width == k * width + width,
        0 <= k * width,
{
    assert((k + 1) * width == k * width + width) by (nonlinear_arith);
    assert(0 <= k * width) by (nonlinear_arith)
        requires
            0 <= k,
            width > 0,
    ;
    assert(k < (len + width - 1) / width) by (nonlinear_arith)
        requires
            width > 0,
            (k + 1) * width == k * width + width,
            k * width < len,
    ;
}

/// The whole text of a dump.
pub fn print_rows(bytes: &[u8], opts: &DumpOptions) -> (r: String)
    requires
        opts.width > 0,
        opts.group > 0,
        opts.address + bytes@.len() <= u64::MAX,
    ensures
        r@ == dump_rows(
            bytes@,
            *opts,
            row_count(bytes@.len() as int, opts.width as int),
        ),
{
    let mut out: String = String::new();
    let width: usize = opts.width;
    let ghost w = width as int;
    let ghost len = bytes@.len() as int;
    let mut start: usize = 0;
    let ghost mut k: int = 0;
    let mut prev: &[u8] = slice_subrange(bytes, 0, 0);
    let mut collapsed: bool = false;
    proof {
        assert(0 * w == 0) by (nonlinear_arith);
        if len == 0 {
            assert(row_count(len, w) == 0) by (nonlinear_arith)
                requires
                    w > 0,
                    len == 0,
                    row_count(len, w) == (len + w - 1) / w,
            ;
        }
    }
    while start < bytes.len()
        invariant
            width == opts.width,
            w == width,
            w > 0,
            opts.group > 0,
            len == bytes@.len(),
            opts.address + len <= u64::MAX,
            start <= len,
            0 <= k,
            start < len ==> start == k * w,
            start == len ==> k == row_count(len, w),
            out@ == dump_rows(bytes@, *opts, k),
            k > 0 ==> prev@ == row(bytes@, w, k - 1),
            collapsed == (k > 0 && row_form(bytes@, w, opts.collapse, k - 1) != RowForm::Full),
        decreases len - start,
    {
        proof {
            lemma_row_bounds(len, w, k);
        }
        let left: usize = bytes.len() - start;
        let row_len: usize = if left < width {
            left
        } else {
            width
        };
        let here: &[u8] = slice_subrange(bytes, start, start + row_len);
        assert(here@ =~= row(bytes@, w, k));
        let repeats: bool = opts.collapse && start > 0 && same_bytes(prev, here);
        proof {
            assert(start > 0 <==> k > 0) by (nonlinear_arith)
                requires
                    start == k * w,
                    w > 0,
                    0 <= k,
            ;
        }
        if repeats {
            if !collapsed {
                out.append("*");
                out.append("\n");
                collapsed = true;
            }
        } else {
            collapsed = false;
            let line: String = write_row(opts.address + start as u64, here, opts);
            out.append(line.as_str());
            out.append("\n");
        }
        prev = here;
        start += row_len;
        proof {
            k = k + 1;
            if start == len {
                assert(k == row_count(len, w)) by (nonlinear_arith)
                    requires
                        w > 0,
                        (k - 1) * w < len,
                        k * w == (k - 1) * w + w,
                        len <= k * w,
                        row_count(len, w) == (len + w - 1) / w,
                ;
            }
        }
    }
    out
}

/// The rows of a dump put together again.
pub open spec fn rows_joined(bytes: Seq<u8>, width: int, k: int) -> Seq<u8>
    decreases k,
{
    if k <= 0 {
        Seq::empty()
    } else {
        rows_joined(bytes, width, k - 1) + row(bytes, width, k - 1)
    }
}

proof fn lemma_rows_joined(bytes: Seq<u8>, width: int, k: int)
    requires
        width > 0,
        0 <= k <= row_count(bytes.len() as int, width),
    ensures
        rows_joined(bytes, width, k) == bytes.take(
            if k * width <= bytes.len() {
                k * width
            } else {
                bytes.len() as int
            },
        ),
    decreases k,
{
    let len = bytes.len() as int;
    if k > 0 {
        lemma_rows_joined(bytes, width, k - 1);
        assert(k * width == (k - 1) * width + width) by (nonlinear_arith);
        assert((k - 1) * width < len && 0 <= (k - 1) * width) by (nonlinear_arith)
            requires
                width > 0,
                0 < k <= (len + width - 1) / width,
        ;
        assert(rows_joined(bytes, width, k) =~= bytes.take(
            if k * width <= len {
                k * width
            } else {
                len
            },
        ));
    } else {
        assert(0 * width == 0) by (nonlinear_arith);
        assert(bytes.take(0) =~= Seq::empty());
    }
}

/// The rows of a dump, one behind the other, are the bytes of the dump.
pub proof fn law_rows_cover_bytes(bytes: Seq<u8>, width: int)
    requires
        width > 0,
    ensures
        rows_joined(bytes, width, row_count(bytes.len() as int, width)) == bytes,
{
    let len = bytes.len() as int;
    let k = row_count(len, width);
    assert(0 <= k && k * width >= len) by (nonlinear_arith)
        requires
            width > 0,
            len >= 0,
            k == (len + width - 1) / width,
    ;
    lemma_rows_joined(bytes, width, k);
    if k * width <= len {
        assert(bytes.take(k * width) =~= bytes);
    } else {
        assert(bytes.take(len) =~= bytes);
    }
}

/// Folding never hides the first row, never shows two stars in a row, and hides
/// a row only under a star; what is hidden or starred repeats the row above.
pub proof fn law_folding(bytes: Seq<u8>, width: int, k: int)
    requires
        0 <= k,
    ensures
        row_form(bytes, width, true, 0) == RowForm::Full,
        row_form(bytes, width, true, k) == RowForm::Star ==> row_form(bytes, width, true, k + 1)
            != RowForm::Star,
        row_form(bytes, width, true, k + 1) == RowForm::Hidden ==> row_form(
            bytes,
            width,
            true,
            k,
        ) != RowForm::Full,
        row_form(bytes, width, true, k + 1) != RowForm::Full ==> row(bytes, width, k + 1) == row(
            bytes,
            width,
            k,
        ),
        row_form(bytes, width, false, k) == RowForm::Full,
{
}

// ---------------------------------------------------------------------------
// What the text shows
// ---------------------------------------------------------------------------

/// Texts one behind the other.
pub open spec fn joined(pieces: Seq<Seq<char>>) -> Seq<char>
    decreases pieces.len(),
{
    if pieces.len() == 0 {
        Seq::empty()
    } else {
        joined(pieces.drop_last()) + pieces.last()
    }
}

/// The bytes of a dump from `k` times `width` on, as many as make a row.
pub open spec fn row_bytes(bytes: Seq<u8>, width: int, k: int) -> Seq<u8> {
    if k * width + width <= bytes.len() {
        bytes.subrange(k * width, k * width + width)
    } else {
        bytes.skip(k * width)
    }
}

/// What row `k` of a dump adds to its text: its line with the address that lies
/// `k` rows behind that of the dump, or, where equal rows are folded, a star under
/// the row that it repeats, and nothing under a star.
pub open spec fn piece_of(bytes: Seq<u8>, o: DumpOptions, k: int, piece: Seq<char>) -> bool {
    let here = row_bytes(bytes, o.width as int, k);
    let above = row_bytes(bytes, o.width as int, k - 1);
    if o.collapse && k > 0 && here == above {
        if k > 1 && above == row_bytes(bytes, o.width as int, k - 2) {
            piece == Seq::<char>::empty()
        } else {
            piece == seq!['*', '\n']
        }
    } else {
        piece == row_line((o.address + k * o.width) as nat, here, o).push('\n')
    }
}

/// A dump is its rows in order, each behind the address of its first byte: the
/// addresses of two rows that follow each other differ by the width of a row. The
/// last row may be short, and there is none behind it.
pub proof fn law_dump_is_its_rows(bytes: Seq<u8>, o: DumpOptions, pieces: Seq<Seq<char>>)
    requires
        o.width > 0,
        pieces.len() * o.width >= bytes.len(),
        pieces.len() > 0 ==> (pieces.len() - 1) * o.width < bytes.len(),
        forall|k: int| 0 <= k < pieces.len() ==> piece_of(bytes, o, k, #[trigger] pieces[k]),
    ensures
        dump_rows(bytes, o, row_count(bytes.len() as int, o.width as int)) == joined(pieces),
{
    let w = o.width as int;
    let n = pieces.len() as int;
    let len = bytes.len() as int;
    assert(row_count(len, w) == n) by (nonlinear_arith)
        requires
            w > 0,
            n >= 0,
            len >= 0,
            n * w >= len,
            n > 0 ==> (n - 1) * w < len,
            row_count(len, w) == (len + w - 1) / w,
    ;
    lemma_pieces(bytes, o, pieces, n);
    assert(pieces.take(n) =~= pieces);
}

proof fn lemma_row_bytes(bytes: Seq<u8>, width: int, k: int)
    requires
        width > 0,
        0 <= k,
        k * width < bytes.len(),
    ensures
        row(bytes, width, k) == row_bytes(bytes, width, k),
{
    lemma_row_bounds(bytes.len() as int, width, k);
    assert(row(bytes, width, k) =~= row_bytes(bytes, width, k));
}

proof fn lemma_pieces(bytes: Seq<u8>, o: DumpOptions, pieces: Seq<Seq<char>>, k: int)
    requires
        o.width > 0,
        0 <= k <= pieces.len(),
        pieces.len() > 0 ==> (pieces.len() - 1) * o.width < bytes.len(),
        forall|j: int| 0 <= j < pieces.len() ==> piece_of(bytes, o, j, #[trigger] pieces[j]),
    ensures
        dump_rows(bytes, o, k) == joined(pieces.take(k)),
    decreases k,
{
    let w = o.width as int;
    if k > 0 {
        lemma_pieces(bytes, o, pieces, k - 1);
        assert(pieces.take(k).drop_last() =~= pieces.take(k - 1));
        assert(pieces.take(k).last() == pieces[k - 1]);
        assert(piece_of(bytes, o, k - 1, pieces[k - 1]));
        let last = pieces.len() - 1;
        assert((k - 1) * w <= last * w) by (nonlinear_arith)
            requires
                k - 1 <= last,
                w > 0,
        ;
        lemma_row_bytes(bytes, w, k - 1);
        if k > 1 {
            assert((k - 2) * w < (k - 1) * w) by (nonlinear_arith)
                requires
                    w > 0,
            ;
            lemma_row_bytes(bytes, w, k - 2);
        }
        if k > 2 {
            assert((k - 3) * w < (k - 1) * w) by (nonlinear_arith)
                requires
                    w > 0,
            ;
            lemma_row_bytes(bytes, w, k - 3);
        }
        reveal_strlit("*");
        reveal_strlit("\n");
        let above = dump_rows(bytes, o, k - 1);
        assert(above + "*"@ + "\n"@ =~= above + seq!['*', '\n']);
        let line = row_line(
            (o.address + (k - 1) * o.width) as nat,
            row(bytes, o.width as int, k - 1),
            o,
        );
        assert(above + line + "\n"@ =~= above + line.push('\n'));
        assert(above + Seq::<char>::empty() =~= above);
        assert(dump_rows(bytes, o, k) == above + pieces[k - 1]);
    }
}

/// How many characters stand in front of cell `i` of the hexadecimal column.
pub open spec fn cell_start(i: int, group: int) -> int {
    3 * i + i / group
}

proof fn lemma_hex_cells(row: Seq<u8>, group: int, n: int)
    requires
        group > 0,
        n >= 0,
    ensures
        n > 0 ==> hex_column(row, group, n).len() == cell_start(n - 1, group) + 2,
        n == 0 ==> hex_column(row, group, n).len() == 0,
        forall|i: int|
            #![trigger cell_start(i, group)]
            0 <= i < n ==> {
                let c = cell_start(i, group);
                &&& 0 <= c
                &&& c + 2 <= hex_column(row, group, n).len()
                &&& hex_column(row, group, n)[c] == hex_cell(row, i)[0]
                &&& hex_column(row, group, n)[c + 1] == hex_cell(row, i)[1]
            },
    decreases n,
{
    if n > 0 {
        let m = n - 1;
        lemma_hex_cells(row, group, m);
        let front = hex_column(row, group, m);
        let all = hex_column(row, group, n);
        if m < row.len() {
            law_bytes_have_two_digits(row[m]);
        }
        assert(hex_cell(row, m).len() == 2);
        assert(0int / group == 0) by (nonlinear_arith)
            requires
                group > 0,
        ;
        if m > 0 {
            assert(m / group == (m - 1) / group + if m % group == 0 {
                1int
            } else {
                0
            }) by (nonlinear_arith)
                requires
                    m > 0,
                    group > 0,
            ;
        }
        assert(front.len() + gap(m, group).len() == cell_start(m, group));
        assert forall|i: int|
            #![trigger cell_start(i, group)]
            0 <= i < n implies {
            let c = cell_start(i, group);
            &&& 0 <= c
            &&& c + 2 <= all.len()
            &&& all[c] == hex_cell(row, i)[0]
            &&& all[c + 1] == hex_cell(row, i)[1]
        } by {
            let c = cell_start(i, group);
            if i < m {
                assert(all[c] == front[c] && all[c + 1] == front[c + 1]);
            } else {
                assert(all[c] == hex_cell(row, m)[0]);
                assert(all[c + 1] == hex_cell(row, m)[1]);
            }
        }
    }
}

/// What the line of a row shows: the address, then for each byte its two digits,
/// with a space between bytes and two between groups, then the characters between
/// two bars. Cells behind the last byte are blank, so that all lines are as long.
pub proof fn law_lines_show_their_bytes(address: nat, row: Seq<u8>, o: DumpOptions, i: int)
    requires
        o.group > 0,
        0 <= i < o.width,
    ensures
        ({
            let line = row_line(address, row, o);
            let left = 4 + hex(address, 8).len();
            let cell = left + cell_start(i, o.group as int);
            let right = left + cell_start(o.width - 1, o.group as int) + 2;
            &&& line.take(left as int) == seq!['0', 'x'] + hex(address, 8) + seq![' ', ' ']
            &&& line.len() == if o.show_ascii {
                right + 3 + o.width + 1
            } else {
                right
            }
            &&& i < row.len() ==> line[cell] == digit_char((row[i] / 16) as nat) && line[cell + 1]
                == digit_char((row[i] % 16) as nat)
            &&& i >= row.len() ==> line[cell] == ' ' && line[cell + 1] == ' '
            &&& o.show_ascii ==> {
                let c = line[right + 3 + i];
                &&& line[right + 2] == '|'
                &&& line[line.len() - 1] == '|'
                &&& i >= row.len() ==> c == ' '
                &&& i < row.len() && 0x20 <= row[i] <= 0x7e ==> c as u32 == row[i]
                &&& i < row.len() && !(0x20 <= row[i] <= 0x7e) ==> c == '.'
            }
        }),
{
    reveal_strlit("0x");
    reveal_strlit("  ");
    reveal_strlit("  |");
    reveal_strlit("|");
    let group = o.group as int;
    let line = row_line(address, row, o);
    let column = hex_column(row, group, o.width as int);
    let head = "0x"@ + hex(address, 8) + "  "@;
    let left = 4 + hex(address, 8).len();
    lemma_hex_cells(row, group, o.width as int);
    assert(head.len() == left);
    assert(line.take(left as int) =~= seq!['0', 'x'] + hex(address, 8) + seq![' ', ' ']);
    let c = cell_start(i, group);
    assert(line[left + c] == column[c] && line[left + c + 1] == column[c + 1]);
    if i < row.len() {
        law_bytes_have_two_digits(row[i]);
    }
    if o.show_ascii {
        let right = (left + column.len()) as int;
        let ascii = ascii_column(row, o.width as int);
        assert(line[right + 3 + i] == ascii[i]);
        assert(line[right + 2] == '|');
        assert(line[line.len() - 1] == '|');
    }
}

/// A dump is accepted where it has at least one byte and at most a mebibyte, rows
/// of four, eight, sixteen or thirty-two bytes, and groups of one, two, four or
/// eight that fill a row.
pub proof fn law_accepted_dumps(o: DumpOptions)
    ensures
        options_error(o) is None <==> {
            &&& 1 <= o.length <= 0x10_0000
            &&& o.width == 4 || o.width == 8 || o.width == 16 || o.width == 32
            &&& o.group == 1 || o.group == 2 || o.group == 4 || o.group == 8
            &&& o.width >= o.group
        },
{
    if (o.width == 4 || o.width == 8 || o.width == 16 || o.width == 32) && (o.group == 1 || o.group
        == 2 || o.group == 4 || o.group == 8) {
        assert(o.width % o.group == 0 <==> o.width >= o.group);
    }
}

/// The bytes of a word stand in memory with the least significant one first.
pub proof fn law_words_are_little_endian(w: u32)
    ensures
        w == word_byte(w, 0) + 0x100 * word_byte(w, 1) + 0x1_0000 * word_byte(w, 2) + 0x100_0000
            * word_byte(w, 3),
{
    let a = w % 0x100;
    let b = w / 0x100 % 0x100;
    let c = w / 0x1_0000 % 0x100;
    let d = w / 0x100_0000;
    assert(d < 0x100);
    assert(w == a + 0x100 * b + 0x1_0000 * c + 0x100_0000 * d);
}

/// The words that are read hold the bytes that were asked for, and no word that
/// holds none of them.
pub proof fn law_words_cover_the_bytes(address: int, length: int)
    requires
        0 <= address,
        0 < length,
    ensures
        word_floor(address) % 4 == 0,
        address - 4 < word_floor(address) <= address,
        word_floor(address + length + 3) % 4 == 0,
        address + length <= word_floor(address + length + 3) < address + length + 4,
{
}

}
