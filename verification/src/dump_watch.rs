//! The redrawn dump: sampling, the marking of changed bytes, scrolling.
use vstd::prelude::*;
use vstd::slice::slice_subrange;
use crate::hexdump::{
    ascii_cell, ascii_char, ascii_column, gap, hex_cell, hex_column, lemma_row_bounds, row,
    row_count, row_line, DumpOptions,
};
use crate::number::{dec, dec_text, hex, hex_text};

verus! {

/// A piece of a line, and whether it is marked.
#[derive(Debug)]
pub struct DumpSpan {
    pub text: String,
    pub changed: bool,
}

/// What a list of pieces holds.
pub open spec fn span_views(v: Seq<DumpSpan>) -> Seq<(Seq<char>, bool)> {
    v.map_values(|s: DumpSpan| (s.text@, s.changed))
}

/// Whether byte `i` of a sample differs from the sample drawn before. In the
/// first picture nothing does.
pub open spec fn changed_at(prev: Option<Seq<u8>>, bytes: Seq<u8>, i: int) -> bool {
    match prev {
        None => false,
        Some(p) => i >= p.len() || p[i] != bytes[i],
    }
}

/// The pieces in front of byte `i` of a row.
pub open spec fn gap_spans(i: int, group: int) -> Seq<(Seq<char>, bool)> {
    if i == 0 {
        Seq::empty()
    } else if i % group == 0 {
        seq![(" "@, false), (" "@, false)]
    } else {
        seq![(" "@, false)]
    }
}

/// The pieces of the first `n` cells of the hexadecimal column of row `k`.
pub open spec fn hex_spans(
    prev: Option<Seq<u8>>,
    bytes: Seq<u8>,
    o: DumpOptions,
    k: int,
    n: int,
) -> Seq<(Seq<char>, bool)>
    decreases n,
{
    if n <= 0 {
        Seq::empty()
    } else {
        let r = row(bytes, o.width as int, k);
        let cell = if n - 1 < r.len() {
            (hex(r[n - 1] as nat, 2), changed_at(prev, bytes, k * o.width + n - 1))
        } else {
            ("  "@, false)
        };
        hex_spans(prev, bytes, o, k, n - 1) + gap_spans(n - 1, o.group as int) + seq![cell]
    }
}

/// The pieces of the first `n` cells of the ASCII column of row `k`.
pub open spec fn ascii_spans(
    prev: Option<Seq<u8>>,
    bytes: Seq<u8>,
    o: DumpOptions,
    k: int,
    n: int,
) -> Seq<(Seq<char>, bool)> {
    let r = row(bytes, o.width as int, k);
    Seq::new(
        n as nat,
        |i: int|
            (seq![ascii_cell(r, i)], i < r.len() && changed_at(prev, bytes, k * o.width + i)),
    )
}

/// The pieces of row `k`.
pub open spec fn row_spans(prev: Option<Seq<u8>>, bytes: Seq<u8>, o: DumpOptions, k: int) -> Seq<
    (Seq<char>, bool),
> {
    let left = seq![("0x"@ + hex((o.address + k * o.width) as nat, 8) + "  "@, false)]
        + hex_spans(prev, bytes, o, k, o.width as int);
    if o.show_ascii {
        left + seq![("  |"@, false)] + ascii_spans(prev, bytes, o, k, o.width as int) + seq![
            ("|"@, false),
        ]
    } else {
        left
    }
}

/// The text of pieces put together.
pub open spec fn spans_text(v: Seq<(Seq<char>, bool)>) -> Seq<char>
    decreases v.len(),
{
    if v.len() == 0 {
        Seq::empty()
    } else {
        spans_text(v.drop_last()) + v.last().0
    }
}

proof fn lemma_spans_text_concat(a: Seq<(Seq<char>, bool)>, b: Seq<(Seq<char>, bool)>)
    ensures
        spans_text(a + b) == spans_text(a) + spans_text(b),
    decreases b.len(),
{
    if b.len() == 0 {
        assert(a + b =~= a);
        assert(spans_text(a) + spans_text(b) =~= spans_text(a));
    } else {
        lemma_spans_text_concat(a, b.drop_last());
        assert((a + b).drop_last() =~= a + b.drop_last());
        assert(spans_text(a) + (spans_text(b.drop_last()) + b.last().0) =~= spans_text(a)
            + spans_text(b.drop_last()) + b.last().0);
    }
}

proof fn lemma_spans_text_one(p: (Seq<char>, bool))
    ensures
        spans_text(seq![p]) == p.0,
{
    reveal_with_fuel(spans_text, 2);
    assert(spans_text(seq![p]) =~= p.0);
}

proof fn lemma_gap_text(i: int, group: int)
    ensures
        spans_text(gap_spans(i, group)) == gap(i, group),
{
    reveal_strlit(" ");
    let one = (" "@, false);
    lemma_spans_text_one(one);
    if i == 0 {
    } else if i % group == 0 {
        assert(seq![one, one] =~= seq![one] + seq![one]);
        lemma_spans_text_concat(seq![one], seq![one]);
        assert(spans_text(gap_spans(i, group)) =~= gap(i, group));
    } else {
        assert(" "@ =~= seq![' ']);
    }
}

proof fn lemma_hex_text(
    prev: Option<Seq<u8>>,
    bytes: Seq<u8>,
    o: DumpOptions,
    k: int,
    n: int,
)
    ensures
        spans_text(hex_spans(prev, bytes, o, k, n)) == hex_column(
            row(bytes, o.width as int, k),
            o.group as int,
            n,
        ),
    decreases n,
{
    if n > 0 {
        reveal_strlit("  ");
        lemma_hex_text(prev, bytes, o, k, n - 1);
        let r = row(bytes, o.width as int, k);
        let cell = if n - 1 < r.len() {
            (hex(r[n - 1] as nat, 2), changed_at(prev, bytes, k * o.width + n - 1))
        } else {
            ("  "@, false)
        };
        let a = hex_spans(prev, bytes, o, k, n - 1);
        let g = gap_spans(n - 1, o.group as int);
        lemma_spans_text_concat(a, g);
        lemma_spans_text_concat(a + g, seq![cell]);
        lemma_gap_text(n - 1, o.group as int);
        lemma_spans_text_one(cell);
        assert(cell.0 =~= hex_cell(r, n - 1));
    }
}

proof fn lemma_ascii_text(
    prev: Option<Seq<u8>>,
    bytes: Seq<u8>,
    o: DumpOptions,
    k: int,
    n: int,
)
    requires
        0 <= n,
    ensures
        spans_text(ascii_spans(prev, bytes, o, k, n)) == ascii_column(
            row(bytes, o.width as int, k),
            n,
        ),
    decreases n,
{
    let r = row(bytes, o.width as int, k);
    if n > 0 {
        lemma_ascii_text(prev, bytes, o, k, n - 1);
        let v = ascii_spans(prev, bytes, o, k, n);
        assert(v.drop_last() =~= ascii_spans(prev, bytes, o, k, n - 1));
        assert(spans_text(v) =~= ascii_column(r, n));
    } else {
        assert(ascii_spans(prev, bytes, o, k, n) =~= Seq::empty());
        assert(ascii_column(r, n) =~= Seq::empty());
    }
}

/// Marking changes nothing in the text: a drawn row reads like a printed one.
pub proof fn law_drawn_row_reads_like_printed(
    prev: Option<Seq<u8>>,
    bytes: Seq<u8>,
    o: DumpOptions,
    k: int,
)
    ensures
        spans_text(row_spans(prev, bytes, o, k)) == row_line(
            (o.address + k * o.width) as nat,
            row(bytes, o.width as int, k),
            o,
        ),
{
    let head = ("0x"@ + hex((o.address + k * o.width) as nat, 8) + "  "@, false);
    let h = hex_spans(prev, bytes, o, k, o.width as int);
    let left = seq![head] + h;
    lemma_spans_text_one(head);
    lemma_spans_text_concat(seq![head], h);
    lemma_hex_text(prev, bytes, o, k, o.width as int);
    if o.show_ascii {
        let bar = ("  |"@, false);
        let end = ("|"@, false);
        let a = ascii_spans(prev, bytes, o, k, o.width as int);
        lemma_spans_text_one(bar);
        lemma_spans_text_one(end);
        lemma_ascii_text(prev, bytes, o, k, o.width as int);
        lemma_spans_text_concat(left, seq![bar]);
        lemma_spans_text_concat(left + seq![bar], a);
        lemma_spans_text_concat(left + seq![bar] + a, seq![end]);
    }
}

/// A picture that equals the one before it, and the first picture, have no mark.
pub proof fn law_no_mark_without_change(bytes: Seq<u8>, i: int)
    requires
        0 <= i < bytes.len(),
    ensures
        !changed_at(None, bytes, i),
        !changed_at(Some(bytes), bytes, i),
{
}

// ---------------------------------------------------------------------------
// The state between two pictures
// ---------------------------------------------------------------------------

/// A key or a turn of the wheel.
#[derive(Debug, Clone, Copy, PartialEq, Eq, Structural)]
pub enum DumpKey {
    Char(char),
    Esc,
    Up,
    Down,
    PageUp,
    PageDown,
    Home,
    End,
    WheelDown,
    WheelUp,
    Other,
}

/// Where `End` scrolls to; the next picture clamps it.
pub open spec fn far_end() -> usize {
    usize::MAX / 2
}

/// The sum, at most the largest value.
pub open spec fn saturating_sum(a: usize, b: usize) -> usize {
    if a + b > usize::MAX {
        usize::MAX
    } else {
        (a + b) as usize
    }
}

/// The difference, at least zero.
pub open spec fn saturating_difference(a: usize, b: usize) -> usize {
    if a < b {
        0
    } else {
        (a - b) as usize
    }
}

/// The rows that a page key moves by.
pub open spec fn page(visible: usize) -> usize {
    if visible == 0 {
        1
    } else {
        visible
    }
}

/// The scroll position after a key; none where the key ends the display.
pub open spec fn scrolled(scroll: usize, visible: usize, key: DumpKey) -> Option<usize> {
    match key {
        DumpKey::Esc => None,
        DumpKey::Char(c) => if c == 'q' || c == 'c' {
            None
        } else if c == 'k' {
            Some(saturating_difference(scroll, 1))
        } else if c == 'j' {
            Some(saturating_sum(scroll, 1))
        } else {
            Some(scroll)
        },
        DumpKey::Up => Some(saturating_difference(scroll, 1)),
        DumpKey::Down => Some(saturating_sum(scroll, 1)),
        DumpKey::PageUp => Some(saturating_difference(scroll, page(visible))),
        DumpKey::PageDown => Some(saturating_sum(scroll, page(visible))),
        DumpKey::Home => Some(0),
        DumpKey::End => Some(far_end()),
        DumpKey::WheelDown => Some(saturating_sum(scroll, 3)),
        DumpKey::WheelUp => Some(saturating_difference(scroll, 3)),
        DumpKey::Other => Some(scroll),
    }
}

/// What is drawn.
#[derive(Debug)]
pub enum DumpPicture {
    /// The wording of the failure of the last sample.
    Failure(String),
    /// The pieces of each row.
    Rows(Vec<Vec<DumpSpan>>),
}

/// The state of a redrawn dump.
#[derive(Debug)]
pub struct DumpWatch {
    /// The last sample; empty where it failed.
    pub bytes: Vec<u8>,
    /// The sample of the last picture.
    pub prev: Option<Vec<u8>>,
    /// The failure of the last sample.
    pub error: Option<String>,
    /// The first row on the screen.
    pub scroll: usize,
    /// The rows that fit on the screen.
    pub visible: usize,
}

/// The sample of the picture before.
pub open spec fn prev_view(prev: Option<Vec<u8>>) -> Option<Seq<u8>> {
    match prev {
        Some(p) => Some(p@),
        None => None,
    }
}

/// The time between two samples in milliseconds: at least ten.
pub fn sample_interval(interval_ms: u64) -> (r: u64)
    ensures
        r == if interval_ms < 10 {
            10
        } else {
            interval_ms as int
        },
{
    if interval_ms < 10 {
        10
    } else {
        interval_ms
    }
}

fn copy_bytes(v: &[u8]) -> (r: Vec<u8>)
    ensures
        r@ == v@,
{
    let mut r: Vec<u8> = Vec::new();
    let mut i: usize = 0;
    while i < v.len()
        invariant
            i <= v.len(),
            r@ == v@.take(i as int),
        decreases v.len() - i,
    {
        r.push(v[i]);
        assert(v@.take(i + 1) =~= v@.take(i as int).push(v@[i as int]));
        i += 1;
    }
    assert(v@.take(i as int) =~= v@);
    r
}

impl DumpWatch {
    /// The state before the first sample.
    pub fn new() -> (r: DumpWatch)
        ensures
            r.bytes@.len() == 0,
            r.prev is None,
            r.error is None,
            r.scroll == 0,
            r.visible == 10,
    {
        DumpWatch { bytes: Vec::new(), prev: None, error: None, scroll: 0, visible: 10 }
    }

    /// Takes a sample in. A failed one leaves no bytes.
    pub fn sample(&mut self, outcome: Result<Vec<u8>, String>)
        ensures
            match outcome {
                Ok(b) => final(self).bytes@ == b@ && final(self).error is None,
                Err(e) => final(self).bytes@.len() == 0 && final(self).error == Some(e),
            },
            final(self).prev == old(self).prev,
            final(self).scroll == old(self).scroll,
            final(self).visible == old(self).visible,
    {
        match outcome {
            Ok(b) => {
                self.bytes = b;
                self.error = None;
            },
            Err(e) => {
                self.bytes = Vec::new();
                self.error = Some(e);
            },
        }
    }

    fn changed(&self, i: usize) -> (r: bool)
        requires
            i < self.bytes@.len(),
        ensures
            r == changed_at(prev_view(self.prev), self.bytes@, i as int),
    {
        match &self.prev {
            None => false,
            Some(p) => i >= p.len() || p[i] != self.bytes[i],
        }
    }

    fn row_of(&self, opts: &DumpOptions, start: usize, Ghost(k): Ghost<int>) -> (r: Vec<DumpSpan>)
        requires
            opts.width > 0,
            opts.group > 0,
            0 <= k,
            start == k * opts.width,
            start < self.bytes@.len(),
            opts.address + self.bytes@.len() <= u64::MAX,
        ensures
            span_views(r@) == row_spans(prev_view(self.prev), self.bytes@, *opts, k),
    {
        let ghost prev = prev_view(self.prev);
        let ghost bytes = self.bytes@;
        let ghost w = opts.width as int;
        proof {
            lemma_row_bounds(bytes.len() as int, w, k);
        }
        let total: usize = self.bytes.len();
        let left: usize = total - start;
        let row_len: usize = if left < opts.width {
            left
        } else {
            opts.width
        };
        let here: &[u8] = slice_subrange(self.bytes.as_slice(), start, start + row_len);
        assert(here@ =~= row(bytes, w, k));
        let mut r: Vec<DumpSpan> = Vec::new();
        let mut head: String = String::from_str("0x");
        head.append(hex_text(opts.address + start as u64, 8).as_str());
        head.append("  ");
        r.push(DumpSpan { text: head, changed: false });
        let ghost first = seq![("0x"@ + hex((opts.address + k * w) as nat, 8) + "  "@, false)];
        assert(span_views(r@) =~= first);
        assert(first + hex_spans(prev, bytes, *opts, k, 0) =~= first);
        let mut i: usize = 0;
        while i < opts.width
            invariant
                i <= opts.width,
                opts.group > 0,
                w == opts.width,
                prev == prev_view(self.prev),
                bytes == self.bytes@,
                start == k * w,
                row_len == here@.len(),
                start + row_len <= total,
                total == bytes.len(),
                here@ == row(bytes, w, k),
                forall|j: int| 0 <= j < row_len ==> here@[j] == bytes[start + j],
                span_views(r@) == first + hex_spans(prev, bytes, *opts, k, i as int),
            decreases opts.width - i,
        {
            let ghost before = span_views(r@);
            if i > 0 {
                r.push(DumpSpan { text: String::from_str(" "), changed: false });
                if i % opts.group == 0 {
                    r.push(DumpSpan { text: String::from_str(" "), changed: false });
                }
            }
            assert(span_views(r@) =~= before + gap_spans(i as int, opts.group as int));
            let ghost spaced = span_views(r@);
            if i < row_len {
                r.push(
                    DumpSpan {
                        text: hex_text(here[i] as u64, 2),
                        changed: self.changed(start + i),
                    },
                );
            } else {
                r.push(DumpSpan { text: String::from_str("  "), changed: false });
            }
            let ghost cell = if i < row_len {
                (hex(here@[i as int] as nat, 2), changed_at(prev, bytes, start + i))
            } else {
                ("  "@, false)
            };
            assert(span_views(r@) =~= spaced.push(cell));
            assert(span_views(r@) =~= first + hex_spans(prev, bytes, *opts, k, i + 1));
            i += 1;
        }
        if opts.show_ascii {
            let ghost before = span_views(r@);
            r.push(DumpSpan { text: String::from_str("  |"), changed: false });
            let ghost left = before + seq![("  |"@, false)];
            assert(span_views(r@) =~= left);
            assert(left + ascii_spans(prev, bytes, *opts, k, 0) =~= left);
            let mut j: usize = 0;
            while j < opts.width
                invariant
                    j <= opts.width,
                    w == opts.width,
                    prev == prev_view(self.prev),
                    bytes == self.bytes@,
                    start == k * w,
                    row_len == here@.len(),
                    start + row_len <= total,
                    total == bytes.len(),
                    here@ == row(bytes, w, k),
                    span_views(r@) == left + ascii_spans(prev, bytes, *opts, k, j as int),
                decreases opts.width - j,
            {
                let mut text: String = String::new();
                text.push(ascii_char(here, j));
                assert(text@ =~= seq![ascii_cell(here@, j as int)]);
                let changed: bool = j < row_len && self.changed(start + j);
                let ghost before = span_views(r@);
                r.push(DumpSpan { text, changed });
                assert(span_views(r@) =~= before.push((seq![ascii_cell(here@, j as int)], changed)));
                assert(span_views(r@) =~= left + ascii_spans(prev, bytes, *opts, k, j + 1));
                j += 1;
            }
            let ghost before = span_views(r@);
            r.push(DumpSpan { text: String::from_str("|"), changed: false });
            assert(span_views(r@) =~= before + seq![("|"@, false)]);
        }
        r
    }

    /// The picture of the last sample.
    pub fn picture(&self, opts: &DumpOptions) -> (r: DumpPicture)
        requires
            opts.width > 0,
            opts.group > 0,
            opts.address + self.bytes@.len() <= u64::MAX,
        ensures
            match self.error {
                Some(e) => r matches DumpPicture::Failure(t) && t@ == e@,
                None => {
                    &&& r matches DumpPicture::Rows(rows)
                    &&& rows@.len() == row_count(self.bytes@.len() as int, opts.width as int)
                    &&& forall|k: int|
                        0 <= k < rows@.len() ==> span_views((#[trigger] rows@[k])@) == row_spans(
                            prev_view(self.prev),
                            self.bytes@,
                            *opts,
                            k,
                        )
                },
            },
    {
        if let Some(e) = &self.error {
            return DumpPicture::Failure(String::from_str(e.as_str()));
        }
        let mut rows: Vec<Vec<DumpSpan>> = Vec::new();
        let ghost w = opts.width as int;
        let ghost len = self.bytes@.len() as int;
        let mut start: usize = 0;
        proof {
            assert(0 * w == 0) by (nonlinear_arith);
            if len == 0 {
                assert(row_count(len, w) == 0) by (nonlinear_arith)
                    requires
                        w > 0,
                        len == 0,
                        row_count(len, w) == (len + w - 1) / w,
                ;
            }
        }
        while start < self.bytes.len()
            invariant
                opts.group > 0,
                w == opts.width,
                w > 0,
                len == self.bytes@.len(),
                opts.address + len <= u64::MAX,
                start <= len,
                start < len ==> start == rows@.len() * w,
                start == len ==> rows@.len() == row_count(len, w),
                forall|k: int|
                    0 <= k < rows@.len() ==> span_views((#[trigger] rows@[k])@) == row_spans(
                        prev_view(self.prev),
                        self.bytes@,
                        *opts,
                        k,
                    ),
            decreases len - start,
        {
            let ghost k = rows@.len() as int;
            proof {
                lemma_row_bounds(len, w, k);
            }
            rows.push(self.row_of(opts, start, Ghost(k)));
            let left: usize = self.bytes.len() - start;
            if left < opts.width {
                start += left;
            } else {
                start += opts.width;
            }
            proof {
                if start == len {
                    assert(k + 1 == row_count(len, w)) by (nonlinear_arith)
                        requires
                            w > 0,
                            k * w < len,
                            (k + 1) * w == k * w + w,
                            len <= (k + 1) * w,
                            row_count(len, w) == (len + w - 1) / w,
                    ;
                }
            }
        }
        DumpPicture::Rows(rows)
    }

    /// Fits the scroll position to a screen of that height that shows `lines`
    /// lines inside a frame, and remembers the sample as the one drawn.
    pub fn drawn(&mut self, height: u16, lines: usize)
        ensures
            final(self).visible == saturating_difference(height as usize, 2),
            final(self).scroll == if old(self).scroll < saturating_difference(
                lines,
                final(self).visible,
            ) {
                old(self).scroll
            } else {
                saturating_difference(lines, final(self).visible)
            },
            prev_view(final(self).prev) == Some(old(self).bytes@),
            final(self).bytes == old(self).bytes,
            final(self).error == old(self).error,
    {
        let visible: usize = if height < 2 {
            0
        } else {
            height as usize - 2
        };
        let most: usize = if lines < visible {
            0
        } else {
            lines - visible
        };
        self.visible = visible;
        if self.scroll >= most {
            self.scroll = most;
        }
        self.prev = Some(copy_bytes(self.bytes.as_slice()));
    }

    /// Acts on a key; `true` where the key ends the display.
    pub fn key(&mut self, key: DumpKey) -> (quit: bool)
        ensures
            quit == (scrolled(old(self).scroll, old(self).visible, key) is None),
            match scrolled(old(self).scroll, old(self).visible, key) {
                Some(s) => *final(self) == (DumpWatch { scroll: s, ..*old(self) }),
                None => *final(self) == *old(self),
            },
    {
        let page: usize = if self.visible == 0 {
            1
        } else {
            self.visible
        };
        match key {
            DumpKey::Esc => {
                return true;
            },
            DumpKey::Char(c) => {
                if c == 'q' || c == 'c' {
                    return true;
                } else if c == 'k' {
                    self.scroll = self.scroll.saturating_sub(1);
                } else if c == 'j' {
                    self.scroll = self.scroll.saturating_add(1);
                }
            },
            DumpKey::Up => {
                self.scroll = self.scroll.saturating_sub(1);
            },
            DumpKey::Down => {
                self.scroll = self.scroll.saturating_add(1);
            },
            DumpKey::PageUp => {
                self.scroll = self.scroll.saturating_sub(page);
            },
            DumpKey::PageDown => {
                self.scroll = self.scroll.saturating_add(page);
            },
            DumpKey::Home => {
                self.scroll = 0;
            },
            DumpKey::End => {
                self.scroll = usize::MAX / 2;
            },
            DumpKey::WheelDown => {
                self.scroll = self.scroll.saturating_add(3);
            },
            DumpKey::WheelUp => {
                self.scroll = self.scroll.saturating_sub(3);
            },
            DumpKey::Other => {},
        }
        false
    }
}

/// The title of the frame.
pub fn dump_title(opts: &DumpOptions, interval_ms: u64, seconds: u64) -> (r: String)
    ensures
        r@ == " tscope hexdump --watch [0x"@ + hex(opts.address as nat, 8) + " +"@ + dec(
            opts.length as nat,
        ) + " 字节] — 每 "@ + dec(interval_ms as nat) + " ms 采样，已运行 "@ + dec(
            seconds as nat,
        ) + " s — 变化字节黄色高亮，↑↓/PgUp/PgDn/滚轮 滚动，q/Esc 退出 "@,
{
    let mut s: String = String::from_str(" tscope hexdump --watch [0x");
    s.append(hex_text(opts.address, 8).as_str());
    s.append(" +");
    s.append(dec_text(opts.length).as_str());
    s.append(" 字节] — 每 ");
    s.append(dec_text(interval_ms).as_str());
    s.append(" ms 采样，已运行 ");
    s.append(dec_text(seconds).as_str());
    s.append(
        " s — 变化字节黄色高亮，↑↓/PgUp/PgDn/滚轮 滚动，q/Esc 退出 ",
    );
    s
}

/// A byte is marked where the picture before showed another one there, in both
/// columns, and only there.
pub proof fn law_changed_bytes_are_marked(
    prev: Seq<u8>,
    bytes: Seq<u8>,
    o: DumpOptions,
    k: int,
    i: int,
)
    requires
        o.width > 0,
        0 <= k,
        0 <= i < o.width,
        k * o.width + i < bytes.len(),
        prev.len() == bytes.len(),
    ensures
        ({
            let byte = bytes[k * o.width + i];
            let differs = byte != prev[k * o.width + i];
            &&& hex_spans(Some(prev), bytes, o, k, o.width as int).contains(
                (hex(byte as nat, 2), differs),
            )
            &&& ascii_spans(Some(prev), bytes, o, k, o.width as int)[i].1 == differs
            &&& ascii_spans(None, bytes, o, k, o.width as int)[i].1 == false
        }),
{
    let w = o.width as int;
    assert(0 <= k * w) by (nonlinear_arith)
        requires
            0 <= k,
            w > 0,
    ;
    lemma_row_bounds(bytes.len() as int, w, k);
    let r = row(bytes, w, k);
    assert(i < r.len() && r[i] == bytes[k * w + i]);
    lemma_span_of_byte(Some(prev), bytes, o, k, w, i);
}

proof fn lemma_span_of_byte(
    prev: Option<Seq<u8>>,
    bytes: Seq<u8>,
    o: DumpOptions,
    k: int,
    n: int,
    i: int,
)
    requires
        0 <= i < n,
        i < row(bytes, o.width as int, k).len(),
    ensures
        hex_spans(prev, bytes, o, k, n).contains(
            (
                hex(row(bytes, o.width as int, k)[i] as nat, 2),
                changed_at(prev, bytes, k * o.width + i),
            ),
        ),
    decreases n,
{
    let all = hex_spans(prev, bytes, o, k, n);
    let front = hex_spans(prev, bytes, o, k, n - 1);
    let cell = (
        hex(row(bytes, o.width as int, k)[i] as nat, 2),
        changed_at(prev, bytes, k * o.width + i),
    );
    if i < n - 1 {
        lemma_span_of_byte(prev, bytes, o, k, n - 1, i);
        let j = choose|j: int| 0 <= j < front.len() && front[j] == cell;
        assert(all[j] == cell);
    } else {
        assert(all.last() == cell);
        assert(all[all.len() - 1] == cell);
    }
}

/// Scrolling by rows, by pages and with the wheel, and back: what one key does its
/// opposite undoes, unless an end is in the way.
pub proof fn law_scrolling_back(scroll: usize, visible: usize)
    requires
        3 <= scroll,
        1 <= visible <= scroll,
        scroll + visible < usize::MAX,
        scroll + 3 < usize::MAX,
    ensures
        scrolled(scroll, visible, DumpKey::Down) == Some((scroll + 1) as usize),
        scrolled(scroll, visible, DumpKey::Up) == Some((scroll - 1) as usize),
        scrolled(scroll, visible, DumpKey::PageDown) == Some((scroll + visible) as usize),
        scrolled(scroll, visible, DumpKey::PageUp) == Some((scroll - visible) as usize),
        scrolled(scroll, visible, DumpKey::WheelDown) == Some((scroll + 3) as usize),
        scrolled(scroll, visible, DumpKey::WheelUp) == Some((scroll - 3) as usize),
        scrolled(scroll, visible, DumpKey::Char('j')) == scrolled(scroll, visible, DumpKey::Down),
        scrolled(scroll, visible, DumpKey::Char('k')) == scrolled(scroll, visible, DumpKey::Up),
        scrolled(scroll, visible, DumpKey::Home) == Some(0usize),
        scrolled(scroll, visible, DumpKey::End) matches Some(s) && s >= usize::MAX / 2,
        scrolled(scroll, visible, DumpKey::Char('q')) is None,
        scrolled(scroll, visible, DumpKey::Esc) is None,
        scrolled(0, visible, DumpKey::Up) == Some(0usize),
{
}

}
