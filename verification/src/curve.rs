//! Curves: the stretches between missing values, and their export.
use std::collections::VecDeque;
use vstd::prelude::*;
use crate::csv::{csv_field, field};
use crate::double::Double;
use crate::number::{dec, dec_wide_text, pad_left, pad_left_text};
use crate::plot_app::Point;
use crate::text::{join, views};

verus! {

// ---------------------------------------------------------------------------
// Stretches
// ---------------------------------------------------------------------------

/// The stretches of the first points of a curve, and the one that is open.
pub struct Runs {
    pub done: Seq<Seq<Point>>,
    pub open: Seq<Point>,
}

/// The stretches with the open one closed, if there is one.
pub open spec fn closed(r: Runs) -> Seq<Seq<Point>> {
    if r.open.len() > 0 {
        r.done.push(r.open)
    } else {
        r.done
    }
}

/// The stretches of a curve: a missing value ends one.
pub open spec fn runs(points: Seq<Point>) -> Runs
    decreases points.len(),
{
    if points.len() == 0 {
        Runs { done: Seq::empty(), open: Seq::empty() }
    } else {
        let r = runs(points.drop_last());
        if points.last().1.nan() {
            Runs { done: closed(r), open: Seq::empty() }
        } else {
            Runs { done: r.done, open: r.open.push(points.last()) }
        }
    }
}

/// The stretches of a curve.
pub open spec fn segments(points: Seq<Point>) -> Seq<Seq<Point>> {
    closed(runs(points))
}

/// A stretch of a curve. The first one carries the name of the curve, so that
/// the legend shows it once.
#[derive(Debug)]
pub struct Segment {
    pub named: bool,
    pub points: Vec<Point>,
}

/// The points of stretches.
pub open spec fn segment_views(v: Seq<Segment>) -> Seq<Seq<Point>> {
    v.map_values(|s: Segment| s.points@)
}

/// Cuts a curve at its missing values.
pub fn line_segments(points: &[Point]) -> (r: Vec<Segment>)
    ensures
        segment_views(r@) == segments(points@),
        forall|k: int| 0 <= k < r@.len() ==> (#[trigger] r@[k]).named == (k == 0),
{
    let mut segs: Vec<Segment> = Vec::new();
    let mut run: Vec<Point> = Vec::new();
    let mut i: usize = 0;
    assert(segment_views(segs@) =~= Seq::empty());
    while i < points.len()
        invariant
            i <= points@.len(),
            segment_views(segs@) == runs(points@.take(i as int)).done,
            run@ == runs(points@.take(i as int)).open,
            forall|k: int| 0 <= k < segs@.len() ==> (#[trigger] segs@[k]).named == (k == 0),
        decreases points@.len() - i,
    {
        assert(points@.take(i + 1).drop_last() =~= points@.take(i as int));
        let p: Point = points[i];
        if p.1.is_nan() {
            flush_run(&mut segs, run);
            run = Vec::new();
        } else {
            run.push(p);
        }
        i += 1;
    }
    assert(points@.take(i as int) =~= points@);
    flush_run(&mut segs, run);
    segs
}

fn flush_run(segs: &mut Vec<Segment>, run: Vec<Point>)
    requires
        forall|k: int| 0 <= k < old(segs)@.len() ==> (#[trigger] old(segs)@[k]).named == (k == 0),
    ensures
        segment_views(final(segs)@) == closed(
            (Runs { done: segment_views(old(segs)@), open: run@ }),
        ),
        forall|k: int| 0 <= k < final(segs)@.len() ==> (#[trigger] final(segs)@[k]).named == (k
            == 0),
{
    if run.len() == 0 {
        return ;
    }
    let named: bool = segs.len() == 0;
    let ghost before = segment_views(segs@);
    let ghost points = run@;
    segs.push(Segment { named, points: run });
    assert(segment_views(segs@) =~= before.push(points));
}

/// Stretches put together again.
pub open spec fn joined(v: Seq<Seq<Point>>) -> Seq<Point>
    decreases v.len(),
{
    if v.len() == 0 {
        Seq::empty()
    } else {
        joined(v.drop_last()) + v.last()
    }
}

/// Whether a point has a value.
pub open spec fn present(p: Point) -> bool {
    !p.1.nan()
}

proof fn lemma_runs(points: Seq<Point>)
    ensures
        joined(runs(points).done) + runs(points).open == points.filter(|p: Point| present(p)),
        forall|k: int|
            0 <= k < runs(points).done.len() ==> (#[trigger] runs(points).done[k]).len() > 0,
    decreases points.len(),
{
    reveal(Seq::filter);
    let f = |p: Point| present(p);
    if points.len() > 0 {
        let front = points.drop_last();
        lemma_runs(front);
        let r = runs(front);
        let all = runs(points);
        assert(closed(r).len() > 0 && r.open.len() > 0 ==> closed(r).drop_last() =~= r.done);
        if points.last().1.nan() {
            if r.open.len() > 0 {
                assert(joined(all.done) + all.open =~= joined(r.done) + r.open);
            } else {
                assert(joined(all.done) + all.open =~= joined(r.done) + r.open);
            }
            assert(points.filter(f) =~= front.filter(f));
        } else {
            assert(joined(all.done) + all.open =~= (joined(r.done) + r.open).push(points.last()));
            assert(points.filter(f) =~= front.filter(f).push(points.last()));
        }
    } else {
        assert(joined(runs(points).done) + runs(points).open =~= points.filter(f));
    }
}

/// The stretches of a curve hold its values, all of them and in order, and no
/// stretch is empty.
pub proof fn law_segments_hold_all_values(points: Seq<Point>)
    ensures
        joined(segments(points)) == points.filter(|p: Point| present(p)),
        forall|k: int| 0 <= k < segments(points).len() ==> (#[trigger] segments(points)[k]).len()
            > 0,
{
    lemma_runs(points);
    let r = runs(points);
    if r.open.len() > 0 {
        assert(segments(points).drop_last() =~= r.done);
    } else {
        assert(joined(r.done) + r.open =~= joined(r.done));
    }
}

// ---------------------------------------------------------------------------
// Export
// ---------------------------------------------------------------------------

/// The text of each number.
pub type ValueTexts = spec_fn(Double) -> Seq<char>;

/// Whether a writer of numbers answers as `texts` does.
pub open spec fn shows<F: Fn(Double) -> String>(show: F, texts: ValueTexts) -> bool {
    forall|v: Double, r: String| #[trigger] call_ensures(show, (v,), r) ==> r@ == texts(v)
}

/// Whether a writer of numbers takes any of them.
pub open spec fn shows_any<F: Fn(Double) -> String>(show: F) -> bool {
    forall|v: Double| call_requires(show, (v,))
}

/// A time in whole microseconds: the nearest one, and the even one of two that
/// are equally near.
pub open spec fn to_micros(ns: int) -> int {
    let q = ns / 1000;
    let r = ns % 1000;
    if r > 500 || (r == 500 && q % 2 == 1) {
        q + 1
    } else {
        q
    }
}

/// A time in seconds with six decimals.
pub open spec fn seconds_text(ns: int) -> Seq<char> {
    let m = to_micros(if ns < 0 {
        -ns
    } else {
        ns
    });
    (if ns < 0 {
        "-"@
    } else {
        Seq::empty()
    }) + dec((m / 1_000_000) as nat) + "."@ + pad_left(dec((m % 1_000_000) as nat), 6, '0')
}

/// Writes a time in seconds with six decimals.
pub fn time_text(ns: i128) -> (r: String)
    ensures
        r@ == seconds_text(ns as int),
{
    let mut s: String = String::new();
    let size: u128 = if ns < 0 {
        s.append("-");
        (-(ns + 1)) as u128 + 1
    } else {
        ns as u128
    };
    assert(s@ =~= if ns < 0 {
        "-"@
    } else {
        Seq::empty()
    });
    let q: u128 = size / 1000;
    let r: u128 = size % 1000;
    let m: u128 = if r > 500 || (r == 500 && q % 2 == 1) {
        q + 1
    } else {
        q
    };
    s.append(dec_wide_text(m / 1_000_000).as_str());
    s.append(".");
    let fraction: String = dec_wide_text(m % 1_000_000);
    s.append(pad_left_text(fraction.as_str(), 6, '0').as_str());
    s
}

/// The views of curves.
pub open spec fn curve_views(h: Seq<VecDeque<Point>>) -> Seq<Seq<Point>> {
    h.map_values(|c: VecDeque<Point>| c@)
}

/// The number of points of the longest of the first `n` curves.
pub open spec fn longest(h: Seq<Seq<Point>>, n: int) -> nat
    decreases n,
{
    if n <= 0 {
        0
    } else if h[n - 1].len() > longest(h, n - 1) {
        h[n - 1].len()
    } else {
        longest(h, n - 1)
    }
}

/// The first row from `k` on that is in the window, which ends with the last
/// point of the curve.
pub open spec fn first_in_window(c: Seq<Point>, window: int, k: nat) -> nat
    decreases c.len() - k,
{
    if k >= c.len() {
        0
    } else if c[k as int].0 >= c.last().0 - window {
        k
    } else {
        first_in_window(c, window, k + 1)
    }
}

/// The names of the columns: the first `n` channels.
pub open spec fn header_columns(names: Seq<Seq<char>>, n: int) -> Seq<char>
    decreases n,
{
    if n <= 0 {
        "t"@
    } else {
        header_columns(names, n - 1) + ","@ + field(names[n - 1])
    }
}

/// The cell of a curve in row `k`: empty where the value is missing.
pub open spec fn cell(c: Seq<Point>, k: int, texts: ValueTexts) -> Seq<char> {
    if k < c.len() && !c[k].1.nan() {
        texts(c[k].1)
    } else {
        Seq::empty()
    }
}

/// Row `k`: the time, and the cells of the first `n` curves.
pub open spec fn row_columns(h: Seq<Seq<Point>>, k: int, n: int, texts: ValueTexts) -> Seq<char>
    decreases n,
{
    if n <= 0 {
        seconds_text(
            if k < h[0].len() {
                h[0][k].0 as int
            } else {
                0
            },
        )
    } else {
        row_columns(h, k, n - 1, texts) + ","@ + cell(h[n - 1], k, texts)
    }
}

/// The rows from `from` to `to`, each with its newline.
pub open spec fn row_lines(h: Seq<Seq<Point>>, from: int, to: int, texts: ValueTexts) -> Seq<char>
    decreases to - from,
{
    if to <= from {
        Seq::empty()
    } else {
        row_lines(h, from, to - 1, texts) + row_columns(h, to - 1, h.len() as int, texts) + "\n"@
    }
}

/// The table of curves: a line of names, and a line for each row of the window.
pub open spec fn csv_text(
    names: Seq<Seq<char>>,
    h: Seq<Seq<Point>>,
    window: int,
    texts: ValueTexts,
) -> Seq<char> {
    header_columns(names, names.len() as int) + "\n"@ + row_lines(
        h,
        first_in_window(h[0], window, 0) as int,
        longest(h, h.len() as int) as int,
        texts,
    )
}

/// That there is nothing to export.
#[derive(Debug, Clone, Copy, PartialEq, Eq, Structural)]
pub struct NothingToExport;

impl NothingToExport {
    /// The wording of the failure.
    pub fn message(&self) -> (r: &'static str)
        ensures
            r@ == "还没有采样数据"@,
    {
        "还没有采样数据"
    }
}

/// The name of the file of an export that is made at `stamp`.
pub fn export_name(stamp: &str) -> (r: String)
    ensures
        r@ == "tscope-plot-export-"@ + stamp@ + ".csv"@,
{
    let mut s: String = String::from_str("tscope-plot-export-");
    s.append(stamp);
    s.append(".csv");
    s
}

/// Writes the table of the points in the rolling window.
pub fn export_csv<F: Fn(Double) -> String>(
    names: &[String],
    histories: &[VecDeque<Point>],
    window: u64,
    show: &F,
) -> (r: Result<String, NothingToExport>)
    requires
        shows_any(*show),
    ensures
        match r {
            Ok(text) => {
                &&& longest(curve_views(histories@), histories@.len() as int) > 0
                &&& forall|texts: ValueTexts| #[trigger]
                    shows(*show, texts) ==> text@ == csv_text(
                        views(names@),
                        curve_views(histories@),
                        window as int,
                        texts,
                    )
            },
            Err(_) => longest(curve_views(histories@), histories@.len() as int) == 0,
        },
{
    let ghost h = curve_views(histories@);
    let mut len: usize = 0;
    let mut c: usize = 0;
    while c < histories.len()
        invariant
            c <= histories@.len(),
            h == curve_views(histories@),
            len == longest(h, c as int),
        decreases histories@.len() - c,
    {
        assert(h[c as int] == histories@[c as int]@);
        if histories[c].len() > len {
            len = histories[c].len();
        }
        c += 1;
    }
    if len == 0 {
        return Err(NothingToExport);
    }
    let first: &VecDeque<Point> = &histories[0];
    assert(h[0] == first@);
    let start: usize = window_start(first, window);
    let mut s: String = String::from_str("t");
    let mut k: usize = 0;
    while k < names.len()
        invariant
            k <= names@.len(),
            s@ == header_columns(views(names@), k as int),
        decreases names@.len() - k,
    {
        s.append(",");
        s.append(csv_field(names[k].as_str()).as_str());
        assert(views(names@)[k as int] == names@[k as int]@);
        k += 1;
    }
    s.append("\n");
    let ghost head = s@;
    let mut row: usize = start;
    assert forall|texts: ValueTexts| #[trigger] shows(*show, texts) implies s@ == head + row_lines(
        h,
        start as int,
        row as int,
        texts,
    ) by {
        assert(head + row_lines(h, start as int, row as int, texts) =~= head);
    }
    while row < len
        invariant
            shows_any(*show),
            h == curve_views(histories@),
            histories@.len() > 0,
            *first == histories@[0],
            start <= row,
            forall|texts: ValueTexts| #[trigger]
                shows(*show, texts) ==> s@ == head + row_lines(
                    h,
                    start as int,
                    if row < len {
                        row as int
                    } else if start < len {
                        len as int
                    } else {
                        start as int
                    },
                    texts,
                ),
            start < len ==> row <= len,
        decreases len - row,
    {
        let line: String = row_text(histories, row, show);
        let ghost before = s@;
        s.append(line.as_str());
        s.append("\n");
        assert forall|texts: ValueTexts| #[trigger] shows(*show, texts) implies s@ == head
            + row_lines(h, start as int, row + 1, texts) by {
            assert(s@ =~= head + row_lines(h, start as int, row + 1, texts));
        }
        row += 1;
    }
    proof {
        assert forall|texts: ValueTexts| #[trigger] shows(*show, texts) implies s@ == csv_text(
            views(names@),
            h,
            window as int,
            texts,
        ) by {}
    }
    Ok(s)
}

fn window_start(c: &VecDeque<Point>, window: u64) -> (r: usize)
    ensures
        r == first_in_window(c@, window as int, 0),
        c@.len() > 0 ==> r < c@.len(),
{
    let n: usize = c.len();
    if n == 0 {
        return 0;
    }
    let last: i128 = c[n - 1].0;
    let width: i128 = window as i128;
    let edge: i128 = if last < i128::MIN + width {
        i128::MIN
    } else {
        last - width
    };
    let mut k: usize = 0;
    while k < n
        invariant
            n == c@.len(),
            n > 0,
            k <= n,
            edge == c@.last().0 - window || (edge == i128::MIN && c@.last().0 - window < edge),
            first_in_window(c@, window as int, 0) == first_in_window(c@, window as int, k as nat),
        decreases n - k,
    {
        if c[k].0 >= edge {
            return k;
        }
        k += 1;
    }
    0
}

fn row_text<F: Fn(Double) -> String>(histories: &[VecDeque<Point>], k: usize, show: &F) -> (r:
    String)
    requires
        shows_any(*show),
        histories@.len() > 0,
    ensures
        forall|texts: ValueTexts| #[trigger]
            shows(*show, texts) ==> r@ == row_columns(
                curve_views(histories@),
                k as int,
                histories@.len() as int,
                texts,
            ),
{
    let ghost h = curve_views(histories@);
    let first: &VecDeque<Point> = &histories[0];
    assert(h[0] == histories@[0]@);
    let t: i128 = if k < first.len() {
        first[k].0
    } else {
        0
    };
    let mut s: String = time_text(t);
    let mut c: usize = 0;
    while c < histories.len()
        invariant
            shows_any(*show),
            c <= histories@.len(),
            h == curve_views(histories@),
            forall|texts: ValueTexts| #[trigger]
                shows(*show, texts) ==> s@ == row_columns(h, k as int, c as int, texts),
        decreases histories@.len() - c,
    {
        let curve: &VecDeque<Point> = &histories[c];
        assert(h[c as int] == curve@);
        let ghost before = s@;
        s.append(",");
        let mut text: String = String::new();
        if k < curve.len() {
            let v: Double = curve[k].1;
            if !v.is_nan() {
                text = show(v);
            }
        }
        s.append(text.as_str());
        assert forall|texts: ValueTexts| #[trigger] shows(*show, texts) implies s@ == row_columns(
            h,
            k as int,
            c + 1,
            texts,
        ) by {
            assert(text@ =~= cell(h[c as int], k as int, texts));
        }
        c += 1;
    }
    s
}

// ---------------------------------------------------------------------------
// What an export holds
// ---------------------------------------------------------------------------

/// A row of an export is its time and a cell for each channel, in order, between
/// commas; a missing value has an empty cell. The first line names the channels in
/// the same order.
pub proof fn law_exported_rows(
    names: Seq<Seq<char>>,
    h: Seq<Seq<Point>>,
    k: int,
    n: int,
    texts: ValueTexts,
)
    requires
        0 <= n <= h.len(),
        h.len() > 0,
        0 <= k < h[0].len(),
        names.len() == h.len(),
    ensures
        row_columns(h, k, n, texts) == join(
            seq![seconds_text(h[0][k].0 as int)] + Seq::new(
                n as nat,
                |c: int|
                    if k < h[c].len() && !h[c][k].1.nan() {
                        texts(h[c][k].1)
                    } else {
                        Seq::empty()
                    },
            ),
            ","@,
        ),
        header_columns(names, n) == join(
            seq!["t"@] + Seq::new(n as nat, |c: int| field(names[c])),
            ","@,
        ),
    decreases n,
{
    let cells = Seq::new(
        n as nat,
        |c: int|
            if k < h[c].len() && !h[c][k].1.nan() {
                texts(h[c][k].1)
            } else {
                Seq::empty()
            },
    );
    let labels = Seq::new(n as nat, |c: int| field(names[c]));
    let time = seq![seconds_text(h[0][k].0 as int)];
    if n == 0 {
        assert(time + cells =~= time);
        assert(seq!["t"@] + labels =~= seq!["t"@]);
    } else {
        law_exported_rows(names, h, k, n - 1, texts);
        let fewer = Seq::new(
            (n - 1) as nat,
            |c: int|
                if k < h[c].len() && !h[c][k].1.nan() {
                    texts(h[c][k].1)
                } else {
                    Seq::empty()
                },
        );
        let before = Seq::new((n - 1) as nat, |c: int| field(names[c]));
        assert((time + cells).drop_last() =~= time + fewer);
        assert((seq!["t"@] + labels).drop_last() =~= seq!["t"@] + before);
        assert((time + cells).last() == cells[n - 1]);
        assert((seq!["t"@] + labels).last() == labels[n - 1]);
    }
}

/// Texts of rows, each with its newline.
pub open spec fn with_newlines(rows: Seq<Seq<char>>) -> Seq<char>
    decreases rows.len(),
{
    if rows.len() == 0 {
        Seq::empty()
    } else {
        with_newlines(rows.drop_last()) + rows.last().push('\n')
    }
}

/// An export is the line of names and a line for each row from the first one in
/// the window to the last one of the longest curve.
pub proof fn law_exports_hold_the_window(
    names: Seq<Seq<char>>,
    h: Seq<Seq<Point>>,
    window: int,
    texts: ValueTexts,
    rows: Seq<Seq<char>>,
    from: int,
    to: int,
)
    requires
        h.len() > 0,
        0 <= from <= to,
        from < h[0].len(),
        h[0][from].0 >= h[0].last().0 - window,
        forall|k: int| 0 <= k < from ==> (#[trigger] h[0][k]).0 < h[0].last().0 - window,
        forall|c: int| 0 <= c < h.len() ==> (#[trigger] h[c]).len() <= to,
        exists|c: int| 0 <= c < h.len() && (#[trigger] h[c]).len() == to,
        rows.len() == to - from,
        forall|j: int|
            0 <= j < rows.len() ==> #[trigger] rows[j] == row_columns(
                h,
                from + j,
                h.len() as int,
                texts,
            ),
    ensures
        csv_text(names, h, window, texts) == header_columns(names, names.len() as int).push('\n')
            + with_newlines(rows),
{
    reveal_strlit("\n");
    lemma_first_in_window(h[0], window, 0, from);
    lemma_longest(h, h.len() as int);
    let c = choose|c: int| 0 <= c < h.len() && (#[trigger] h[c]).len() == to;
    assert(h[c].len() <= longest(h, h.len() as int));
    lemma_row_lines(h, from, to, texts, rows);
    let head = header_columns(names, names.len() as int);
    assert(head + "\n"@ =~= head.push('\n'));
}

proof fn lemma_first_in_window(c: Seq<Point>, window: int, k: nat, from: int)
    requires
        k <= from < c.len(),
        c[from].0 >= c.last().0 - window,
        forall|j: int| 0 <= j < from ==> (#[trigger] c[j]).0 < c.last().0 - window,
    ensures
        first_in_window(c, window, k) == from,
    decreases from - k,
{
    if k < from {
        assert(c[k as int].0 < c.last().0 - window);
        lemma_first_in_window(c, window, k + 1, from);
    }
}

proof fn lemma_longest(h: Seq<Seq<Point>>, n: int)
    requires
        0 <= n <= h.len(),
    ensures
        forall|c: int| 0 <= c < n ==> (#[trigger] h[c]).len() <= longest(h, n),
        longest(h, n) > 0 ==> exists|c: int| 0 <= c < n && (#[trigger] h[c]).len() == longest(h, n),
    decreases n,
{
    if n > 0 {
        lemma_longest(h, n - 1);
        assert(h[n - 1].len() <= longest(h, n));
    }
}

proof fn lemma_row_lines(
    h: Seq<Seq<Point>>,
    from: int,
    to: int,
    texts: ValueTexts,
    rows: Seq<Seq<char>>,
)
    requires
        from <= to,
        rows.len() == to - from,
        forall|j: int|
            0 <= j < rows.len() ==> #[trigger] rows[j] == row_columns(
                h,
                from + j,
                h.len() as int,
                texts,
            ),
    ensures
        row_lines(h, from, to, texts) == with_newlines(rows),
    decreases to - from,
{
    reveal_strlit("\n");
    if from < to {
        let front = rows.drop_last();
        assert forall|j: int| 0 <= j < front.len() implies #[trigger] front[j] == row_columns(
            h,
            from + j,
            h.len() as int,
            texts,
        ) by {
            assert(front[j] == rows[j]);
        }
        lemma_row_lines(h, from, to - 1, texts, front);
        let last = rows[rows.len() - 1];
        assert(last == row_columns(h, to - 1, h.len() as int, texts));
        let above = with_newlines(front);
        assert(above + last + "\n"@ =~= above + last.push('\n'));
    }
}

/// A time is written in seconds with six decimals, to the nearest microsecond.
pub proof fn law_times_are_written_in_seconds(ns: int, seconds: nat, micros: nat)
    requires
        micros < 1_000_000,
        -500 < ns - 1000 * (seconds * 1_000_000 + micros) < 500,
    ensures
        ns >= 0 ==> seconds_text(ns) == dec(seconds) + seq!['.'] + pad_left(dec(micros), 6, '0'),
        ns > 0 ==> seconds_text(-ns) == seq!['-'] + seconds_text(ns),
{
    reveal_strlit(".");
    reveal_strlit("-");
    if ns >= 0 {
        let m = to_micros(ns);
        assert(m == seconds * 1_000_000 + micros);
        assert(m / 1_000_000 == seconds && m % 1_000_000 == micros);
        assert(seconds_text(ns) =~= dec(seconds) + seq!['.'] + pad_left(dec(micros), 6, '0'));
        if ns > 0 {
            assert(seconds_text(-ns) =~= seq!['-'] + seconds_text(ns));
        }
    }
}

/// A stretch has no gap in it: two values that follow each other on a curve are in
/// one stretch, and a missing value between them parts them.
pub proof fn law_missing_values_part_a_curve(a: Seq<Point>, p: Point, gap: Point, q: Point)
    requires
        present(p),
        !present(gap),
        present(q),
    ensures
        segments(a.push(p).push(q)).last().len() >= 2,
        segments(a.push(p).push(gap).push(q)).last() == seq![q],
        segments(a.push(p).push(gap).push(q)) == segments(a.push(p)).push(seq![q]),
{
    reveal_with_fuel(runs, 4);
    let x = a.push(p);
    assert(x.drop_last() =~= a);
    assert(x.push(q).drop_last() =~= x);
    let y = x.push(gap);
    assert(y.drop_last() =~= x);
    assert(y.push(q).drop_last() =~= y);
    let r = runs(a);
    assert(runs(x) == Runs { done: r.done, open: r.open.push(p) });
    assert(runs(y) == Runs { done: closed(runs(x)), open: Seq::empty() });
    assert(runs(y.push(q)).open =~= seq![q]);
}

}
