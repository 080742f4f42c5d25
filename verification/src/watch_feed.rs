//! The line protocol that feeds a watch window.
//!
//! A header (`T <title>`, `N <rows>`, one `C <label>` per row) is followed by
//! value lines `V <row> <escaped text>`, or `E` in the place of `V` where the text
//! tells of a failure. The escape keeps a value on one line.
use vstd::prelude::*;
use crate::number::{
    dec, dec_text, law_numeral_read_back, lemma_numeral_plain, lemma_numeral_shape, read_usize,
    unsigned_value, NumError,
};
use crate::text::{
    chars_of, is_white_space, lemma_lines_cons,
    lemma_split_once_of_concat, lemma_strip_prefix_of_concat, lemma_trim_plain, lines, lines_of,
    quoted, quoted_text, split_once, split_once_of, string_of, strip_cr, strip_prefix,
    strip_prefix_of, trim, trim_end_char, trim_end_char_of, trim_of, views,
};
use crate::watch::Change;

verus! {

// ---------------------------------------------------------------------------
// Escaping
// ---------------------------------------------------------------------------

/// The two-character sequence that stands for a special character.
pub open spec fn escape_char(c: char) -> Seq<char> {
    if c == '\\' {
        seq!['\\', '\\']
    } else if c == '\n' {
        seq!['\\', 'n']
    } else if c == '\r' {
        seq!['\\', 'r']
    } else if c == '\t' {
        seq!['\\', 't']
    } else {
        seq![c]
    }
}

/// `s` with each special character replaced by its sequence.
pub open spec fn escape(s: Seq<char>) -> Seq<char>
    decreases s.len(),
{
    if s.len() == 0 {
        Seq::empty()
    } else {
        escape_char(s[0]) + escape(s.drop_first())
    }
}

/// The character that a backslash and `c` stand for.
pub open spec fn escaped_char(c: char) -> Option<char> {
    if c == 'n' {
        Some('\n')
    } else if c == 'r' {
        Some('\r')
    } else if c == 't' {
        Some('\t')
    } else if c == '\\' {
        Some('\\')
    } else {
        None
    }
}

/// `s` with each sequence replaced by its character. Other backslashes stay.
pub open spec fn unescape(s: Seq<char>) -> Seq<char>
    decreases s.len(),
{
    if s.len() == 0 {
        Seq::empty()
    } else if s[0] != '\\' || s.len() == 1 {
        seq![s[0]] + unescape(s.drop_first())
    } else {
        match escaped_char(s[1]) {
            Some(c) => seq![c] + unescape(s.skip(2)),
            None => seq!['\\', s[1]] + unescape(s.skip(2)),
        }
    }
}

/// Escapes a value so that it fits on one line.
pub fn escape_value(s: &str) -> (r: String)
    ensures
        r@ == escape(s@),
{
    let v: Vec<char> = chars_of(s);
    let mut out: String = String::new();
    let mut i: usize = 0;
    assert(out@ + escape(v@) =~= escape(v@));
    assert(v@.skip(0) =~= v@);
    while i < v.len()
        invariant
            i <= v.len(),
            out@ + escape(v@.skip(i as int)) == escape(v@),
        decreases v.len() - i,
    {
        let c: char = v[i];
        let ghost before = out@;
        if c == '\\' {
            out.push('\\');
            out.push('\\');
        } else if c == '\n' {
            out.push('\\');
            out.push('n');
        } else if c == '\r' {
            out.push('\\');
            out.push('r');
        } else if c == '\t' {
            out.push('\\');
            out.push('t');
        } else {
            out.push(c);
        }
        assert(out@ =~= before + escape_char(c));
        let ghost tail = escape(v@.skip(i + 1));
        assert(v@.skip(i as int).drop_first() =~= v@.skip(i + 1));
        assert(before + (escape_char(c) + tail) =~= out@ + tail);
        i += 1;
    }
    assert(v@.skip(i as int) =~= Seq::empty());
    assert(out@ + escape(v@.skip(i as int)) =~= out@);
    out
}

/// Undoes [`escape_value`]; a backslash that starts no sequence stays.
pub fn unescape_value(s: &str) -> (r: String)
    ensures
        r@ == unescape(s@),
{
    let v: Vec<char> = chars_of(s);
    unescape_chars(v.as_slice())
}

fn unescape_chars(v: &[char]) -> (r: String)
    ensures
        r@ == unescape(v@),
{
    let mut out: String = String::new();
    let mut i: usize = 0;
    assert(out@ + unescape(v@) =~= unescape(v@));
    assert(v@.skip(0) =~= v@);
    while i < v.len()
        invariant
            i <= v.len(),
            out@ + unescape(v@.skip(i as int)) == unescape(v@),
        decreases v.len() - i,
    {
        let c: char = v[i];
        let ghost before = out@;
        let ghost rest = v@.skip(i as int);
        if c != '\\' || i + 1 == v.len() {
            out.push(c);
            assert(rest.drop_first() =~= v@.skip(i + 1));
            assert(before + (seq![c] + unescape(v@.skip(i + 1))) =~= out@ + unescape(
                v@.skip(i + 1),
            ));
            i += 1;
        } else {
            let d: char = v[i + 1];
            if d == 'n' {
                out.push('\n');
            } else if d == 'r' {
                out.push('\r');
            } else if d == 't' {
                out.push('\t');
            } else if d == '\\' {
                out.push('\\');
            } else {
                out.push('\\');
                out.push(d);
            }
            let ghost piece = match escaped_char(d) {
                Some(x) => seq![x],
                None => seq!['\\', d],
            };
            assert(out@ =~= before + piece);
            assert(rest.skip(2) =~= v@.skip(i + 2));
            assert(before + (piece + unescape(v@.skip(i + 2))) =~= out@ + unescape(v@.skip(i + 2)));
            i += 2;
        }
    }
    assert(v@.skip(i as int) =~= Seq::empty());
    assert(out@ + unescape(v@.skip(i as int)) =~= out@);
    out
}

/// Unescaping an escaped text gives the text back.
pub proof fn law_escape_round_trip(s: Seq<char>)
    ensures
        unescape(escape(s)) == s,
    decreases s.len(),
{
    if s.len() > 0 {
        let rest = escape(s.drop_first());
        let e = escape(s);
        law_escape_round_trip(s.drop_first());
        if escape_char(s[0]).len() == 1 {
            assert(e[0] == s[0]);
            assert(e.drop_first() =~= rest);
            assert(seq![s[0]] + s.drop_first() =~= s);
        } else {
            assert(e.skip(2) =~= rest);
            assert(seq![s[0]] + s.drop_first() =~= s);
        }
    }
}

/// An escaped text holds no line break and no tab.
pub proof fn law_escape_is_one_line(s: Seq<char>)
    ensures
        !escape(s).contains('\n'),
        !escape(s).contains('\r'),
        !escape(s).contains('\t'),
    decreases s.len(),
{
    if s.len() > 0 {
        law_escape_is_one_line(s.drop_first());
        let rest = escape(s.drop_first());
        let e = escape(s);
        let n = escape_char(s[0]).len();
        assert forall|j: int| 0 <= j < e.len() implies e[j] != '\n' && e[j] != '\r' && e[j]
            != '\t' by {
            if j >= n {
                assert(e[j] == rest[j - n]);
                assert(rest.contains(rest[j - n]));
            }
        }
    }
}

// ---------------------------------------------------------------------------
// Value lines
// ---------------------------------------------------------------------------

/// What stands behind the mark of a line that gives row `row` the text `text`.
pub open spec fn row_text(row: nat, text: Seq<char>) -> Seq<char> {
    dec(row) + " "@ + escape(text)
}

/// The line that gives row `row` the value `text`.
pub open spec fn v_line(row: nat, text: Seq<char>) -> Seq<char> {
    "V "@ + row_text(row, text)
}

/// The line that gives row `row` the failure `text`.
pub open spec fn e_line(row: nat, text: Seq<char>) -> Seq<char> {
    "E "@ + row_text(row, text)
}

/// What stands behind the mark of a line, where it is a row and a text.
pub open spec fn row_text_value(rest: Seq<char>) -> Option<(nat, Seq<char>)> {
    match split_once(rest, ' ') {
        None => None,
        Some((row, text)) => match unsigned_value(row, 10, usize::MAX as nat) {
            Ok(n) => Some((n, unescape(text))),
            Err(_) => None,
        },
    }
}

/// What a value line says, where it is one.
pub open spec fn v_line_value(line: Seq<char>) -> Option<(nat, Seq<char>)> {
    match strip_prefix(line, "V "@) {
        None => None,
        Some(rest) => row_text_value(rest),
    }
}

/// What a failure line says, where it is one.
pub open spec fn e_line_value(line: Seq<char>) -> Option<(nat, Seq<char>)> {
    match strip_prefix(line, "E "@) {
        None => None,
        Some(rest) => row_text_value(rest),
    }
}

fn marked_line(mark: &str, row: usize, text: &str) -> (r: String)
    ensures
        r@ == mark@ + row_text(row as nat, text@),
{
    let mut s: String = String::from_str(mark);
    s.append(dec_text(row as u64).as_str());
    s.append(" ");
    s.append(escape_value(text).as_str());
    assert(s@ =~= mark@ + row_text(row as nat, text@));
    s
}

/// Writes a value line, without its newline.
pub fn feed_write_value(row: usize, text: &str) -> (r: String)
    ensures
        r@ == v_line(row as nat, text@),
{
    marked_line("V ", row, text)
}

/// The line that tells of a change: a value line, or a failure line.
pub open spec fn change_line(c: Change<Seq<char>>) -> Seq<char> {
    if c.failed {
        e_line(c.row as nat, c.text)
    } else {
        v_line(c.row as nat, c.text)
    }
}

/// Writes the line that tells of a change, without its newline.
pub fn write_change(c: &Change<String>) -> (r: String)
    ensures
        r@ == change_line(c@),
{
    if c.failed {
        marked_line("E ", c.row, c.text.as_str())
    } else {
        marked_line("V ", c.row, c.text.as_str())
    }
}

/// The view of what a line says.
pub open spec fn news_view(r: Option<(usize, String)>) -> Option<(nat, Seq<char>)> {
    match r {
        Some((row, text)) => Some((row as nat, text@)),
        None => None,
    }
}

fn parse_marked(line: &str, mark: &str) -> (r: Option<(usize, String)>)
    ensures
        news_view(r) == match strip_prefix(line@, mark@) {
            None => None,
            Some(rest) => row_text_value(rest),
        },
{
    let v: Vec<char> = chars_of(line);
    match strip_prefix_of(v.as_slice(), mark) {
        None => None,
        Some(rest) => match split_once_of(rest, ' ') {
            None => None,
            Some((row, text)) => match read_usize(row) {
                Ok(n) => Some((n, unescape_chars(text))),
                Err(_) => None,
            },
        },
    }
}

/// Reads a value line. Any other line is passed over.
pub fn parse_v_line(line: &str) -> (r: Option<(usize, String)>)
    ensures
        news_view(r) == v_line_value(line@),
{
    parse_marked(line, "V ")
}

/// The change that a line tells of, where it is a value line or a failure line.
pub open spec fn change_of(line: Seq<char>) -> Option<Change<Seq<char>>> {
    match (v_line_value(line), e_line_value(line)) {
        (Some((row, text)), _) => Some(Change { row: row as usize, text, failed: false }),
        (None, Some((row, text))) => Some(Change { row: row as usize, text, failed: true }),
        (None, None) => None,
    }
}

/// The view of a change that a line may tell of.
pub open spec fn change_view(c: Option<Change<String>>) -> Option<Change<Seq<char>>> {
    match c {
        Some(c) => Some(c@),
        None => None,
    }
}

/// Reads a line that tells of a change. Any other line is passed over.
pub fn parse_change(line: &str) -> (r: Option<Change<String>>)
    ensures
        change_view(r) == change_of(line@),
{
    match parse_marked(line, "V ") {
        Some((row, text)) => Some(Change { row, text, failed: false }),
        None => match parse_marked(line, "E ") {
            Some((row, text)) => Some(Change { row, text, failed: true }),
            None => None,
        },
    }
}

proof fn lemma_row_text_round_trip(row: nat, text: Seq<char>)
    requires
        row <= usize::MAX,
    ensures
        row_text_value(row_text(row, text)) == Some((row, text)),
{
    reveal_strlit(" ");
    assert(row_text(row, text) =~= dec(row) + seq![' '] + escape(text));
    lemma_numeral_plain(row, 10);
    assert(is_white_space(' '));
    assert(!dec(row).contains(' '));
    lemma_split_once_of_concat(dec(row), ' ', escape(text));
    law_numeral_read_back(row, 10, usize::MAX as nat);
    law_escape_round_trip(text);
}

/// A line that tells of a change is read back as it was written, and a failure is
/// not taken for a value.
pub proof fn law_change_round_trip(c: Change<Seq<char>>)
    ensures
        change_of(change_line(c)) == Some(c),
{
    reveal_strlit("V ");
    reveal_strlit("E ");
    let row = c.row as nat;
    let l = change_line(c);
    lemma_row_text_round_trip(row, c.text);
    if c.failed {
        lemma_strip_prefix_of_concat("E "@, row_text(row, c.text));
        assert(l[0] == 'E');
        if strip_prefix(l, "V "@) is Some {
            assert(l.take(2)[0] == "V "@[0]);
        }
    } else {
        lemma_strip_prefix_of_concat("V "@, row_text(row, c.text));
    }
}

/// A value line is read back as it was written, whatever the text holds.
pub proof fn law_v_line_round_trip(row: nat, text: Seq<char>)
    requires
        row <= usize::MAX,
    ensures
        v_line_value(v_line(row, text)) == Some((row, text)),
{
    lemma_strip_prefix_of_concat("V "@, row_text(row, text));
    lemma_row_text_round_trip(row, text);
}

proof fn lemma_row_text_is_one_line(row: nat, text: Seq<char>)
    ensures
        forall|j: int|
            0 <= j < row_text(row, text).len() ==> (#[trigger] row_text(row, text)[j]) != '\n'
                && row_text(row, text)[j] != '\r',
{
    reveal_strlit(" ");
    let l = row_text(row, text);
    lemma_numeral_plain(row, 10);
    law_escape_is_one_line(text);
    let n = dec(row).len();
    assert(is_white_space('\n') && is_white_space('\r'));
    assert forall|j: int| 0 <= j < l.len() implies (#[trigger] l[j]) != '\n' && l[j] != '\r' by {
        if j > n {
            assert(l[j] == escape(text)[j - n - 1]);
            assert(escape(text).contains(l[j]));
        } else if j < n {
            assert(l[j] == dec(row)[j]);
        }
    }
}

/// A line that tells of a change is, with its newline, one line of the feed.
pub proof fn law_change_is_one_line(c: Change<Seq<char>>, rest: Seq<char>)
    ensures
        lines(change_line(c) + seq!['\n'] + rest) == seq![change_line(c)] + lines(rest),
{
    reveal_strlit("V ");
    reveal_strlit("E ");
    let l = change_line(c);
    let tail = row_text(c.row as nat, c.text);
    lemma_row_text_is_one_line(c.row as nat, c.text);
    assert forall|j: int| 0 <= j < l.len() implies l[j] != '\n' && l[j] != '\r' by {
        if j >= 2 {
            assert(l[j] == tail[j - 2]);
        }
    }
    lemma_lines_cons(l, rest);
}

// ---------------------------------------------------------------------------
// The header
// ---------------------------------------------------------------------------

/// Why a feed header is refused. `T` is the form in which text is held.
#[derive(Debug)]
pub enum WatchHeaderError<T> {
    /// The row count of the `N` line is no number.
    Count(NumError),
    /// A line that is none of the header's.
    UnknownLine(T),
    /// There is no `T` line.
    NoTitle,
    /// There is no `C` line.
    NoRows,
    /// The `N` line and the number of `C` lines differ.
    CountMismatch,
}

impl View for WatchHeaderError<String> {
    type V = WatchHeaderError<Seq<char>>;

    open spec fn view(&self) -> WatchHeaderError<Seq<char>> {
        match *self {
            WatchHeaderError::Count(e) => WatchHeaderError::Count(e),
            WatchHeaderError::UnknownLine(t) => WatchHeaderError::UnknownLine(t@),
            WatchHeaderError::NoTitle => WatchHeaderError::NoTitle,
            WatchHeaderError::NoRows => WatchHeaderError::NoRows,
            WatchHeaderError::CountMismatch => WatchHeaderError::CountMismatch,
        }
    }
}

impl WatchHeaderError<Seq<char>> {
    /// The wording of each refusal.
    pub open spec fn text(self) -> Seq<char> {
        match self {
            WatchHeaderError::Count(e) => "行数不是数字: "@ + e.text(),
            WatchHeaderError::UnknownLine(t) => "未知的头部行："@ + quoted(t)
                + "（期望 T/N/C 开头的行）"@,
            WatchHeaderError::NoTitle => "头部缺少 T 行（窗口标题）"@,
            WatchHeaderError::NoRows => "头部没有 C 行（至少一个监视行）"@,
            WatchHeaderError::CountMismatch => "头部 N 与 C 行数不符"@,
        }
    }
}

impl WatchHeaderError<String> {
    /// The wording of this refusal.
    pub fn message(&self) -> (r: String)
        ensures
            r@ == self@.text(),
    {
        match self {
            WatchHeaderError::Count(e) => {
                let mut s: String = String::from_str("行数不是数字: ");
                s.append(e.message());
                s
            },
            WatchHeaderError::UnknownLine(t) => {
                let mut s: String = String::from_str("未知的头部行：");
                s.append(quoted_text(t.as_str()).as_str());
                s.append("（期望 T/N/C 开头的行）");
                s
            },
            WatchHeaderError::NoTitle => String::from_str("头部缺少 T 行（窗口标题）"),
            WatchHeaderError::NoRows => String::from_str(
                "头部没有 C 行（至少一个监视行）",
            ),
            WatchHeaderError::CountMismatch => String::from_str("头部 N 与 C 行数不符"),
        }
    }
}

/// A feed header that was read.
#[derive(Debug)]
pub struct WatchFeedHeader {
    /// The title of the window.
    pub title: String,
    /// The label of each row; the order gives the row numbers.
    pub labels: Vec<String>,
}

/// What the reader of a header knows so far.
pub struct HeaderState {
    pub title: Option<Seq<char>>,
    pub count: Option<nat>,
    pub labels: Seq<Seq<char>>,
}

/// The state before any line.
pub open spec fn header_start() -> HeaderState {
    HeaderState { title: None, count: None, labels: Seq::empty() }
}

/// What one line adds to the header, and whether it was the last one.
pub open spec fn header_step(st: HeaderState, line: Seq<char>) -> Result<
    (HeaderState, bool),
    WatchHeaderError<Seq<char>>,
> {
    let l = trim_end_char(line, '\r');
    if let Some(rest) = strip_prefix(l, "T "@) {
        Ok((HeaderState { title: Some(rest), ..st }, false))
    } else if let Some(rest) = strip_prefix(l, "N "@) {
        match unsigned_value(trim(rest), 10, usize::MAX as nat) {
            Ok(n) => Ok((HeaderState { count: Some(n), ..st }, false)),
            Err(e) => Err(WatchHeaderError::Count(e)),
        }
    } else if let Some(rest) = strip_prefix(l, "C "@) {
        let labels = st.labels.push(rest);
        let full = match st.count {
            Some(n) => labels.len() == n,
            None => labels.len() == usize::MAX,
        };
        Ok((HeaderState { labels, ..st }, full))
    } else {
        Err(WatchHeaderError::UnknownLine(l))
    }
}

/// The header that a state amounts to when no line follows.
pub open spec fn header_finish(st: HeaderState) -> Result<
    (Seq<char>, Seq<Seq<char>>),
    WatchHeaderError<Seq<char>>,
> {
    match st.title {
        None => Err(WatchHeaderError::NoTitle),
        Some(title) => if st.labels.len() == 0 {
            Err(WatchHeaderError::NoRows)
        } else if st.count is Some && st.count->0 != st.labels.len() {
            Err(WatchHeaderError::CountMismatch)
        } else {
            Ok((title, st.labels))
        },
    }
}

/// The header that lines amount to, from a state on: its title, its labels and
/// the number of lines that were read. Lines behind the last row are not read.
pub open spec fn header_of_lines(st: HeaderState, ls: Seq<Seq<char>>) -> Result<
    (Seq<char>, Seq<Seq<char>>, nat),
    WatchHeaderError<Seq<char>>,
>
    decreases ls.len(),
{
    if ls.len() == 0 {
        match header_finish(st) {
            Ok((t, l)) => Ok((t, l, 0)),
            Err(e) => Err(e),
        }
    } else {
        match header_step(st, ls[0]) {
            Err(e) => Err(e),
            Ok((next, true)) => match header_finish(next) {
                Ok((t, l)) => Ok((t, l, 1)),
                Err(e) => Err(e),
            },
            Ok((next, false)) => match header_of_lines(next, ls.drop_first()) {
                Ok((t, l, n)) => Ok((t, l, n + 1)),
                Err(e) => Err(e),
            },
        }
    }
}

/// Reads a header line by line.
#[derive(Debug)]
pub struct WatchHeaderReader {
    title: Option<String>,
    count: Option<usize>,
    labels: Vec<String>,
}

impl View for WatchHeaderReader {
    type V = HeaderState;

    closed spec fn view(&self) -> HeaderState {
        HeaderState {
            title: match self.title {
                Some(t) => Some(t@),
                None => None,
            },
            count: match self.count {
                Some(n) => Some(n as nat),
                None => None,
            },
            labels: views(self.labels@),
        }
    }
}

impl WatchHeaderReader {
    /// A reader that has seen no line.
    pub fn new() -> (r: Self)
        ensures
            r@ == header_start(),
    {
        let r = WatchHeaderReader { title: None, count: None, labels: Vec::new() };
        assert(views(r.labels@) =~= Seq::empty());
        r
    }

    /// Takes one line in; `true` when the header is complete with it.
    pub fn push_line(&mut self, line: &str) -> (r: Result<bool, WatchHeaderError<String>>)
        ensures
            match header_step(old(self)@, line@) {
                Ok((next, full)) => r == Ok::<bool, WatchHeaderError<String>>(full) && final(self)@
                    == next,
                Err(e) => r is Err && r->Err_0@ == e && final(self)@ == old(self)@,
            },
    {
        let v: Vec<char> = chars_of(line);
        let l: &[char] = trim_end_char_of(v.as_slice(), '\r');
        if let Some(rest) = strip_prefix_of(l, "T ") {
            self.title = Some(string_of(rest));
            return Ok(false);
        }
        if let Some(rest) = strip_prefix_of(l, "N ") {
            return match read_usize(trim_of(rest)) {
                Ok(n) => {
                    self.count = Some(n);
                    Ok(false)
                },
                Err(e) => Err(WatchHeaderError::Count(e)),
            };
        }
        if let Some(rest) = strip_prefix_of(l, "C ") {
            let ghost before = views(self.labels@);
            self.labels.push(string_of(rest));
            assert(views(self.labels@) =~= before.push(rest@));
            let want: usize = match self.count {
                Some(n) => n,
                None => usize::MAX,
            };
            return Ok(self.labels.len() == want);
        }
        Err(WatchHeaderError::UnknownLine(string_of(l)))
    }

    /// The header, when no line follows.
    pub fn finish(self) -> (r: Result<WatchFeedHeader, WatchHeaderError<String>>)
        ensures
            match r {
                Ok(h) => header_finish(self@) == Ok::<_, WatchHeaderError<Seq<char>>>(
                    (h.title@, views(h.labels@)),
                ),
                Err(e) => header_finish(self@) == Err::<(Seq<char>, Seq<Seq<char>>), _>(e@),
            },
    {
        match self.title {
            None => Err(WatchHeaderError::NoTitle),
            Some(title) => {
                if self.labels.len() == 0 {
                    return Err(WatchHeaderError::NoRows);
                }
                if let Some(n) = self.count {
                    if n != self.labels.len() {
                        return Err(WatchHeaderError::CountMismatch);
                    }
                }
                Ok(WatchFeedHeader { title, labels: self.labels })
            },
        }
    }
}

/// Reads the header at the start of a feed. The number tells how many lines
/// belong to it; the value lines follow.
pub fn read_watch_header(text: &str) -> (r: Result<
    (WatchFeedHeader, usize),
    WatchHeaderError<String>,
>)
    ensures
        match r {
            Ok((h, n)) => header_of_lines(header_start(), lines(text@)) == Ok::<
                _,
                WatchHeaderError<Seq<char>>,
            >((h.title@, views(h.labels@), n as nat)),
            Err(e) => header_of_lines(header_start(), lines(text@)) == Err::<
                (Seq<char>, Seq<Seq<char>>, nat),
                _,
            >(e@),
        },
{
    let v: Vec<char> = chars_of(text);
    let ls: Vec<String> = lines_of(v.as_slice());
    let mut reader = WatchHeaderReader::new();
    let ghost all = views(ls@);
    let ghost whole = header_of_lines(header_start(), all);
    let mut i: usize = 0;
    assert(all.skip(0) =~= all);
    while i < ls.len()
        invariant
            i <= ls.len(),
            all == views(ls@),
            all == lines(text@),
            whole == header_of_lines(header_start(), all),
            match header_of_lines(reader@, all.skip(i as int)) {
                Ok((t, l, n)) => whole == Ok::<_, WatchHeaderError<Seq<char>>>((t, l, n + i as nat)),
                Err(e) => whole == Err::<(Seq<char>, Seq<Seq<char>>, nat), _>(e),
            },
        decreases ls.len() - i,
    {
        assert(all.skip(i as int)[0] == ls@[i as int]@);
        assert(all.skip(i as int).drop_first() =~= all.skip(i + 1));
        match reader.push_line(ls[i].as_str()) {
            Err(e) => {
                return Err(e);
            },
            Ok(true) => {
                return match reader.finish() {
                    Ok(h) => Ok((h, i + 1)),
                    Err(e) => Err(e),
                };
            },
            Ok(false) => {},
        }
        i += 1;
    }
    assert(all.skip(i as int) =~= Seq::empty());
    match reader.finish() {
        Ok(h) => Ok((h, i)),
        Err(e) => Err(e),
    }
}

/// The `C` lines of a header, each with its newline.
pub open spec fn label_text(labels: Seq<Seq<char>>) -> Seq<char>
    decreases labels.len(),
{
    if labels.len() == 0 {
        Seq::empty()
    } else {
        label_text(labels.drop_last()) + "C "@ + labels.last() + "\n"@
    }
}

/// The text of a header.
pub open spec fn header_text(labels: Seq<Seq<char>>, title: Seq<char>) -> Seq<char> {
    "T "@ + title + "\nN "@ + dec(labels.len()) + "\n"@ + label_text(labels)
}

/// Writes a header.
pub fn write_watch_header(labels: &[String], title: &str) -> (r: String)
    ensures
        r@ == header_text(views(labels@), title@),
{
    let mut s: String = String::from_str("T ");
    s.append(title);
    s.append("\nN ");
    s.append(dec_text(labels.len() as u64).as_str());
    s.append("\n");
    let ghost head = s@;
    let ghost all = views(labels@);
    let mut i: usize = 0;
    assert(head + label_text(all.take(0)) =~= head);
    while i < labels.len()
        invariant
            i <= labels.len(),
            all == views(labels@),
            s@ == head + label_text(all.take(i as int)),
        decreases labels.len() - i,
    {
        let ghost before = label_text(all.take(i as int));
        s.append("C ");
        s.append(labels[i].as_str());
        s.append("\n");
        assert(all.take(i + 1).drop_last() =~= all.take(i as int));
        assert(head + before + "C "@ + labels@[i as int]@ + "\n"@ =~= head + (before + "C "@
            + labels@[i as int]@ + "\n"@));
        i += 1;
    }
    assert(all.take(i as int) =~= all);
    s
}

/// A text that a header can carry unchanged: it stays on its line, and the
/// reader, which takes carriage returns off the end of a line, cuts nothing.
pub open spec fn carried(s: Seq<char>) -> bool {
    &&& !s.contains('\n')
    &&& s.len() > 0 ==> s.last() != '\r'
}

/// The label lines of a header, as the reader sees them.
spec fn label_lines(labels: Seq<Seq<char>>) -> Seq<Seq<char>> {
    labels.map_values(|l: Seq<char>| "C "@ + l)
}

proof fn lemma_label_text_lines(labels: Seq<Seq<char>>, rest: Seq<char>)
    requires
        forall|i: int| 0 <= i < labels.len() ==> carried(#[trigger] labels[i]),
    ensures
        lines(label_text(labels) + rest) == label_lines(labels) + lines(rest),
    decreases labels.len(),
{
    reveal_strlit("C ");
    reveal_strlit("\n");
    if labels.len() == 0 {
        assert(label_text(labels) + rest =~= rest);
        assert(label_lines(labels) + lines(rest) =~= lines(rest));
    } else {
        let l = labels.last();
        let line = "C "@ + l;
        let front = labels.drop_last();
        assert(carried(l));
        assert forall|i: int| 0 <= i < line.len() implies line[i] != '\n' by {
            if i >= 2 {
                assert(line[i] == l[i - 2]);
                assert(l.contains(l[i - 2]));
            }
        }
        assert forall|i: int| 0 <= i < front.len() implies carried(#[trigger] front[i]) by {
            assert(front[i] == labels[i]);
        }
        lemma_label_text_lines(front, line + seq!['\n'] + rest);
        assert(label_text(labels) + rest =~= label_text(front) + (line + seq!['\n'] + rest));
        lemma_lines_cons(line, rest);
        assert(strip_cr(line) =~= line);
        assert(label_lines(labels) =~= label_lines(front) + seq![line]);
        assert(label_lines(front) + (seq![line] + lines(rest)) =~= label_lines(labels) + lines(
            rest,
        ));
    }
}

/// A line of the form that starts with a mark and a space, without trailing
/// carriage return.
proof fn lemma_marked_line(mark: Seq<char>, s: Seq<char>)
    requires
        mark.len() == 2,
        mark[1] == ' ',
        s.len() > 0 ==> s.last() != '\r',
    ensures
        trim_end_char(mark + s, '\r') == mark + s,
        strip_prefix(mark + s, mark) == Some(s),
        (mark + s)[0] == mark[0],
{
    lemma_strip_prefix_of_concat(mark, s);
}

proof fn lemma_rows_read(
    st: HeaderState,
    labels: Seq<Seq<char>>,
    done: int,
    rest: Seq<Seq<char>>,
)
    requires
        0 <= done < labels.len(),
        labels.len() <= usize::MAX,
        st.title is Some,
        st.count == Some(labels.len()),
        st.labels == labels.take(done),
        forall|i: int| 0 <= i < labels.len() ==> carried(#[trigger] labels[i]),
    ensures
        header_of_lines(st, label_lines(labels).skip(done) + rest) == Ok::<
            _,
            WatchHeaderError<Seq<char>>,
        >((st.title->0, labels, (labels.len() - done) as nat)),
    decreases labels.len() - done,
{
    reveal_strlit("C ");
    reveal_strlit("T ");
    reveal_strlit("N ");
    let ls = label_lines(labels).skip(done) + rest;
    assert(ls[0] == "C "@ + labels[done]);
    assert(carried(labels[done]));
    lemma_marked_line("C "@, labels[done]);
    let line = ls[0];
    assert(!"T "@.is_prefix_of(line)) by {
        assert("T "@[0] != line[0]);
    }
    assert(!"N "@.is_prefix_of(line)) by {
        assert("N "@[0] != line[0]);
    }
    assert(labels.take(done).push(labels[done]) =~= labels.take(done + 1));
    assert(ls.drop_first() =~= label_lines(labels).skip(done + 1) + rest);
    let next = HeaderState { labels: labels.take(done + 1), ..st };
    if done + 1 < labels.len() {
        lemma_rows_read(next, labels, done + 1, rest);
    } else {
        assert(labels.take(done + 1) =~= labels);
    }
}

/// A header is read back as it was written, and the lines behind it are left
/// to the reader of the values.
pub proof fn law_watch_header_round_trip(
    labels: Seq<Seq<char>>,
    title: Seq<char>,
    rest: Seq<char>,
)
    requires
        1 <= labels.len() <= usize::MAX,
        carried(title),
        forall|i: int| 0 <= i < labels.len() ==> carried(#[trigger] labels[i]),
    ensures
        header_of_lines(header_start(), lines(header_text(labels, title) + rest)) == Ok::<
            _,
            WatchHeaderError<Seq<char>>,
        >((title, labels, labels.len() + 2)),
{
    reveal_strlit("C ");
    reveal_strlit("T ");
    reveal_strlit("N ");
    reveal_strlit("\n");
    reveal_strlit("\nN ");
    let t = "T "@ + title;
    let n = "N "@ + dec(labels.len());
    let tail = label_text(labels) + rest;
    assert(header_text(labels, title) + rest =~= t + seq!['\n'] + (n + seq!['\n'] + tail));
    lemma_numeral_shape(labels.len(), 10);
    lemma_numeral_plain(labels.len(), 10);
    assert(is_white_space('\n') && is_white_space('\r'));
    assert forall|i: int| 0 <= i < t.len() implies t[i] != '\n' by {
        if i >= 2 {
            assert(t[i] == title[i - 2]);
            assert(title.contains(title[i - 2]));
        }
    }
    assert forall|i: int| 0 <= i < n.len() implies n[i] != '\n' && n[i] != '\r' by {
        if i >= 2 {
            assert(n[i] == dec(labels.len())[i - 2]);
        }
    }
    lemma_lines_cons(t, n + seq!['\n'] + tail);
    lemma_lines_cons(n, tail);
    lemma_label_text_lines(labels, rest);
    assert(strip_cr(t) =~= t);
    assert(strip_cr(n) =~= n);
    let rows = label_lines(labels) + lines(rest);
    let all = lines(header_text(labels, title) + rest);
    assert(all =~= seq![t, n] + rows);
    lemma_marked_line("T "@, title);
    let d = dec(labels.len());
    assert(n.last() == d.last());
    assert(d.last() != '\r');
    lemma_marked_line("N "@, d);
    assert(!"T "@.is_prefix_of(n)) by {
        assert("T "@[0] != n[0]);
    }
    lemma_trim_plain(d);
    law_numeral_read_back(labels.len(), 10, usize::MAX as nat);
    let st1 = HeaderState { title: Some(title), count: None, labels: Seq::empty() };
    let st2 = HeaderState { title: Some(title), count: Some(labels.len()), labels: Seq::empty() };
    assert(all.drop_first() =~= seq![n] + rows);
    assert(all.drop_first().drop_first() =~= rows);
    assert(labels.take(0) =~= Seq::empty());
    assert(label_lines(labels).skip(0) + lines(rest) =~= rows);
    lemma_rows_read(st2, labels, 0, lines(rest));
    assert(header_step(header_start(), t) == Ok::<_, WatchHeaderError<Seq<char>>>((st1, false)));
    assert(header_step(st1, n) == Ok::<_, WatchHeaderError<Seq<char>>>((st2, false)));
    assert(all.drop_first()[0] == n);
    assert(header_of_lines(st1, all.drop_first()) == Ok::<_, WatchHeaderError<Seq<char>>>(
        (title, labels, labels.len() + 1),
    ));
}

/// What is stated of a line is stated of all that is read out of it.
pub proof fn law_news_are_seen_whole(c: Option<Change<String>>, n: Option<(usize, String)>)
    ensures
        match c {
            Some(x) => change_view(c) matches Some(d) && d.row == x.row && d.text == x.text@
                && d.failed == x.failed,
            None => change_view(c) is None,
        },
        match n {
            Some(x) => news_view(n) == Some((x.0 as nat, x.1@)),
            None => news_view(n) is None,
        },
{
}

}
