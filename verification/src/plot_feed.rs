//! The line protocol that feeds a plot window.
//!
//! A header (`T <title>`, `W <seconds>`, one `C <name>` per channel, and last
//! `G <sizes>` of the groups) is followed by data lines: `P <0|1>` stops and
//! resumes the picture, `S <time> <values>` is a sample.
//!
//! Floating-point numbers are turned into bit patterns, and back into text, by
//! functions that the caller hands in.
use vstd::prelude::*;
use crate::double::Double;
use crate::number::{
    dec, dec_text, dec_wide_text, law_numeral_read_back, lemma_numeral_plain,
    lemma_numeral_shape, read_usize, unsigned_value, NumError,
};
use crate::text::{
    chars_of, is_white_space, lemma_lines_cons, lemma_strip_prefix_of_concat, lemma_trim_plain,
    lemma_word_len, lines, lines_of, quoted, quoted_text, same_text,
    string_of, strip_cr, strip_prefix, strip_prefix_of, trim, trim_end, trim_end_char,
    trim_end_char_of, trim_end_of, trim_of, trim_start, views, word_len, words, words_of,
};
use crate::watch_feed::carried;

verus! {

// ---------------------------------------------------------------------------
// Numbers in text
// ---------------------------------------------------------------------------

/// What each text stands for as a number, if it does.
pub type Numbers = spec_fn(Seq<char>) -> Option<Double>;

/// Whether a reader of numbers answers as `numbers` does.
pub open spec fn parses<F: Fn(&str) -> Option<Double>>(parse: F, numbers: Numbers) -> bool {
    forall|s: &str, r: Option<Double>| #[trigger]
        call_ensures(parse, (s,), r) ==> r == numbers(s@)
}

/// Whether a reader of numbers takes any text.
pub open spec fn parses_any<F: Fn(&str) -> Option<Double>>(parse: F) -> bool {
    forall|s: &str| call_requires(parse, (s,))
}

// ---------------------------------------------------------------------------
// Data lines
// ---------------------------------------------------------------------------

/// What a data line says. `V` is the form in which the values are held.
#[derive(Debug)]
pub enum DataEvent<V> {
    /// The picture stops, or resumes.
    Pause(bool),
    /// A sample: its time in seconds, and a value for each channel.
    Sample(Double, V),
    /// Nothing.
    Ignore,
}

impl View for DataEvent<Vec<Double>> {
    type V = DataEvent<Seq<Double>>;

    open spec fn view(&self) -> DataEvent<Seq<Double>> {
        match *self {
            DataEvent::Pause(p) => DataEvent::Pause(p),
            DataEvent::Sample(t, v) => DataEvent::Sample(t, v@),
            DataEvent::Ignore => DataEvent::Ignore,
        }
    }
}

/// The pattern for a value that is missing.
pub open spec fn missing() -> Double {
    Double { bits: 0x7FF8_0000_0000_0000 }
}

/// The value of channel `i` in the words of a sample behind its time: missing
/// where the word is, or is no number.
pub open spec fn sample_value(ws: Seq<Seq<char>>, i: int, numbers: Numbers) -> Double {
    if i + 1 < ws.len() {
        match numbers(ws[i + 1]) {
            Some(v) => v,
            None => missing(),
        }
    } else {
        missing()
    }
}

/// What a data line says to a window with `n` channels.
pub open spec fn data_event(line: Seq<char>, n: nat, numbers: Numbers) -> DataEvent<Seq<Double>> {
    let l = trim_end(line);
    if let Some(rest) = strip_prefix(l, "P "@) {
        if trim(rest) == "1"@ {
            DataEvent::Pause(true)
        } else if trim(rest) == "0"@ {
            DataEvent::Pause(false)
        } else {
            DataEvent::Ignore
        }
    } else if let Some(rest) = strip_prefix(l, "S "@) {
        let ws = words(rest);
        if ws.len() == 0 {
            DataEvent::Ignore
        } else {
            match numbers(ws[0]) {
                None => DataEvent::Ignore,
                Some(t) => DataEvent::Sample(
                    t,
                    Seq::new(n, |i: int| sample_value(ws, i, numbers)),
                ),
            }
        }
    } else {
        DataEvent::Ignore
    }
}

/// Reads a data line. A line that is none is passed over.
pub fn parse_data_line<F: Fn(&str) -> Option<Double>>(line: &str, n: usize, parse: &F) -> (r:
    DataEvent<Vec<Double>>)
    requires
        parses_any(*parse),
    ensures
        forall|numbers: Numbers| #[trigger]
            parses(*parse, numbers) ==> r@ == data_event(line@, n as nat, numbers),
        r matches DataEvent::Sample(_, v) ==> v@.len() == n,
{
    let v: Vec<char> = chars_of(line);
    let l: &[char] = trim_end_of(v.as_slice());
    if let Some(rest) = strip_prefix_of(l, "P ") {
        let mark: String = string_of(trim_of(rest));
        if same_text(mark.as_str(), "1") {
            return DataEvent::Pause(true);
        }
        if same_text(mark.as_str(), "0") {
            return DataEvent::Pause(false);
        }
        return DataEvent::Ignore;
    }
    if let Some(rest) = strip_prefix_of(l, "S ") {
        let ws: Vec<String> = words_of(rest);
        let ghost texts = views(ws@);
        if ws.len() == 0 {
            return DataEvent::Ignore;
        }
        assert(texts[0] == ws@[0]@);
        let t: Double = match parse(ws[0].as_str()) {
            None => {
                return DataEvent::Ignore;
            },
            Some(t) => t,
        };
        let mut values: Vec<Double> = Vec::new();
        let count: usize = ws.len();
        while values.len() < n
            invariant
                parses_any(*parse),
                texts == views(ws@),
                count == ws@.len(),
                count > 0,
                values@.len() <= n,
                forall|numbers: Numbers, k: int|
                    #![trigger parses(*parse, numbers), values@[k]]
                    parses(*parse, numbers) && 0 <= k < values@.len() ==> values@[k]
                        == sample_value(texts, k, numbers),
            decreases n - values@.len(),
        {
            let i: usize = values.len();
            if i < count - 1 {
                assert(texts[i + 1] == ws@[i + 1]@);
                let value: Double = match parse(ws[i + 1].as_str()) {
                    Some(v) => v,
                    None => Double::not_a_number(),
                };
                values.push(value);
            } else {
                values.push(Double::not_a_number());
            }
        }
        let ghost all = values@;
        assert forall|numbers: Numbers| #[trigger] parses(*parse, numbers) implies all == Seq::new(
            n as nat,
            |i: int| sample_value(texts, i, numbers),
        ) by {
            assert(all =~= Seq::new(n as nat, |i: int| sample_value(texts, i, numbers)));
        }
        return DataEvent::Sample(t, values);
    }
    DataEvent::Ignore
}

/// The line that stops or resumes the picture.
pub open spec fn pause_line(paused: bool) -> Seq<char> {
    if paused {
        "P 1"@
    } else {
        "P 0"@
    }
}

/// Writes the line that stops or resumes the picture, with its newline.
pub fn write_pause_line(paused: bool) -> (r: String)
    ensures
        r@ == pause_line(paused) + "\n"@,
{
    let mut s: String = String::from_str(
        if paused {
            "P 1"
        } else {
            "P 0"
        },
    );
    s.append("\n");
    s
}

/// The texts of values, each with a space in front.
pub open spec fn value_texts(values: Seq<Seq<char>>) -> Seq<char>
    decreases values.len(),
{
    if values.len() == 0 {
        Seq::empty()
    } else {
        value_texts(values.drop_last()) + " "@ + values.last()
    }
}

/// The line of a sample whose time and values are given as texts.
pub open spec fn sample_line(t: Seq<char>, values: Seq<Seq<char>>) -> Seq<char> {
    "S "@ + t + value_texts(values)
}

/// Writes the line of a sample, with its newline. The time and the values are
/// given as texts.
pub fn write_sample_line(t: &str, values: &[String]) -> (r: String)
    ensures
        r@ == sample_line(t@, views(values@)) + "\n"@,
{
    let mut s: String = String::from_str("S ");
    s.append(t);
    let ghost head = s@;
    let ghost all = views(values@);
    let mut i: usize = 0;
    assert(head + value_texts(all.take(0)) =~= head);
    while i < values.len()
        invariant
            i <= values@.len(),
            all == views(values@),
            s@ == head + value_texts(all.take(i as int)),
        decreases values@.len() - i,
    {
        let ghost before = value_texts(all.take(i as int));
        s.append(" ");
        s.append(values[i].as_str());
        assert(all.take(i + 1).drop_last() =~= all.take(i as int));
        assert(head + before + " "@ + values@[i as int]@ =~= head + (before + " "@
            + values@[i as int]@));
        i += 1;
    }
    assert(all.take(i as int) =~= all);
    s.append("\n");
    s
}

/// A stopped or resumed picture is read back as it was written.
pub proof fn law_pause_round_trip(paused: bool, n: nat, numbers: Numbers)
    ensures
        data_event(pause_line(paused), n, numbers) == DataEvent::<Seq<Double>>::Pause(paused),
{
    reveal_strlit("P 1");
    reveal_strlit("P 0");
    reveal_strlit("P ");
    reveal_strlit("1");
    reveal_strlit("0");
    let mark = if paused {
        "1"@
    } else {
        "0"@
    };
    let l = pause_line(paused);
    assert(l =~= "P "@ + mark);
    lemma_strip_prefix_of_concat("P "@, mark);
    lemma_trim_plain(mark);
    assert("1"@[0] != "0"@[0]);
}

/// A word: not empty, and without white space.
pub open spec fn is_word(s: Seq<char>) -> bool {
    s.len() > 0 && forall|i: int| 0 <= i < s.len() ==> !is_white_space(#[trigger] s[i])
}

proof fn lemma_word_len_is(s: Seq<char>, n: int)
    requires
        0 <= n <= s.len(),
        forall|i: int| 0 <= i < n ==> !is_white_space(#[trigger] s[i]),
        n < s.len() ==> is_white_space(s[n]),
    ensures
        word_len(s) == n,
{
    lemma_word_len(s);
    let k = word_len(s);
    if k < n {
        assert(!is_white_space(s[k]));
    } else if n < k {
        assert(is_white_space(s[n]));
    }
}

proof fn lemma_words_cons(w: Seq<char>, rest: Seq<char>)
    requires
        is_word(w),
        rest.len() > 0 ==> is_white_space(rest[0]),
    ensures
        words(w + rest) == seq![w] + words(rest),
{
    let s = w + rest;
    assert(s[0] == w[0]);
    assert(trim_start(s) == s);
    assert forall|i: int| 0 <= i < w.len() implies !is_white_space(#[trigger] s[i]) by {
        assert(s[i] == w[i]);
    }
    lemma_word_len_is(s, w.len() as int);
    assert(s.take(w.len() as int) =~= w);
    assert(s.skip(w.len() as int) =~= rest);
}

proof fn lemma_words_space(rest: Seq<char>)
    ensures
        words(seq![' '] + rest) == words(rest),
{
    let s = seq![' '] + rest;
    assert(is_white_space(s[0]));
    assert(s.drop_first() =~= rest);
    assert(trim_start(s) == trim_start(rest));
}

/// The texts of values, from the front.
proof fn lemma_value_texts_front(values: Seq<Seq<char>>)
    requires
        values.len() > 0,
    ensures
        value_texts(values) == " "@ + values[0] + value_texts(values.drop_first()),
    decreases values.len(),
{
    if values.len() == 1 {
        assert(values.drop_last() =~= Seq::empty());
        assert(values.drop_first() =~= Seq::empty());
        assert(value_texts(values) =~= " "@ + values[0] + value_texts(values.drop_first()));
    } else {
        lemma_value_texts_front(values.drop_last());
        assert(values.drop_last().drop_first() =~= values.drop_first().drop_last());
        assert(values.drop_last()[0] == values[0]);
        assert(value_texts(values) =~= " "@ + values[0] + value_texts(values.drop_first()));
    }
}

proof fn lemma_words_of_values(values: Seq<Seq<char>>)
    requires
        forall|i: int| 0 <= i < values.len() ==> is_word(#[trigger] values[i]),
    ensures
        words(value_texts(values)) == values,
        value_texts(values).len() > 0 ==> is_white_space(value_texts(values)[0])
            && !is_white_space(value_texts(values).last()),
    decreases values.len(),
{
    reveal_strlit(" ");
    if values.len() == 0 {
        assert(words(value_texts(values)) =~= values);
    } else {
        lemma_value_texts_front(values);
        let tail = values.drop_first();
        assert forall|i: int| 0 <= i < tail.len() implies is_word(#[trigger] tail[i]) by {
            assert(tail[i] == values[i + 1]);
        }
        lemma_words_of_values(tail);
        let rest = value_texts(tail);
        assert(is_word(values[0]));
        let all = value_texts(values);
        assert(all =~= seq![' '] + (values[0] + rest));
        lemma_words_space(values[0] + rest);
        lemma_words_cons(values[0], rest);
        assert(seq![values[0]] + tail =~= values);
        if tail.len() == 0 {
            assert(all.last() == values[0].last());
        } else {
            assert(rest.len() > 0) by {
                lemma_value_texts_front(tail);
            }
            assert(all.last() == rest.last());
        }
    }
}

/// A sample is read back as it was written: as many values as there are
/// channels, missing ones filled up, further ones passed over. `t` and `texts`
/// are the texts of the time and of the values.
pub proof fn law_sample_round_trip(
    t: Seq<char>,
    texts: Seq<Seq<char>>,
    n: nat,
    numbers: Numbers,
)
    requires
        is_word(t),
        numbers(t) is Some,
        forall|i: int| 0 <= i < texts.len() ==> is_word(#[trigger] texts[i]),
    ensures
        data_event(sample_line(t, texts), n, numbers) == DataEvent::Sample(
            numbers(t)->0,
            Seq::new(
                n,
                |i: int|
                    if i < texts.len() && numbers(texts[i]) is Some {
                        numbers(texts[i])->0
                    } else {
                        missing()
                    },
            ),
        ),
{
    reveal_strlit("S ");
    reveal_strlit("P ");
    lemma_words_of_values(texts);
    let vt = value_texts(texts);
    let body = t + vt;
    let l = sample_line(t, texts);
    assert(l =~= "S "@ + body);
    assert(l.last() == if vt.len() > 0 {
        vt.last()
    } else {
        t.last()
    });
    assert(!is_white_space(t.last()));
    assert(trim_end(l) == l);
    assert(!"P "@.is_prefix_of(l)) by {
        assert("P "@[0] != l[0]);
    }
    lemma_strip_prefix_of_concat("S "@, body);
    lemma_words_cons(t, vt);
    let ws = words(body);
    assert(ws =~= seq![t] + texts);
    let a = Seq::new(n, |i: int| sample_value(ws, i, numbers));
    let b = Seq::new(
        n,
        |i: int|
            if i < texts.len() && numbers(texts[i]) is Some {
                numbers(texts[i])->0
            } else {
                missing()
            },
    );
    assert forall|i: int| 0 <= i < n implies a[i] == b[i] by {
        if i < texts.len() {
            assert(ws[i + 1] == texts[i]);
        }
    }
    assert(a =~= b);
}

// ---------------------------------------------------------------------------
// The header
// ---------------------------------------------------------------------------

/// Why a feed header is refused. `T` is the form in which text is held.
#[derive(Debug)]
pub enum PlotHeaderError<T> {
    /// The width of the `W` line is no number.
    Window,
    /// A size of the `G` line is no number.
    GroupSize(NumError),
    /// A line that is none of the header's.
    UnknownLine(T),
    NoTitle,
    NoWindow,
    NoChannels,
    NoGroups,
    EmptyGroup,
    /// The sum of the sizes, and the number of channels that it differs from.
    Sizes(u128, usize),
}

impl View for PlotHeaderError<String> {
    type V = PlotHeaderError<Seq<char>>;

    open spec fn view(&self) -> PlotHeaderError<Seq<char>> {
        match *self {
            PlotHeaderError::Window => PlotHeaderError::Window,
            PlotHeaderError::GroupSize(e) => PlotHeaderError::GroupSize(e),
            PlotHeaderError::UnknownLine(t) => PlotHeaderError::UnknownLine(t@),
            PlotHeaderError::NoTitle => PlotHeaderError::NoTitle,
            PlotHeaderError::NoWindow => PlotHeaderError::NoWindow,
            PlotHeaderError::NoChannels => PlotHeaderError::NoChannels,
            PlotHeaderError::NoGroups => PlotHeaderError::NoGroups,
            PlotHeaderError::EmptyGroup => PlotHeaderError::EmptyGroup,
            PlotHeaderError::Sizes(a, b) => PlotHeaderError::Sizes(a, b),
        }
    }
}

impl PlotHeaderError<Seq<char>> {
    /// The wording of each refusal.
    pub open spec fn text(self) -> Seq<char> {
        match self {
            PlotHeaderError::Window => "窗口宽度不是数字"@,
            PlotHeaderError::GroupSize(e) => "图组大小不是数字: "@ + e.text(),
            PlotHeaderError::UnknownLine(t) => "未知的头部行："@ + quoted(t)
                + "（期望 T/W/C/G 开头的行）"@,
            PlotHeaderError::NoTitle => "头部缺少 T 行（窗口标题）"@,
            PlotHeaderError::NoWindow => "头部缺少 W 行（窗口宽度）"@,
            PlotHeaderError::NoChannels => "头部没有 C 行（至少一个通道）"@,
            PlotHeaderError::NoGroups => "头部缺少 G 行（图组大小）"@,
            PlotHeaderError::EmptyGroup => "图组大小不能为 0"@,
            PlotHeaderError::Sizes(total, n) => "图组大小之和 "@ + dec(total as nat)
                + " 与通道数 "@ + dec(n as nat) + " 不符"@,
        }
    }
}

impl PlotHeaderError<String> {
    /// The wording of this refusal.
    pub fn message(&self) -> (r: String)
        ensures
            r@ == self@.text(),
    {
        match self {
            PlotHeaderError::Window => String::from_str("窗口宽度不是数字"),
            PlotHeaderError::GroupSize(e) => {
                let mut s: String = String::from_str("图组大小不是数字: ");
                s.append(e.message());
                s
            },
            PlotHeaderError::UnknownLine(t) => {
                let mut s: String = String::from_str("未知的头部行：");
                s.append(quoted_text(t.as_str()).as_str());
                s.append("（期望 T/W/C/G 开头的行）");
                s
            },
            PlotHeaderError::NoTitle => String::from_str("头部缺少 T 行（窗口标题）"),
            PlotHeaderError::NoWindow => String::from_str("头部缺少 W 行（窗口宽度）"),
            PlotHeaderError::NoChannels => String::from_str(
                "头部没有 C 行（至少一个通道）",
            ),
            PlotHeaderError::NoGroups => String::from_str("头部缺少 G 行（图组大小）"),
            PlotHeaderError::EmptyGroup => String::from_str("图组大小不能为 0"),
            PlotHeaderError::Sizes(total, n) => {
                let mut s: String = String::from_str("图组大小之和 ");
                s.append(dec_wide_text(*total).as_str());
                s.append(" 与通道数 ");
                s.append(dec_text(*n as u64).as_str());
                s.append(" 不符");
                s
            },
        }
    }
}

/// What the reader of a header knows so far.
pub struct PlotHeaderState {
    pub title: Option<Seq<char>>,
    pub window: Option<Double>,
    pub channels: Seq<Seq<char>>,
    pub sizes: Seq<usize>,
}

/// The state before any line.
pub open spec fn plot_header_start() -> PlotHeaderState {
    PlotHeaderState { title: None, window: None, channels: Seq::empty(), sizes: Seq::empty() }
}

/// The sizes that words stand for; the first word that is none decides.
pub open spec fn sizes_of(ws: Seq<Seq<char>>) -> Result<Seq<usize>, NumError>
    decreases ws.len(),
{
    if ws.len() == 0 {
        Ok(Seq::empty())
    } else {
        match sizes_of(ws.drop_last()) {
            Err(e) => Err(e),
            Ok(s) => match unsigned_value(ws.last(), 10, usize::MAX as nat) {
                Err(e) => Err(e),
                Ok(n) => Ok(s.push(n as usize)),
            },
        }
    }
}

/// What one line adds to the header, and whether it was the last one.
pub open spec fn plot_header_step(st: PlotHeaderState, line: Seq<char>, numbers: Numbers) -> Result<
    (PlotHeaderState, bool),
    PlotHeaderError<Seq<char>>,
> {
    let l = trim_end_char(line, '\r');
    if let Some(rest) = strip_prefix(l, "T "@) {
        Ok((PlotHeaderState { title: Some(rest), ..st }, false))
    } else if let Some(rest) = strip_prefix(l, "W "@) {
        match numbers(trim(rest)) {
            Some(w) => Ok((PlotHeaderState { window: Some(w), ..st }, false)),
            None => Err(PlotHeaderError::Window),
        }
    } else if let Some(rest) = strip_prefix(l, "C "@) {
        Ok((PlotHeaderState { channels: st.channels.push(rest), ..st }, false))
    } else if let Some(rest) = strip_prefix(l, "G "@) {
        match sizes_of(words(rest)) {
            Ok(s) => Ok((PlotHeaderState { sizes: st.sizes + s, ..st }, true)),
            Err(e) => Err(PlotHeaderError::GroupSize(e)),
        }
    } else {
        Err(PlotHeaderError::UnknownLine(l))
    }
}

/// The sum of sizes.
pub open spec fn size_sum(s: Seq<usize>) -> nat
    decreases s.len(),
{
    if s.len() == 0 {
        0
    } else {
        size_sum(s.drop_last()) + s.last() as nat
    }
}

/// A header: its title, the width of the window, the channels and the sizes of
/// the groups.
pub struct PlotHeaderData {
    pub title: Seq<char>,
    pub window: Double,
    pub channels: Seq<Seq<char>>,
    pub sizes: Seq<usize>,
}

/// Whether the groups of a header share its channels out: no group is empty,
/// and together they have as many as there are.
pub open spec fn shares_out(sizes: Seq<usize>, channels: nat) -> bool {
    &&& sizes.len() > 0
    &&& channels > 0
    &&& !sizes.contains(0)
    &&& size_sum(sizes) == channels
}

/// The header that a state amounts to when no line follows.
pub open spec fn plot_header_finish(st: PlotHeaderState) -> Result<
    PlotHeaderData,
    PlotHeaderError<Seq<char>>,
> {
    if st.title is None {
        Err(PlotHeaderError::NoTitle)
    } else if st.window is None {
        Err(PlotHeaderError::NoWindow)
    } else if st.channels.len() == 0 {
        Err(PlotHeaderError::NoChannels)
    } else if st.sizes.len() == 0 {
        Err(PlotHeaderError::NoGroups)
    } else if st.sizes.contains(0) {
        Err(PlotHeaderError::EmptyGroup)
    } else if size_sum(st.sizes) != st.channels.len() {
        Err(PlotHeaderError::Sizes(size_sum(st.sizes) as u128, st.channels.len() as usize))
    } else {
        Ok(
            PlotHeaderData {
                title: st.title->0,
                window: st.window->0,
                channels: st.channels,
                sizes: st.sizes,
            },
        )
    }
}

/// The header that lines amount to, from a state on, and the number of lines
/// that were read. Lines behind the `G` line are not read.
pub open spec fn plot_header_of_lines(
    st: PlotHeaderState,
    ls: Seq<Seq<char>>,
    numbers: Numbers,
) -> Result<(PlotHeaderData, nat), PlotHeaderError<Seq<char>>>
    decreases ls.len(),
{
    if ls.len() == 0 {
        match plot_header_finish(st) {
            Ok(h) => Ok((h, 0)),
            Err(e) => Err(e),
        }
    } else {
        match plot_header_step(st, ls[0], numbers) {
            Err(e) => Err(e),
            Ok((next, true)) => match plot_header_finish(next) {
                Ok(h) => Ok((h, 1)),
                Err(e) => Err(e),
            },
            Ok((next, false)) => match plot_header_of_lines(next, ls.drop_first(), numbers) {
                Ok((h, n)) => Ok((h, n + 1)),
                Err(e) => Err(e),
            },
        }
    }
}

/// A feed header that was read.
#[derive(Debug)]
pub struct FeedHeader {
    pub title: String,
    pub window_secs: Double,
    pub channels: Vec<String>,
    pub group_sizes: Vec<usize>,
}

impl View for FeedHeader {
    type V = PlotHeaderData;

    open spec fn view(&self) -> PlotHeaderData {
        PlotHeaderData {
            title: self.title@,
            window: self.window_secs,
            channels: views(self.channels@),
            sizes: self.group_sizes@,
        }
    }
}

/// Group number `g` of groups of these sizes: the channels follow each other.
pub open spec fn group_channels(sizes: Seq<usize>, g: int) -> Seq<usize> {
    Seq::new(sizes[g] as nat, |i: int| (size_sum(sizes.take(g)) + i) as usize)
}

proof fn lemma_size_sum_take(s: Seq<usize>, g: int)
    requires
        0 <= g < s.len(),
    ensures
        size_sum(s.take(g + 1)) == size_sum(s.take(g)) + s[g],
        size_sum(s.take(g + 1)) <= size_sum(s),
    decreases s.len() - g,
{
    assert(s.take(g + 1).drop_last() =~= s.take(g));
    if g + 1 < s.len() {
        lemma_size_sum_take(s, g + 1);
    } else {
        assert(s.take(g + 1) =~= s);
    }
}

impl FeedHeader {
    /// The channels of each group, by number.
    pub fn groups_idx(&self) -> (r: Vec<Vec<usize>>)
        requires
            size_sum(self.group_sizes@) <= usize::MAX,
        ensures
            r@.len() == self.group_sizes@.len(),
            forall|g: int|
                0 <= g < r@.len() ==> (#[trigger] r@[g])@ == group_channels(self.group_sizes@, g),
    {
        let ghost sizes = self.group_sizes@;
        let mut r: Vec<Vec<usize>> = Vec::new();
        let mut start: usize = 0;
        let mut g: usize = 0;
        assert(sizes.take(0) =~= Seq::empty());
        while g < self.group_sizes.len()
            invariant
                g <= self.group_sizes@.len(),
                sizes == self.group_sizes@,
                size_sum(sizes) <= usize::MAX,
                start == size_sum(sizes.take(g as int)),
                r@.len() == g,
                forall|k: int| 0 <= k < g ==> (#[trigger] r@[k])@ == group_channels(sizes, k),
            decreases self.group_sizes@.len() - g,
        {
            let size: usize = self.group_sizes[g];
            proof {
                lemma_size_sum_take(sizes, g as int);
            }
            let mut channels: Vec<usize> = Vec::new();
            let mut i: usize = 0;
            while i < size
                invariant
                    i <= size,
                    start + size <= usize::MAX,
                    channels@ == Seq::new(i as nat, |k: int| (start + k) as usize),
                decreases size - i,
            {
                channels.push(start + i);
                i += 1;
                assert(channels@ =~= Seq::new(i as nat, |k: int| (start + k) as usize));
            }
            assert(channels@ =~= group_channels(sizes, g as int));
            r.push(channels);
            start += size;
            g += 1;
        }
        r
    }
}

/// The groups of a header that shares its channels out hold every channel
/// exactly once, in order.
pub proof fn law_groups_share_channels(sizes: Seq<usize>, channels: nat, c: int)
    requires
        shares_out(sizes, channels),
        channels <= usize::MAX,
        0 <= c < channels,
    ensures
        exists|g: int|
            0 <= g < sizes.len() && (#[trigger] group_channels(sizes, g)).contains(c as usize),
        forall|g: int, h: int|
            0 <= g < sizes.len() && 0 <= h < sizes.len() && (#[trigger] group_channels(
                sizes,
                g,
            )).contains(c as usize) && (#[trigger] group_channels(sizes, h)).contains(c as usize)
                ==> g == h,
        forall|g: int| 0 <= g < sizes.len() ==> (#[trigger] group_channels(sizes, g)).len() > 0,
{
    assert(sizes.take(sizes.len() as int) =~= sizes);
    let g = lemma_group_of(sizes, c, sizes.len() as int);
    lemma_size_sum_take(sizes, g);
    let i = c - size_sum(sizes.take(g));
    assert(group_channels(sizes, g)[i] == c as usize);
    assert forall|a: int, b: int|
        0 <= a < sizes.len() && 0 <= b < sizes.len() && (#[trigger] group_channels(
            sizes,
            a,
        )).contains(c as usize) && (#[trigger] group_channels(sizes, b)).contains(
            c as usize,
        ) implies a == b by {
        lemma_group_bounds(sizes, a, c);
        lemma_group_bounds(sizes, b, c);
        if a < b {
            lemma_size_sum_mono(sizes, a + 1, b);
        } else if b < a {
            lemma_size_sum_mono(sizes, b + 1, a);
        }
    }
    assert forall|g: int| 0 <= g < sizes.len() implies (#[trigger] group_channels(sizes, g)).len()
        > 0 by {
        assert(sizes.contains(sizes[g]));
    }
}

proof fn lemma_group_bounds(sizes: Seq<usize>, g: int, c: int)
    requires
        0 <= g < sizes.len(),
        size_sum(sizes) <= usize::MAX,
        0 <= c <= usize::MAX,
        group_channels(sizes, g).contains(c as usize),
    ensures
        size_sum(sizes.take(g)) <= c < size_sum(sizes.take(g + 1)),
{
    lemma_size_sum_take(sizes, g);
    let i = choose|i: int|
        0 <= i < group_channels(sizes, g).len() && group_channels(sizes, g)[i] == c as usize;
    assert(group_channels(sizes, g)[i] == (size_sum(sizes.take(g)) + i) as usize);
}

proof fn lemma_size_sum_mono(sizes: Seq<usize>, a: int, b: int)
    requires
        0 <= a <= b <= sizes.len(),
    ensures
        size_sum(sizes.take(a)) <= size_sum(sizes.take(b)),
    decreases b - a,
{
    if a < b {
        lemma_size_sum_take(sizes, a);
        lemma_size_sum_mono(sizes, a + 1, b);
    }
}

proof fn lemma_group_of(sizes: Seq<usize>, c: int, n: int) -> (g: int)
    requires
        0 <= n <= sizes.len(),
        0 <= c < size_sum(sizes.take(n)),
    ensures
        0 <= g < n,
        size_sum(sizes.take(g)) <= c < size_sum(sizes.take(g)) + sizes[g],
    decreases n,
{
    if n == 0 {
        assert(sizes.take(0) =~= Seq::empty());
        0
    } else {
        lemma_size_sum_take(sizes, n - 1);
        if c < size_sum(sizes.take(n - 1)) {
            lemma_group_of(sizes, c, n - 1)
        } else {
            n - 1
        }
    }
}

/// Reads a header line by line.
#[derive(Debug)]
pub struct PlotHeaderReader {
    title: Option<String>,
    window: Option<Double>,
    channels: Vec<String>,
    sizes: Vec<usize>,
}

impl View for PlotHeaderReader {
    type V = PlotHeaderState;

    closed spec fn view(&self) -> PlotHeaderState {
        PlotHeaderState {
            title: match self.title {
                Some(t) => Some(t@),
                None => None,
            },
            window: self.window,
            channels: views(self.channels@),
            sizes: self.sizes@,
        }
    }
}

fn read_sizes(rest: &[char]) -> (r: Result<Vec<usize>, NumError>)
    ensures
        match r {
            Ok(v) => sizes_of(words(rest@)) == Ok::<_, NumError>(v@),
            Err(e) => sizes_of(words(rest@)) == Err::<Seq<usize>, _>(e),
        },
{
    let ws: Vec<String> = words_of(rest);
    let ghost all = views(ws@);
    let mut v: Vec<usize> = Vec::new();
    let mut i: usize = 0;
    assert(all.take(0) =~= Seq::empty());
    while i < ws.len()
        invariant
            i <= ws@.len(),
            all == views(ws@),
            all == words(rest@),
            sizes_of(all.take(i as int)) == Ok::<_, NumError>(v@),
        decreases ws@.len() - i,
    {
        let ghost next = all.take(i + 1);
        assert(next.drop_last() =~= all.take(i as int));
        assert(next.last() == ws@[i as int]@);
        let w: Vec<char> = chars_of(ws[i].as_str());
        match read_usize(w.as_slice()) {
            Ok(n) => {
                v.push(n);
            },
            Err(e) => {
                proof {
                    lemma_sizes_error(all, i + 1);
                }
                return Err(e);
            },
        }
        i += 1;
    }
    assert(all.take(i as int) =~= all);
    Ok(v)
}

proof fn lemma_sizes_error(ws: Seq<Seq<char>>, n: int)
    requires
        0 <= n <= ws.len(),
        sizes_of(ws.take(n)) is Err,
    ensures
        sizes_of(ws) == sizes_of(ws.take(n)),
    decreases ws.len() - n,
{
    if n < ws.len() {
        assert(ws.take(n + 1).drop_last() =~= ws.take(n));
        lemma_sizes_error(ws, n + 1);
    } else {
        assert(ws.take(n) =~= ws);
    }
}

fn sum_sizes(sizes: &Vec<usize>) -> (r: u128)
    ensures
        r == size_sum(sizes@),
{
    let mut total: u128 = 0;
    let mut i: usize = 0;
    assert(sizes@.take(0) =~= Seq::empty());
    while i < sizes.len()
        invariant
            i <= sizes@.len(),
            total == size_sum(sizes@.take(i as int)),
            total <= i as int * (usize::MAX as int),
        decreases sizes@.len() - i,
    {
        proof {
            lemma_size_sum_take(sizes@, i as int);
            assert((i as int + 1) * (usize::MAX as int) == i as int * (usize::MAX as int)
                + usize::MAX as int) by (nonlinear_arith);
            assert((i as int + 1) * (usize::MAX as int)
                <= 0x1_0000_0000_0000_0000 * 0xffff_ffff_ffff_ffff) by (nonlinear_arith)
                requires
                    0 <= i as int + 1 <= 0x1_0000_0000_0000_0000,
                    0 <= usize::MAX as int <= 0xffff_ffff_ffff_ffff,
            ;
        }
        total += sizes[i] as u128;
        i += 1;
    }
    assert(sizes@.take(i as int) =~= sizes@);
    total
}

impl PlotHeaderReader {
    /// A reader that has seen no line.
    pub fn new() -> (r: Self)
        ensures
            r@ == plot_header_start(),
    {
        let r = PlotHeaderReader {
            title: None,
            window: None,
            channels: Vec::new(),
            sizes: Vec::new(),
        };
        assert(views(r.channels@) =~= Seq::empty());
        assert(r.sizes@ =~= Seq::empty());
        r
    }

    /// Takes one line in; `true` when the header is complete with it.
    pub fn push_line<F: Fn(&str) -> Option<Double>>(&mut self, line: &str, parse: &F) -> (r: Result<
        bool,
        PlotHeaderError<String>,
    >)
        requires
            parses_any(*parse),
        ensures
            forall|numbers: Numbers| #[trigger]
                parses(*parse, numbers) ==> match plot_header_step(
                    old(self)@,
                    line@,
                    numbers,
                ) {
                    Ok((next, full)) => r == Ok::<bool, PlotHeaderError<String>>(full)
                        && final(self)@ == next,
                    Err(e) => r is Err && r->Err_0@ == e && final(self)@ == old(self)@,
                },
    {
        let v: Vec<char> = chars_of(line);
        let l: &[char] = trim_end_char_of(v.as_slice(), '\r');
        if let Some(rest) = strip_prefix_of(l, "T ") {
            self.title = Some(string_of(rest));
            return Ok(false);
        }
        if let Some(rest) = strip_prefix_of(l, "W ") {
            let text: String = string_of(trim_of(rest));
            return match parse(text.as_str()) {
                Some(w) => {
                    self.window = Some(w);
                    Ok(false)
                },
                None => Err(PlotHeaderError::Window),
            };
        }
        if let Some(rest) = strip_prefix_of(l, "C ") {
            let ghost before = views(self.channels@);
            self.channels.push(string_of(rest));
            assert(views(self.channels@) =~= before.push(rest@));
            return Ok(false);
        }
        if let Some(rest) = strip_prefix_of(l, "G ") {
            return match read_sizes(rest) {
                Ok(mut sizes) => {
                    self.sizes.append(&mut sizes);
                    Ok(true)
                },
                Err(e) => Err(PlotHeaderError::GroupSize(e)),
            };
        }
        Err(PlotHeaderError::UnknownLine(string_of(l)))
    }

    /// The header, when no line follows.
    pub fn finish(self) -> (r: Result<FeedHeader, PlotHeaderError<String>>)
        ensures
            match r {
                Ok(h) => plot_header_finish(self@) == Ok::<_, PlotHeaderError<Seq<char>>>(h@)
                    && shares_out(h.group_sizes@, h.channels@.len()),
                Err(e) => plot_header_finish(self@) == Err::<PlotHeaderData, _>(e@),
            },
    {
        let title: String = match self.title {
            None => {
                return Err(PlotHeaderError::NoTitle);
            },
            Some(t) => t,
        };
        let window_secs: Double = match self.window {
            None => {
                return Err(PlotHeaderError::NoWindow);
            },
            Some(w) => w,
        };
        if self.channels.len() == 0 {
            return Err(PlotHeaderError::NoChannels);
        }
        if self.sizes.len() == 0 {
            return Err(PlotHeaderError::NoGroups);
        }
        let mut i: usize = 0;
        while i < self.sizes.len()
            invariant
                i <= self.sizes@.len(),
                self@.title is Some,
                self@.window is Some,
                self@.channels.len() > 0,
                self.sizes@.len() > 0,
                self@.sizes == self.sizes@,
                forall|k: int| 0 <= k < i ==> self.sizes@[k] != 0,
            decreases self.sizes@.len() - i,
        {
            if self.sizes[i] == 0 {
                assert(self.sizes@.contains(self.sizes@[i as int]));
                return Err(PlotHeaderError::EmptyGroup);
            }
            i += 1;
        }
        let total: u128 = sum_sizes(&self.sizes);
        if total != self.channels.len() as u128 {
            return Err(PlotHeaderError::Sizes(total, self.channels.len()));
        }
        Ok(FeedHeader { title, window_secs, channels: self.channels, group_sizes: self.sizes })
    }
}

/// The view of a header that was read.
pub open spec fn plot_header_view(
    r: Result<(FeedHeader, usize), PlotHeaderError<String>>,
) -> Result<(PlotHeaderData, nat), PlotHeaderError<Seq<char>>> {
    match r {
        Ok((h, n)) => Ok((h@, n as nat)),
        Err(e) => Err(e@),
    }
}

/// Reads the header at the start of a feed. The number tells how many lines
/// belong to it; the data lines follow.
pub fn read_header<F: Fn(&str) -> Option<Double>>(text: &str, parse: &F) -> (r: Result<
    (FeedHeader, usize),
    PlotHeaderError<String>,
>)
    requires
        parses_any(*parse),
    ensures
        forall|numbers: Numbers| #[trigger]
            parses(*parse, numbers) ==> plot_header_view(r) == plot_header_of_lines(
                plot_header_start(),
                lines(text@),
                numbers,
            ),
        r matches Ok((h, _)) ==> shares_out(h.group_sizes@, h.channels@.len()),
{
    let v: Vec<char> = chars_of(text);
    let ls: Vec<String> = lines_of(v.as_slice());
    let mut reader = PlotHeaderReader::new();
    let ghost all = views(ls@);
    let mut i: usize = 0;
    assert(all.skip(0) =~= all);
    while i < ls.len()
        invariant
            parses_any(*parse),
            i <= ls@.len(),
            all == views(ls@),
            all == lines(text@),
            forall|numbers: Numbers| #[trigger]
                parses(*parse, numbers) ==> plot_header_of_lines(
                    plot_header_start(),
                    all,
                    numbers,
                ) == (match plot_header_of_lines(reader@, all.skip(i as int), numbers) {
                    Ok((h, n)) => Ok((h, n + i as nat)),
                    Err(e) => Err(e),
                }),
        decreases ls@.len() - i,
    {
        assert(all.skip(i as int)[0] == ls@[i as int]@);
        assert(all.skip(i as int).drop_first() =~= all.skip(i + 1));
        match reader.push_line(ls[i].as_str(), parse) {
            Err(e) => {
                return Err(e);
            },
            Ok(true) => {
                return match reader.finish() {
                    Ok(h) => Ok((h, i + 1)),
                    Err(e) => Err(e),
                };
            },
            Ok(false) => {},
        }
        i += 1;
    }
    assert(all.skip(i as int) =~= Seq::empty());
    match reader.finish() {
        Ok(h) => Ok((h, i)),
        Err(e) => Err(e),
    }
}

/// The `C` lines of a header, each with its newline.
pub open spec fn channel_text(channels: Seq<Seq<char>>) -> Seq<char>
    decreases channels.len(),
{
    if channels.len() == 0 {
        Seq::empty()
    } else {
        channel_text(channels.drop_last()) + "C "@ + channels.last() + "\n"@
    }
}

/// The texts of sizes.
pub open spec fn size_texts(sizes: Seq<usize>) -> Seq<Seq<char>> {
    sizes.map_values(|n: usize| dec(n as nat))
}

/// Sizes in decimal, with spaces between them.
pub open spec fn sizes_text(sizes: Seq<usize>) -> Seq<char>
    decreases sizes.len(),
{
    if sizes.len() == 0 {
        Seq::empty()
    } else if sizes.len() == 1 {
        dec(sizes[0] as nat)
    } else {
        sizes_text(sizes.drop_last()) + " "@ + dec(sizes.last() as nat)
    }
}

/// The text of a header. The width of the window is given as a text.
pub open spec fn plot_header_text(
    title: Seq<char>,
    window: Seq<char>,
    channels: Seq<Seq<char>>,
    sizes: Seq<usize>,
) -> Seq<char> {
    "T "@ + title + "\nW "@ + window + "\n"@ + channel_text(channels) + "G "@ + sizes_text(sizes)
        + "\n"@
}

/// The sizes of groups.
pub open spec fn group_sizes(groups: Seq<Vec<usize>>) -> Seq<usize> {
    groups.map_values(|g: Vec<usize>| g@.len() as usize)
}

/// Writes a header. The width of the window is given as a text.
pub fn write_header(title: &str, window: &str, channels: &[String], groups: &[Vec<usize>]) -> (r:
    String)
    ensures
        r@ == plot_header_text(title@, window@, views(channels@), group_sizes(groups@)),
{
    let mut s: String = String::from_str("T ");
    s.append(title);
    s.append("\nW ");
    s.append(window);
    s.append("\n");
    let ghost head = s@;
    let ghost all = views(channels@);
    let mut i: usize = 0;
    assert(head + channel_text(all.take(0)) =~= head);
    while i < channels.len()
        invariant
            i <= channels@.len(),
            all == views(channels@),
            s@ == head + channel_text(all.take(i as int)),
        decreases channels@.len() - i,
    {
        let ghost before = channel_text(all.take(i as int));
        s.append("C ");
        s.append(channels[i].as_str());
        s.append("\n");
        assert(all.take(i + 1).drop_last() =~= all.take(i as int));
        assert(head + before + "C "@ + channels@[i as int]@ + "\n"@ =~= head + (before + "C "@
            + channels@[i as int]@ + "\n"@));
        i += 1;
    }
    assert(all.take(i as int) =~= all);
    s.append("G ");
    let ghost head = s@;
    let ghost sizes = group_sizes(groups@);
    let mut k: usize = 0;
    assert(head + sizes_text(sizes.take(0)) =~= head);
    while k < groups.len()
        invariant
            k <= groups@.len(),
            sizes == group_sizes(groups@),
            s@ == head + sizes_text(sizes.take(k as int)),
        decreases groups@.len() - k,
    {
        let ghost before = sizes_text(sizes.take(k as int));
        if k > 0 {
            s.append(" ");
        }
        s.append(dec_text(groups[k].len() as u64).as_str());
        assert(sizes.take(k + 1).drop_last() =~= sizes.take(k as int));
        assert(sizes.take(k + 1).last() == groups@[k as int]@.len());
        assert(s@ =~= head + sizes_text(sizes.take(k + 1)));
        k += 1;
    }
    assert(sizes.take(k as int) =~= sizes);
    s.append("\n");
    s
}

spec fn channel_lines(channels: Seq<Seq<char>>) -> Seq<Seq<char>> {
    channels.map_values(|l: Seq<char>| "C "@ + l)
}

proof fn lemma_channel_text_lines(channels: Seq<Seq<char>>, rest: Seq<char>)
    requires
        forall|i: int| 0 <= i < channels.len() ==> carried(#[trigger] channels[i]),
    ensures
        lines(channel_text(channels) + rest) == channel_lines(channels) + lines(rest),
    decreases channels.len(),
{
    reveal_strlit("C ");
    reveal_strlit("\n");
    if channels.len() == 0 {
        assert(channel_text(channels) + rest =~= rest);
        assert(channel_lines(channels) + lines(rest) =~= lines(rest));
    } else {
        let l = channels.last();
        let line = "C "@ + l;
        let front = channels.drop_last();
        assert(carried(l));
        lemma_marked("C "@, l);
        assert forall|i: int| 0 <= i < front.len() implies carried(#[trigger] front[i]) by {
            assert(front[i] == channels[i]);
        }
        lemma_channel_text_lines(front, line + seq!['\n'] + rest);
        assert(channel_text(channels) + rest =~= channel_text(front) + (line + seq!['\n'] + rest));
        lemma_lines_cons(line, rest);
        assert(channel_lines(channels) =~= channel_lines(front) + seq![line]);
        assert(channel_lines(front) + (seq![line] + lines(rest)) =~= channel_lines(channels)
            + lines(rest));
    }
}

/// A line made of a mark and a text that the header can carry.
proof fn lemma_marked(mark: Seq<char>, s: Seq<char>)
    requires
        mark.len() == 2,
        mark[0] != '\n',
        mark[1] == ' ',
        carried(s),
    ensures
        !(mark + s).contains('\n'),
        strip_cr(mark + s) == mark + s,
        trim_end_char(mark + s, '\r') == mark + s,
        strip_prefix(mark + s, mark) == Some(s),
        (mark + s)[0] == mark[0],
{
    let l = mark + s;
    assert forall|i: int| 0 <= i < l.len() implies l[i] != '\n' by {
        if i >= 2 {
            assert(l[i] == s[i - 2]);
            assert(s.contains(s[i - 2]));
        }
    }
    lemma_strip_prefix_of_concat(mark, s);
    assert(strip_cr(l) =~= l);
}

proof fn lemma_other_mark(mark: Seq<char>, other: Seq<char>, s: Seq<char>)
    requires
        mark.len() == 2,
        other.len() == 2,
        mark[0] != other[0],
    ensures
        strip_prefix(mark + s, other) is None,
{
    assert((mark + s)[0] != other[0]);
}

proof fn lemma_channels_read(
    st: PlotHeaderState,
    channels: Seq<Seq<char>>,
    done: int,
    rest: Seq<Seq<char>>,
    numbers: Numbers,
)
    requires
        0 <= done <= channels.len(),
        st.channels == channels.take(done),
        forall|i: int| 0 <= i < channels.len() ==> carried(#[trigger] channels[i]),
    ensures
        plot_header_of_lines(st, channel_lines(channels).skip(done) + rest, numbers) == (
        match plot_header_of_lines((PlotHeaderState { channels, ..st }), rest, numbers) {
            Ok((h, n)) => Ok((h, n + (channels.len() - done) as nat)),
            Err(e) => Err(e),
        }),
    decreases channels.len() - done,
{
    reveal_strlit("C ");
    reveal_strlit("T ");
    reveal_strlit("W ");
    let ls = channel_lines(channels).skip(done) + rest;
    if done == channels.len() {
        assert(ls =~= rest);
        assert(channels.take(done) =~= channels);
    } else {
        assert(ls[0] == "C "@ + channels[done]);
        assert(carried(channels[done]));
        lemma_marked("C "@, channels[done]);
        lemma_other_mark("C "@, "T "@, channels[done]);
        lemma_other_mark("C "@, "W "@, channels[done]);
        assert(channels.take(done).push(channels[done]) =~= channels.take(done + 1));
        assert(ls.drop_first() =~= channel_lines(channels).skip(done + 1) + rest);
        let next = PlotHeaderState { channels: channels.take(done + 1), ..st };
        lemma_channels_read(next, channels, done + 1, rest, numbers);
        assert(plot_header_step(st, ls[0], numbers) == Ok::<_, PlotHeaderError<Seq<char>>>(
            (next, false),
        ));
    }
}

proof fn lemma_sizes_text(sizes: Seq<usize>)
    ensures
        words(sizes_text(sizes)) == size_texts(sizes),
        sizes_of(size_texts(sizes)) == Ok::<_, NumError>(sizes),
        carried(sizes_text(sizes)),
        sizes.len() > 0 ==> sizes_text(sizes).len() > 0 && !is_white_space(sizes_text(sizes)[0])
            && !is_white_space(sizes_text(sizes).last()),
    decreases sizes.len(),
{
    reveal_strlit(" ");
    if sizes.len() == 0 {
        assert(words(sizes_text(sizes)) =~= size_texts(sizes));
        assert(sizes_of(size_texts(sizes))->Ok_0 =~= sizes);
    } else {
        let front = sizes.drop_last();
        let last = dec(sizes.last() as nat);
        lemma_sizes_text(front);
        lemma_numeral_shape(sizes.last() as nat, 10);
        lemma_numeral_plain(sizes.last() as nat, 10);
        law_numeral_read_back(sizes.last() as nat, 10, usize::MAX as nat);
        assert(is_white_space('\n') && is_white_space('\r'));
        assert(is_word(last));
        assert(size_texts(sizes).drop_last() =~= size_texts(front));
        assert(size_texts(sizes).last() == last);
        assert(front.push(sizes.last()) =~= sizes);
        let all = sizes_text(sizes);
        if sizes.len() == 1 {
            lemma_words_cons(last, Seq::empty());
            assert(last + Seq::<char>::empty() =~= last);
            assert(words(all) =~= size_texts(sizes));
        } else {
            let head = sizes_text(front);
            lemma_words_append(head, last);
            assert(words(all) =~= size_texts(sizes));
            assert(all[0] == head[0]);
            assert forall|i: int| 0 <= i < all.len() implies all[i] != '\n' by {
                if i < head.len() {
                    assert(all[i] == head[i]);
                    assert(head.contains(head[i]));
                } else if i > head.len() {
                    assert(all[i] == last[i - head.len() - 1]);
                }
            }
            assert(all.last() == last.last());
        }
    }
}

/// A word behind a space is the last word of a text.
proof fn lemma_words_append(head: Seq<char>, w: Seq<char>)
    requires
        is_word(w),
    ensures
        words(head + " "@ + w) == words(head).push(w),
    decreases head.len(),
{
    reveal_strlit(" ");
    let all = head + " "@ + w;
    if head.len() == 0 {
        assert(all =~= seq![' '] + (w + Seq::<char>::empty()));
        lemma_words_space(w + Seq::<char>::empty());
        lemma_words_cons(w, Seq::empty());
        assert(words(all) =~= words(head).push(w));
    } else if is_white_space(head[0]) {
        let rest = head.drop_first();
        lemma_words_append(rest, w);
        assert(all.drop_first() =~= rest + " "@ + w);
        assert(trim_start(all) == trim_start(rest + " "@ + w));
        assert(trim_start(head) == trim_start(rest));
        assert(words(all) == words(rest + " "@ + w));
        assert(words(head) == words(rest));
    } else {
        lemma_word_len(head);
        let n = word_len(head);
        let first = head.take(n);
        let rest = head.skip(n);
        assert(head =~= first + rest);
        assert forall|i: int| 0 <= i < first.len() implies !is_white_space(#[trigger] first[i]) by {
            assert(first[i] == head[i]);
        }
        lemma_words_append(rest, w);
        let tail = rest + " "@ + w;
        assert(all =~= first + tail);
        if rest.len() > 0 {
            assert(tail[0] == rest[0] && rest[0] == head[n]);
        } else {
            assert(tail[0] == ' ');
        }
        lemma_words_cons(first, tail);
        lemma_words_cons(first, rest);
        assert(words(all) =~= words(head).push(w));
    }
}

/// A header is read back as it was written, and the lines behind it are left to
/// the reader of the data. `window` is the text of the number `width`.
pub proof fn law_plot_header_round_trip(
    title: Seq<char>,
    window: Seq<char>,
    width: Double,
    channels: Seq<Seq<char>>,
    sizes: Seq<usize>,
    rest: Seq<char>,
    numbers: Numbers,
)
    requires
        carried(title),
        is_word(window),
        numbers(window) == Some(width),
        forall|i: int| 0 <= i < channels.len() ==> carried(#[trigger] channels[i]),
        shares_out(sizes, channels.len()),
    ensures
        plot_header_of_lines(
            plot_header_start(),
            lines(plot_header_text(title, window, channels, sizes) + rest),
            numbers,
        ) == Ok::<_, PlotHeaderError<Seq<char>>>(
            ((PlotHeaderData { title, window: width, channels, sizes }), channels.len() + 3),
        ),
{
    reveal_strlit("C ");
    reveal_strlit("T ");
    reveal_strlit("W ");
    reveal_strlit("G ");
    reveal_strlit("\n");
    reveal_strlit("\nW ");
    let t = "T "@ + title;
    let w = "W "@ + window;
    let g = "G "@ + sizes_text(sizes);
    let after_g = g + seq!['\n'] + rest;
    let after_w = channel_text(channels) + after_g;
    assert(plot_header_text(title, window, channels, sizes) + rest =~= t + seq!['\n'] + (w + seq![
        '\n',
    ] + after_w));
    assert(is_white_space('\n') && is_white_space('\r'));
    assert(carried(window)) by {
        assert(!is_white_space(window.last()));
    }
    lemma_marked("T "@, title);
    lemma_marked("W "@, window);
    lemma_sizes_text(sizes);
    lemma_marked("G "@, sizes_text(sizes));
    lemma_lines_cons(t, w + seq!['\n'] + after_w);
    lemma_lines_cons(w, after_w);
    lemma_channel_text_lines(channels, after_g);
    lemma_lines_cons(g, rest);
    let tail = seq![g] + lines(rest);
    let rows = channel_lines(channels) + tail;
    let all = lines(plot_header_text(title, window, channels, sizes) + rest);
    assert(all =~= seq![t, w] + rows);
    lemma_other_mark("W "@, "T "@, window);
    lemma_other_mark("G "@, "T "@, sizes_text(sizes));
    lemma_other_mark("G "@, "W "@, sizes_text(sizes));
    lemma_other_mark("G "@, "C "@, sizes_text(sizes));
    lemma_trim_plain(window);
    let st1 = PlotHeaderState { title: Some(title), ..plot_header_start() };
    let st2 = PlotHeaderState { window: Some(width), ..st1 };
    let st3 = PlotHeaderState { channels, ..st2 };
    let st4 = PlotHeaderState { sizes, ..st3 };
    assert(all[0] == t);
    assert(all.drop_first() =~= seq![w] + rows);
    assert(all.drop_first()[0] == w);
    assert(all.drop_first().drop_first() =~= rows);
    assert(plot_header_step(plot_header_start(), t, numbers) == Ok::<
        _,
        PlotHeaderError<Seq<char>>,
    >((st1, false)));
    assert(plot_header_step(st1, w, numbers) == Ok::<_, PlotHeaderError<Seq<char>>>((st2, false)));
    assert(channels.take(0) =~= Seq::empty());
    lemma_channels_read(st2, channels, 0, tail, numbers);
    assert(channel_lines(channels).skip(0) + tail =~= rows);
    assert(Seq::<usize>::empty() + sizes =~= sizes);
    assert(tail[0] == g);
    assert(plot_header_step(st3, g, numbers) == Ok::<_, PlotHeaderError<Seq<char>>>((st4, true)));
    assert(plot_header_of_lines(st3, tail, numbers) == Ok::<_, PlotHeaderError<Seq<char>>>(
        ((PlotHeaderData { title, window: width, channels, sizes }), 1nat),
    ));
    assert(plot_header_of_lines(st1, all.drop_first(), numbers) == Ok::<
        _,
        PlotHeaderError<Seq<char>>,
    >(((PlotHeaderData { title, window: width, channels, sizes }), channels.len() + 2)));
}

/// What is stated of a header is stated of all that is handed out.
pub proof fn law_headers_are_seen_whole(
    r: Result<(FeedHeader, usize), PlotHeaderError<String>>,
    i: int,
)
    ensures
        match r {
            Ok((h, n)) => plot_header_view(r) matches Ok((d, m)) && {
                &&& m == n
                &&& d.title == h.title@
                &&& d.window == h.window_secs
                &&& d.sizes == h.group_sizes@
                &&& d.channels.len() == h.channels@.len()
                &&& 0 <= i < h.channels@.len() ==> d.channels[i] == h.channels@[i]@
            },
            Err(e) => plot_header_view(r) matches Err(_),
        },
{
}

}
