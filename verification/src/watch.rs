//! Watched variables: the rows of a watch window, their sampling and what is
//! sent to the window.
//!
//! A compound variable is spread over rows, one for each of its parts, up to a
//! limit; a last row then tells how many are left out. The parts of a variable
//! share one read of memory.
use vstd::prelude::*;
use vstd::slice::slice_subrange;
use crate::config::{ToolConfig, WatchGroup};
use crate::number::{dec, dec_text, pad_right, pad_right_text};
use crate::layout::{
    law_leaves_lie_inside, leaf_at, leaf_count, leaf_size, sound, type_size, LeafData, LeafType,
};
use crate::likeness::{lemma_alike_leaves, lemma_alike_sizes};
use crate::render::{leaf_text, write_leaf};
use crate::symbol::{writes, writes_any, FloatTexts};
use crate::table::{lookup, names};
use crate::text::{join, join_of, mentions, same_text, views};
use crate::variable::{
    is_prepared, law_images_fix_variables, outcome_view, prepare_symbol, PrepareError,
    PreparedSymbol,
};

verus! {

// ---------------------------------------------------------------------------
// Rows
// ---------------------------------------------------------------------------

/// Where the value of a row stands: in a variable, at an offset.
#[derive(Debug)]
pub struct Field {
    pub address: u64,
    /// The size of the variable.
    pub size: usize,
    pub offset: usize,
    pub kind: LeafType,
}

/// What a [`Field`] holds.
pub struct FieldData {
    pub address: u64,
    pub size: usize,
    pub offset: usize,
    pub kind: LeafData,
}

impl View for Field {
    type V = FieldData;

    open spec fn view(&self) -> FieldData {
        FieldData {
            address: self.address,
            size: self.size,
            offset: self.offset,
            kind: self.kind@,
        }
    }
}

/// What a row shows. `T` is the form in which text is held, `F` that of a field.
#[derive(Debug)]
pub enum RowSource<T, F> {
    /// A variable that cannot be read, and why.
    Broken(T),
    /// A note on the parts that are left out.
    Summary(T),
    /// A value in memory.
    Live(F),
}

/// A row of a watch window.
#[derive(Debug)]
pub struct WatchRow {
    pub label: String,
    pub source: RowSource<String, Field>,
    pub last_value: String,
    pub last_error: Option<String>,
    /// The text that the window was sent last.
    pub last_sent: Option<String>,
}

/// What a row is before its first sample.
pub struct RowData {
    pub label: Seq<char>,
    pub source: RowSource<Seq<char>, FieldData>,
}

/// The view of what a row shows.
pub open spec fn source_view(s: RowSource<String, Field>) -> RowSource<Seq<char>, FieldData> {
    match s {
        RowSource::Broken(t) => RowSource::Broken(t@),
        RowSource::Summary(t) => RowSource::Summary(t@),
        RowSource::Live(f) => RowSource::Live(f@),
    }
}

impl View for WatchRow {
    type V = RowData;

    open spec fn view(&self) -> RowData {
        RowData { label: self.label@, source: source_view(self.source) }
    }
}

/// The view of a text that may be missing.
pub open spec fn text_view(t: Option<String>) -> Option<Seq<char>> {
    match t {
        Some(s) => Some(s@),
        None => None,
    }
}

impl WatchRow {
    /// Whether the row has neither been sampled nor sent.
    pub open spec fn fresh(self) -> bool {
        self.last_value@.len() == 0 && self.last_error is None && self.last_sent is None
    }

    /// What the window shows in the row.
    pub open spec fn shown(self) -> Seq<char> {
        match self.source {
            RowSource::Broken(t) => t@,
            RowSource::Summary(t) => t@,
            RowSource::Live(_) => match self.last_error {
                Some(e) => e@,
                None => self.last_value@,
            },
        }
    }

    /// What the window shows in the row: the value, or what is wrong, or the
    /// note on the parts that are left out.
    pub fn display_text(&self) -> (r: String)
        ensures
            r@ == self.shown(),
    {
        match &self.source {
            RowSource::Broken(t) => String::from_str(t.as_str()),
            RowSource::Summary(t) => String::from_str(t.as_str()),
            RowSource::Live(_) => match &self.last_error {
                Some(e) => String::from_str(e.as_str()),
                None => String::from_str(self.last_value.as_str()),
            },
        }
    }

    /// Whether the row shows a failure: the variable cannot be read, or the last
    /// read of it failed.
    pub open spec fn failing(self) -> bool {
        match self.source {
            RowSource::Broken(_) => true,
            RowSource::Summary(_) => false,
            RowSource::Live(_) => self.last_error is Some,
        }
    }

    /// Tells whether the row shows a failure.
    pub fn failed(&self) -> (r: bool)
        ensures
            r == self.failing(),
    {
        match &self.source {
            RowSource::Broken(_) => true,
            RowSource::Summary(_) => false,
            RowSource::Live(_) => self.last_error.is_some(),
        }
    }

    /// Whether the window does not show what it should.
    pub open spec fn unsent(self) -> bool {
        text_view(self.last_sent) != Some(self.shown())
    }

    /// Remembers that the window was sent `text`.
    pub fn mark_sent(&mut self, text: String)
        ensures
            *final(self) == (WatchRow { last_sent: Some(text), ..*old(self) }),
    {
        self.last_sent = Some(text);
    }
}

fn fresh_row(label: String, source: RowSource<String, Field>) -> (r: WatchRow)
    ensures
        r.label == label,
        r.source == source,
        r.fresh(),
{
    WatchRow { label, source, last_value: String::new(), last_error: None, last_sent: None }
}

/// The note on `left` parts that are left out.
pub open spec fn summary_text(left: nat) -> Seq<char> {
    "… 其余 "@ + dec(left)
        + " 项未显示（调大 max_elems 或直接监视具体成员/下标）"@
}

/// The number of parts that get a row.
pub open spec fn shown_parts(parts: nat, max_elems: nat) -> nat {
    if parts < max_elems {
        parts
    } else {
        max_elems
    }
}

/// The row of leaf number `k`.
pub open spec fn part_row(expr: Seq<char>, p: PreparedSymbol, k: nat) -> RowData {
    let part = leaf_at(p.kind, k);
    RowData {
        label: expr + part.label,
        source: RowSource::Live(
            FieldData {
                address: p.address,
                size: p.size,
                offset: (p.offset + part.offset) as usize,
                kind: part.kind,
            },
        ),
    }
}

/// The rows of the expression `expr`: one row with what is wrong, one row for a
/// single value, or a row for each part up to the limit and a note on the others.
pub open spec fn rows_of(
    expr: Seq<char>,
    outcome: Result<PreparedSymbol, PrepareError<Seq<char>>>,
    max_elems: nat,
) -> Seq<RowData> {
    match outcome {
        Err(e) => seq![RowData { label: expr, source: RowSource::Broken(e.text(expr)) }],
        Ok(p) => if p.kind is Plain {
            seq![part_row(expr, p, 0)]
        } else {
            let n = shown_parts(leaf_count(p.kind), max_elems);
            let rows = Seq::new(n, |i: int| part_row(expr, p, i as nat));
            if n < leaf_count(p.kind) {
                rows.push(
                    RowData {
                        label: expr,
                        source: RowSource::Summary(
                            summary_text((leaf_count(p.kind) - n) as nat),
                        ),
                    },
                )
            } else {
                rows
            }
        },
    }
}

/// The views of rows.
pub open spec fn row_views(rows: Seq<WatchRow>) -> Seq<RowData> {
    rows.map_values(|r: WatchRow| r@)
}

/// Whether rows have neither been sampled nor sent.
pub open spec fn all_fresh(rows: Seq<WatchRow>) -> bool {
    forall|i: int| 0 <= i < rows.len() ==> (#[trigger] rows[i]).fresh()
}

/// Whether the values of rows lie in the variables that they are parts of.
pub open spec fn rows_fit(rows: Seq<WatchRow>) -> bool {
    forall|i: int|
        0 <= i < rows.len() ==> ((#[trigger] rows[i]).source matches RowSource::Live(f) ==> f.offset
            + leaf_size(f.kind@) <= f.size)
}

fn leaf_row(expr: &str, p: &PreparedSymbol, k: usize) -> (r: WatchRow)
    requires
        p.fits(),
        k < leaf_count(p.kind),
    ensures
        r@ == part_row(expr@, *p, k as nat),
        r.fresh(),
        r.source matches RowSource::Live(f) ==> f.offset + leaf_size(f.kind@) <= f.size,
{
    proof {
        law_leaves_lie_inside(p.kind, k as nat);
    }
    let (label, offset, kind): (String, usize, &LeafType) = p.kind.leaf(k);
    let mut name: String = String::from_str(expr);
    name.append(label.as_str());
    let field: Field = Field {
        address: p.address,
        size: p.size,
        offset: p.offset + offset,
        kind: kind.copy(),
    };
    fresh_row(name, RowSource::Live(field))
}

/// Makes the rows of the expression `expr`, which was looked up.
pub fn symbol_rows(
    expr: &str,
    outcome: &Result<PreparedSymbol, PrepareError<String>>,
    max_elems: usize,
) -> (r: Vec<WatchRow>)
    requires
        *outcome matches Ok(p) ==> p.fits(),
    ensures
        row_views(r@) == rows_of(expr@, outcome_view(*outcome), max_elems as nat),
        all_fresh(r@),
        rows_fit(r@),
{
    let mut rows: Vec<WatchRow> = Vec::new();
    let p: &PreparedSymbol = match outcome {
        Err(e) => {
            rows.push(fresh_row(String::from_str(expr), RowSource::Broken(e.message(expr))));
            assert(row_views(rows@) =~= rows_of(expr@, outcome_view(*outcome), max_elems as nat));
            return rows;
        },
        Ok(p) => p,
    };
    if p.plottable() {
        rows.push(leaf_row(expr, p, 0));
        assert(row_views(rows@) =~= rows_of(expr@, outcome_view(*outcome), max_elems as nat));
        return rows;
    }
    let total: usize = p.kind.leaves();
    let n: usize = if total < max_elems {
        total
    } else {
        max_elems
    };
    let mut i: usize = 0;
    while i < n
        invariant
            i <= n <= total == leaf_count(p.kind),
            p.fits(),
            rows@.len() == i,
            all_fresh(rows@),
            rows_fit(rows@),
            forall|k: int|
                0 <= k < i ==> (#[trigger] rows@[k])@ == part_row(expr@, *p, k as nat),
        decreases n - i,
    {
        rows.push(leaf_row(expr, p, i));
        i += 1;
    }
    if n < total {
        let mut note: String = String::from_str("… 其余 ");
        note.append(dec_text((total - n) as u64).as_str());
        note.append(" 项未显示（调大 max_elems 或直接监视具体成员/下标）");
        rows.push(fresh_row(String::from_str(expr), RowSource::Summary(note)));
    }
    assert(row_views(rows@) =~= rows_of(expr@, outcome_view(*outcome), max_elems as nat));
    rows
}

/// The rows of expressions that were looked up, in order.
pub open spec fn rows_of_all(
    symbols: Seq<Seq<char>>,
    outcomes: Seq<Result<PreparedSymbol, PrepareError<Seq<char>>>>,
    max_elems: nat,
) -> Seq<RowData>
    decreases symbols.len(),
{
    if symbols.len() == 0 {
        Seq::empty()
    } else {
        rows_of_all(symbols.drop_last(), outcomes.drop_last(), max_elems) + rows_of(
            symbols.last(),
            outcomes.last(),
            max_elems,
        )
    }
}

/// Whether `outcomes` are what looking the expressions up in an ELF file gives.
pub open spec fn all_prepared(
    data: Seq<u8>,
    symbols: Seq<Seq<char>>,
    outcomes: Seq<Result<PreparedSymbol, PrepareError<Seq<char>>>>,
) -> bool {
    &&& outcomes.len() == symbols.len()
    &&& forall|i: int|
        0 <= i < symbols.len() ==> is_prepared(data, symbols[i], #[trigger] outcomes[i])
}

/// Whether `rows` are those of the expressions `symbols`, looked up in an ELF
/// file: a variable that cannot be read costs its own row only.
pub open spec fn rows_of_symbols(
    data: Seq<u8>,
    symbols: Seq<Seq<char>>,
    max_elems: nat,
    rows: Seq<RowData>,
) -> bool {
    exists|outcomes: Seq<Result<PreparedSymbol, PrepareError<Seq<char>>>>| #[trigger]
        all_prepared(data, symbols, outcomes) && rows == rows_of_all(symbols, outcomes, max_elems)
}

/// An image leaves no doubt about the rows of expressions.
pub proof fn law_images_fix_rows(
    data: Seq<u8>,
    symbols: Seq<Seq<char>>,
    max_elems: nat,
    a: Seq<RowData>,
    b: Seq<RowData>,
)
    requires
        rows_of_symbols(data, symbols, max_elems, a),
        rows_of_symbols(data, symbols, max_elems, b),
    ensures
        a == b,
{
    let x = choose|outcomes: Seq<Result<PreparedSymbol, PrepareError<Seq<char>>>>| #[trigger]
        all_prepared(data, symbols, outcomes) && a == rows_of_all(symbols, outcomes, max_elems);
    let y = choose|outcomes: Seq<Result<PreparedSymbol, PrepareError<Seq<char>>>>| #[trigger]
        all_prepared(data, symbols, outcomes) && b == rows_of_all(symbols, outcomes, max_elems);
    lemma_same_rows(data, symbols, x, y, max_elems);
}

proof fn lemma_same_rows(
    data: Seq<u8>,
    symbols: Seq<Seq<char>>,
    x: Seq<Result<PreparedSymbol, PrepareError<Seq<char>>>>,
    y: Seq<Result<PreparedSymbol, PrepareError<Seq<char>>>>,
    max_elems: nat,
)
    requires
        all_prepared(data, symbols, x),
        all_prepared(data, symbols, y),
    ensures
        rows_of_all(symbols, x, max_elems) == rows_of_all(symbols, y, max_elems),
    decreases symbols.len(),
{
    if symbols.len() > 0 {
        let front = symbols.drop_last();
        let n = symbols.len() - 1;
        assert forall|i: int| 0 <= i < front.len() implies is_prepared(
            data,
            front[i],
            #[trigger] x.drop_last()[i],
        ) by {
            assert(x.drop_last()[i] == x[i]);
        }
        assert forall|i: int| 0 <= i < front.len() implies is_prepared(
            data,
            front[i],
            #[trigger] y.drop_last()[i],
        ) by {
            assert(y.drop_last()[i] == y[i]);
        }
        lemma_same_rows(data, front, x.drop_last(), y.drop_last(), max_elems);
        assert(is_prepared(data, symbols[n], x[n]) && is_prepared(data, symbols[n], y[n]));
        law_images_fix_variables(data, symbols[n], x[n], y[n]);
        if let (Ok(p), Ok(q)) = (x[n], y[n]) {
            lemma_alike_sizes(p.kind, q.kind);
            assert forall|k: nat| k < leaf_count(p.kind) implies #[trigger] part_row(
                symbols[n],
                p,
                k,
            ) == part_row(symbols[n], q, k) by {
                lemma_alike_leaves(p.kind, q.kind, k);
            }
        }
        assert(rows_of(symbols[n], x[n], max_elems) =~= rows_of(symbols[n], y[n], max_elems));
    }
}

/// Makes the rows of a group.
pub fn build_rows(group: &WatchGroup, data: &[u8]) -> (r: Vec<WatchRow>)
    ensures
        rows_of_symbols(data@, views(group.symbols@), group.max_elems as nat, row_views(r@)),
        all_fresh(r@),
        rows_fit(r@),
{
    let mut rows: Vec<WatchRow> = Vec::new();
    let ghost all = views(group.symbols@);
    let ghost mut outcomes: Seq<Result<PreparedSymbol, PrepareError<Seq<char>>>> = Seq::empty();
    let mut i: usize = 0;
    assert(row_views(rows@) =~= Seq::empty());
    while i < group.symbols.len()
        invariant
            i <= group.symbols@.len(),
            all == views(group.symbols@),
            all_prepared(data@, all.take(i as int), outcomes),
            row_views(rows@) == rows_of_all(
                all.take(i as int),
                outcomes,
                group.max_elems as nat,
            ),
            all_fresh(rows@),
            rows_fit(rows@),
        decreases group.symbols@.len() - i,
    {
        let expr: &str = group.symbols[i].as_str();
        let outcome: Result<PreparedSymbol, PrepareError<String>> = prepare_symbol(data, expr);
        let ghost found = outcome_view(outcome);
        let ghost front = row_views(rows@);
        let ghost before = rows@;
        let mut more: Vec<WatchRow> = symbol_rows(expr, &outcome, group.max_elems);
        let ghost added = more@;
        rows.append(&mut more);
        proof {
            let next = all.take(i + 1);
            assert(next.drop_last() =~= all.take(i as int));
            assert(next.last() == expr@);
            assert(outcomes.push(found).drop_last() =~= outcomes);
            outcomes = outcomes.push(found);
            assert(rows@ =~= before + added);
            assert(row_views(rows@) =~= front + rows_of(expr@, found, group.max_elems as nat));
            assert forall|k: int| 0 <= k < next.len() implies is_prepared(
                data@,
                next[k],
                #[trigger] outcomes[k],
            ) by {
                if k < i {
                    assert(next[k] == all.take(i as int)[k]);
                }
            }
            assert forall|k: int| 0 <= k < rows@.len() implies (#[trigger] rows@[k]).fresh() by {
                if k >= before.len() {
                    assert(rows@[k] == added[k - before.len()]);
                }
            }
            assert forall|k: int| 0 <= k < rows@.len() implies ((#[trigger] rows@[k]).source
                matches RowSource::Live(f) ==> f.offset + leaf_size(f.kind@) <= f.size) by {
                if k >= before.len() {
                    assert(rows@[k] == added[k - before.len()]);
                } else {
                    assert(rows@[k] == before[k]);
                }
            }
        }
        i += 1;
    }
    assert(all.take(i as int) =~= all);
    rows
}

/// A watch that is ready: its rows, and the time between two samples.
#[derive(Debug)]
pub struct PreparedWatch {
    pub rows: Vec<WatchRow>,
    pub interval_ms: u64,
}

/// The labels of rows.
pub open spec fn row_labels(rows: Seq<WatchRow>) -> Seq<Seq<char>> {
    rows.map_values(|r: WatchRow| r.label@)
}

impl PreparedWatch {
    /// The labels of the rows; the order gives the row numbers.
    pub fn labels(&self) -> (r: Vec<String>)
        ensures
            views(r@) == row_labels(self.rows@),
    {
        let mut v: Vec<String> = Vec::new();
        let mut i: usize = 0;
        while i < self.rows.len()
            invariant
                i <= self.rows@.len(),
                v@.len() == i,
                forall|k: int| 0 <= k < i ==> (#[trigger] v@[k])@ == self.rows@[k].label@,
            decreases self.rows@.len() - i,
        {
            v.push(String::from_str(self.rows[i].label.as_str()));
            i += 1;
        }
        assert(views(v@) =~= row_labels(self.rows@));
        v
    }
}

/// The parts of a compound variable that a watch of symbols shows, if it is asked
/// for `max_elems`: at least one.
pub open spec fn adhoc_limit(max_elems: nat) -> nat {
    if max_elems == 0 {
        1
    } else {
        max_elems
    }
}

/// Makes a watch of symbols that no group names. At least one part of a compound
/// variable gets a row.
pub fn prepare_watch_adhoc(
    data: &[u8],
    symbols: Vec<String>,
    interval_ms: u64,
    max_elems: usize,
) -> (r: PreparedWatch)
    ensures
        rows_of_symbols(
            data@,
            views(symbols@),
            adhoc_limit(max_elems as nat),
            row_views(r.rows@),
        ),
        all_fresh(r.rows@),
        rows_fit(r.rows@),
        r.interval_ms == interval_ms,
{
    let group: WatchGroup = WatchGroup {
        interval_ms,
        max_elems: if max_elems == 0 {
            1
        } else {
            max_elems
        },
        symbols,
    };
    PreparedWatch { rows: build_rows(&group, data), interval_ms }
}

/// A watch of symbols that is asked for no parts has the rows of one that is asked
/// for one part.
pub proof fn law_no_parts_are_one_part(
    data: Seq<u8>,
    symbols: Seq<Seq<char>>,
    none: Seq<RowData>,
    one: Seq<RowData>,
)
    requires
        rows_of_symbols(data, symbols, adhoc_limit(0), none),
        rows_of_symbols(data, symbols, adhoc_limit(1), one),
    ensures
        none == one,
{
    law_images_fix_rows(data, symbols, 1, none, one);
}

/// Whether nothing that can be read comes of an expression.
pub open spec fn lost(data: Seq<u8>, expr: Seq<char>) -> bool {
    forall|r: Result<PreparedSymbol, PrepareError<Seq<char>>>| #[trigger]
        is_prepared(data, expr, r) ==> r is Err
}

/// Where nothing comes of any expression, there is a row for each, which is
/// labelled with it and tells of the failure.
pub proof fn law_lost_symbols_keep_their_rows(
    data: Seq<u8>,
    symbols: Seq<Seq<char>>,
    max_elems: nat,
    rows: Seq<RowData>,
)
    requires
        rows_of_symbols(data, symbols, max_elems, rows),
        forall|i: int| 0 <= i < symbols.len() ==> lost(data, #[trigger] symbols[i]),
    ensures
        rows.len() == symbols.len(),
        forall|i: int|
            0 <= i < rows.len() ==> (#[trigger] rows[i]).label == symbols[i] && rows[i].source
                is Broken,
{
    let outcomes = choose|outcomes: Seq<Result<PreparedSymbol, PrepareError<Seq<char>>>>| #[trigger]
        all_prepared(data, symbols, outcomes) && rows == rows_of_all(symbols, outcomes, max_elems);
    assert forall|i: int| 0 <= i < outcomes.len() implies (#[trigger] outcomes[i]) is Err by {
        assert(lost(data, symbols[i]));
    }
    lemma_failures_keep_their_rows(symbols, outcomes, max_elems);
}

proof fn lemma_failures_keep_their_rows(
    symbols: Seq<Seq<char>>,
    outcomes: Seq<Result<PreparedSymbol, PrepareError<Seq<char>>>>,
    max_elems: nat,
)
    requires
        outcomes.len() == symbols.len(),
        forall|i: int| 0 <= i < outcomes.len() ==> (#[trigger] outcomes[i]) is Err,
    ensures
        rows_of_all(symbols, outcomes, max_elems).len() == symbols.len(),
        forall|i: int|
            0 <= i < symbols.len() ==> {
                let row = #[trigger] rows_of_all(symbols, outcomes, max_elems)[i];
                row.label == symbols[i] && row.source is Broken
            },
    decreases symbols.len(),
{
    if symbols.len() > 0 {
        let front = outcomes.drop_last();
        assert forall|i: int| 0 <= i < front.len() implies (#[trigger] front[i]) is Err by {
            assert(front[i] == outcomes[i]);
        }
        lemma_failures_keep_their_rows(symbols.drop_last(), front, max_elems);
        assert(outcomes[symbols.len() - 1] is Err);
        let before = rows_of_all(symbols.drop_last(), front, max_elems);
        let rows = rows_of_all(symbols, outcomes, max_elems);
        assert forall|i: int| 0 <= i < symbols.len() implies {
            let row = #[trigger] rows[i];
            row.label == symbols[i] && row.source is Broken
        } by {
            if i < before.len() {
                assert(rows[i] == before[i]);
                assert(symbols.drop_last()[i] == symbols[i]);
            }
        }
    }
}

/// Why a group cannot be watched.
#[derive(Debug)]
pub enum GroupError {
    /// The configuration has no groups.
    NoGroups,
    /// It has none of that name: the names it has.
    Unknown(Vec<String>),
}

impl GroupError {
    /// The wording of each refusal of the group `name`.
    pub open spec fn text(self, name: Seq<char>) -> Seq<char> {
        match self {
            GroupError::NoGroups => "配置里没有定义 watch 节（在 tscope.yaml 里加 watch 段，格式见模板 tscope.yaml）"@,
            GroupError::Unknown(known) => "配置里没有名为 "@ + name + " 的监视组；可用组："@
                + join(views(known@), ", "@),
        }
    }

    /// The wording of this refusal of the group `name`.
    pub fn message(&self, name: &str) -> (r: String)
        ensures
            r@ == self.text(name@),
    {
        match self {
            GroupError::NoGroups => String::from_str(
                "配置里没有定义 watch 节（在 tscope.yaml 里加 watch 段，格式见模板 tscope.yaml）",
            ),
            GroupError::Unknown(known) => {
                let mut s: String = String::from_str("配置里没有名为 ");
                s.append(name);
                s.append(" 的监视组；可用组：");
                s.append(join_of(known.as_slice(), ", ").as_str());
                s
            },
        }
    }
}

/// Finds a group of the configuration.
pub fn resolve_watch<'a>(config: &'a ToolConfig, name: &str) -> (r: Result<
    &'a WatchGroup,
    GroupError,
>)
    ensures
        match r {
            Ok(g) => lookup(config.watch@, name@) == Some(*g),
            Err(GroupError::NoGroups) => config.watch@.len() == 0 && lookup(
                config.watch@,
                name@,
            ) is None,
            Err(GroupError::Unknown(known)) => config.watch@.len() > 0 && lookup(
                config.watch@,
                name@,
            ) is None && views(known@) == names(config.watch@),
        },
{
    match config.watch.get(name) {
        Some(g) => Ok(g),
        None => if config.watch.len() == 0 {
            Err(GroupError::NoGroups)
        } else {
            Err(GroupError::Unknown(config.watch.names()))
        },
    }
}

/// Makes a watch of a group of the configuration. `data` is the firmware image.
pub fn prepare_watch(config: &ToolConfig, name: &str, data: &[u8]) -> (r: Result<
    PreparedWatch,
    GroupError,
>)
    ensures
        match r {
            Ok(w) => {
                &&& lookup(config.watch@, name@) matches Some(g)
                &&& rows_of_symbols(
                    data@,
                    views(g.symbols@),
                    g.max_elems as nat,
                    row_views(w.rows@),
                )
                &&& all_fresh(w.rows@)
                &&& rows_fit(w.rows@)
                &&& w.interval_ms == g.interval_ms
            },
            Err(GroupError::NoGroups) => config.watch@.len() == 0 && lookup(
                config.watch@,
                name@,
            ) is None,
            Err(GroupError::Unknown(known)) => config.watch@.len() > 0 && lookup(
                config.watch@,
                name@,
            ) is None && views(known@) == names(config.watch@),
        },
{
    match resolve_watch(config, name) {
        Err(e) => Err(e),
        Ok(g) => Ok(PreparedWatch { rows: build_rows(g, data), interval_ms: g.interval_ms }),
    }
}

/// The line of a group in the list of groups.
pub open spec fn group_line(name: Seq<char>, g: WatchGroup) -> Seq<char> {
    "  "@ + pad_right(name, 16) + " 每 "@ + dec(g.interval_ms as nat) + " ms 采样，"@ + dec(
        g.symbols@.len(),
    ) + " 个符号，复合类型最多展开 "@ + dec(g.max_elems as nat) + " 项"@
}

/// The lines that list the groups of a configuration.
pub fn list_groups(config: &ToolConfig) -> (r: Vec<String>)
    ensures
        config.watch@.len() == 0 ==> r@.len() == 1 && r@[0]@
            == "（配置里没有定义 watch 节）"@,
        config.watch@.len() > 0 ==> {
            &&& r@.len() == config.watch@.len() + 3
            &&& r@[0]@ == "配置里定义的监视组："@
            &&& forall|i: int|
                1 <= i <= config.watch@.len() ==> (#[trigger] r@[i])@ == group_line(
                    config.watch@[i - 1].0@,
                    config.watch@[i - 1].1,
                )
            &&& r@[config.watch@.len() as int + 1]@.len() == 0
            &&& r@[config.watch@.len() as int + 2]@ == "用法：tscope watch <组名>"@
        },
{
    let mut r: Vec<String> = Vec::new();
    if config.watch.len() == 0 {
        r.push(String::from_str("（配置里没有定义 watch 节）"));
        return r;
    }
    r.push(String::from_str("配置里定义的监视组："));
    let mut i: usize = 0;
    while i < config.watch.len()
        invariant
            i <= config.watch@.len(),
            r@.len() == i + 1,
            r@[0]@ == "配置里定义的监视组："@,
            forall|k: int|
                1 <= k <= i ==> (#[trigger] r@[k])@ == group_line(
                    config.watch@[k - 1].0@,
                    config.watch@[k - 1].1,
                ),
        decreases config.watch@.len() - i,
    {
        let g: &WatchGroup = config.watch.value(i);
        let mut s: String = String::from_str("  ");
        s.append(pad_right_text(config.watch.name(i), 16).as_str());
        s.append(" 每 ");
        s.append(dec_text(g.interval_ms).as_str());
        s.append(" ms 采样，");
        s.append(dec_text(g.symbols.len() as u64).as_str());
        s.append(" 个符号，复合类型最多展开 ");
        s.append(dec_text(g.max_elems as u64).as_str());
        s.append(" 项");
        r.push(s);
        i += 1;
    }
    r.push(String::new());
    r.push(String::from_str("用法：tscope watch <组名>"));
    r
}

// ---------------------------------------------------------------------------
// Sampling
// ---------------------------------------------------------------------------

/// The text of a field in the bytes of its variable.
pub open spec fn field_text(f: FieldData, bytes: Seq<u8>, floats: FloatTexts) -> Seq<char> {
    leaf_text(f.kind, bytes.skip(f.offset as int), floats)
}

/// Writes a field in the bytes of its variable.
pub fn render_field<F: Fn(u64, bool) -> String>(field: &Field, bytes: &[u8], show: &F) -> (r:
    String)
    requires
        writes_any(*show),
        field.offset + leaf_size(field.kind@) <= bytes@.len(),
    ensures
        forall|floats: FloatTexts| #[trigger]
            writes(*show, floats) ==> r@ == field_text(field@, bytes@, floats),
{
    let rest: &[u8] = slice_subrange(bytes, field.offset, bytes.len());
    assert(rest@ =~= bytes@.skip(field.offset as int));
    write_leaf(&field.kind, rest, show)
}

/// The memory that a row is read from, where it is read at all: the address and
/// the size of its variable.
pub open spec fn base_key(row: WatchRow) -> Option<(u64, usize)> {
    match row.source {
        RowSource::Live(f) => Some((f.address, f.size)),
        _ => None,
    }
}

/// The reads that the first `n` rows need: each memory once, in the order in
/// which the rows come to it.
pub open spec fn reads_for(rows: Seq<WatchRow>, n: int) -> Seq<(u64, usize)>
    decreases n,
{
    if n <= 0 {
        Seq::empty()
    } else {
        let before = reads_for(rows, n - 1);
        match base_key(rows[n - 1]) {
            Some(key) => if before.contains(key) {
                before
            } else {
                before.push(key)
            },
            None => before,
        }
    }
}

/// Whether row `i` is the first that is read from its memory.
pub open spec fn needs_read(rows: Seq<WatchRow>, i: int) -> bool {
    base_key(rows[i]) matches Some(key) && !reads_for(rows, i).contains(key)
}

/// The number of the first of the reads from number `from` on that is one of the
/// memory `key`.
pub open spec fn read_number(reads: Seq<(u64, usize)>, key: (u64, usize), from: nat) -> Option<nat>
    decreases reads.len() - from,
{
    if from >= reads.len() {
        None
    } else if reads[from as int] == key {
        Some(from)
    } else {
        read_number(reads, key, from + 1)
    }
}

/// Whether the outcomes of reads are those of the reads that rows need: one for
/// each, and as many bytes as were asked for.
pub open spec fn answers_reads(
    rows: Seq<WatchRow>,
    outcomes: Seq<Result<Vec<u8>, String>>,
) -> bool {
    let reads = reads_for(rows, rows.len() as int);
    &&& outcomes.len() == reads.len()
    &&& forall|k: int|
        0 <= k < reads.len() ==> ((#[trigger] outcomes[k]) matches Ok(b) ==> b@.len()
            == reads[k].1)
}

/// What came of the read of the memory `key`.
pub open spec fn outcome_of(
    rows: Seq<WatchRow>,
    outcomes: Seq<Result<Vec<u8>, String>>,
    key: (u64, usize),
) -> Result<Vec<u8>, String> {
    outcomes[read_number(reads_for(rows, rows.len() as int), key, 0)->0 as int]
}

/// What is said of a row when the read that it shares with a row above failed.
pub open spec fn shared_failure() -> Seq<char> {
    "读取失败"@
}

/// Whether `new` is what a sample makes of row `i`: a value that was read
/// replaces the value and the failure; a failed read leaves the value.
pub open spec fn sampled(
    rows: Seq<WatchRow>,
    i: int,
    outcomes: Seq<Result<Vec<u8>, String>>,
    floats: FloatTexts,
    new: WatchRow,
) -> bool {
    let row = rows[i];
    &&& new.label == row.label
    &&& new.source == row.source
    &&& new.last_sent == row.last_sent
    &&& match row.source {
        RowSource::Live(f) => match outcome_of(rows, outcomes, (f.address, f.size)) {
            Ok(bytes) => new.last_value@ == field_text(f@, bytes@, floats) && new.last_error
                is None,
            Err(e) => new.last_value == row.last_value && text_view(new.last_error) == Some(
                if needs_read(rows, i) {
                    e@
                } else {
                    shared_failure()
                },
            ),
        },
        _ => new == row,
    }
}

fn find_read(reads: &Vec<(u64, usize)>, key: (u64, usize)) -> (r: Option<usize>)
    ensures
        match r {
            Some(k) => read_number(reads@, key, 0) == Some(k as nat) && k < reads@.len()
                && reads@[k as int] == key,
            None => !reads@.contains(key),
        },
{
    let mut k: usize = 0;
    while k < reads.len()
        invariant
            k <= reads@.len(),
            read_number(reads@, key, 0) == read_number(reads@, key, k as nat),
            forall|j: int| 0 <= j < k ==> #[trigger] reads@[j] != key,
        decreases reads@.len() - k,
    {
        if reads[k].0 == key.0 && reads[k].1 == key.1 {
            return Some(k);
        }
        k += 1;
    }
    None
}

/// The reads that rows need: the address and the size of each. A variable is
/// read once, however its rows stand.
pub fn plan_reads(rows: &[WatchRow]) -> (r: Vec<(u64, usize)>)
    ensures
        r@ == reads_for(rows@, rows@.len() as int),
        r@.no_duplicates(),
{
    let mut r: Vec<(u64, usize)> = Vec::new();
    let mut i: usize = 0;
    while i < rows.len()
        invariant
            i <= rows@.len(),
            r@ == reads_for(rows@, i as int),
        decreases rows@.len() - i,
    {
        if let RowSource::Live(f) = &rows[i].source {
            let key: (u64, usize) = (f.address, f.size);
            if find_read(&r, key).is_none() {
                r.push(key);
            }
        }
        i += 1;
    }
    proof {
        law_one_read_per_variable(rows@);
    }
    r
}

/// The reads of some rows start those of all, and hold each memory once.
proof fn lemma_reads(rows: Seq<WatchRow>, n: int)
    requires
        0 <= n <= rows.len(),
    ensures
        reads_for(rows, n).len() <= n,
        reads_for(rows, n).no_duplicates(),
        forall|i: int|
            0 <= i < n && base_key(#[trigger] rows[i]) is Some ==> reads_for(rows, n).contains(
                base_key(rows[i])->0,
            ),
        forall|k: int|
            0 <= k < reads_for(rows, n).len() ==> exists|i: int|
                0 <= i < n && base_key(#[trigger] rows[i]) == Some(
                    #[trigger] reads_for(rows, n)[k],
                ),
    decreases n,
{
    if n > 0 {
        lemma_reads(rows, n - 1);
        let a = reads_for(rows, n - 1);
        let b = reads_for(rows, n);
        assert forall|i: int| 0 <= i < n && base_key(#[trigger] rows[i]) is Some implies b.contains(
            base_key(rows[i])->0,
        ) by {
            let key = base_key(rows[i])->0;
            if a.contains(key) {
                let k = choose|k: int| 0 <= k < a.len() && a[k] == key;
                assert(b[k] == key);
            } else {
                assert(b[a.len() as int] == key);
            }
        }
        assert forall|k: int| 0 <= k < b.len() implies exists|i: int|
            0 <= i < n && base_key(#[trigger] rows[i]) == Some(#[trigger] b[k]) by {
            if k < a.len() {
                let i = choose|i: int| 0 <= i < n - 1 && base_key(#[trigger] rows[i]) == Some(a[k]);
                assert(base_key(rows[i]) == Some(b[k]));
            } else {
                assert(base_key(rows[n - 1]) == Some(b[k]));
            }
        }
    }
}

proof fn lemma_reads_prefix(rows: Seq<WatchRow>, n: int, m: int)
    requires
        0 <= n <= m,
    ensures
        reads_for(rows, n).is_prefix_of(reads_for(rows, m)),
    decreases m - n,
{
    if n < m {
        lemma_reads_prefix(rows, n, m - 1);
        let a = reads_for(rows, n);
        let b = reads_for(rows, m - 1);
        assert(reads_for(rows, m).take(a.len() as int) =~= b.take(a.len() as int));
    }
}

proof fn lemma_read_number(reads: Seq<(u64, usize)>, key: (u64, usize), k: nat, from: nat)
    requires
        from <= k < reads.len(),
        reads[k as int] == key,
        forall|j: int| 0 <= j < k ==> #[trigger] reads[j] != key,
    ensures
        read_number(reads, key, from) == Some(k),
    decreases k - from,
{
    if from < k {
        assert(reads[from as int] != key);
        lemma_read_number(reads, key, k, from + 1);
    }
}

/// Takes one round of reads in. `outcomes` are those of the reads that
/// [`plan_reads`] lists.
pub fn sample_rows_core<F: Fn(u64, bool) -> String>(
    rows: &mut Vec<WatchRow>,
    outcomes: &[Result<Vec<u8>, String>],
    show: &F,
)
    requires
        writes_any(*show),
        rows_fit(old(rows)@),
        answers_reads(old(rows)@, outcomes@),
    ensures
        final(rows)@.len() == old(rows)@.len(),
        forall|floats: FloatTexts, i: int|
            #![trigger writes(*show, floats), final(rows)@[i]]
            writes(*show, floats) && 0 <= i < final(rows)@.len() ==> sampled(
                old(rows)@,
                i,
                outcomes@,
                floats,
                final(rows)@[i],
            ),
{
    let ghost start = rows@;
    let ghost all = reads_for(start, start.len() as int);
    let mut reads: Vec<(u64, usize)> = Vec::new();
    let mut i: usize = 0;
    while i < rows.len()
        invariant
            writes_any(*show),
            rows_fit(start),
            answers_reads(start, outcomes@),
            all == reads_for(start, start.len() as int),
            rows@.len() == start.len(),
            i <= rows@.len(),
            reads@ == reads_for(start, i as int),
            forall|k: int| i <= k < start.len() ==> (#[trigger] rows@[k]) == start[k],
            forall|floats: FloatTexts, k: int|
                #![trigger writes(*show, floats), rows@[k]]
                writes(*show, floats) && 0 <= k < i ==> sampled(
                    start,
                    k,
                    outcomes@,
                    floats,
                    rows@[k],
                ),
        decreases rows@.len() - i,
    {
        let mut outcome: Option<(String, bool)> = None;
        assert(rows@[i as int] == start[i as int]);
        if let RowSource::Live(f) = &rows[i].source {
            let key: (u64, usize) = (f.address, f.size);
            let known: Option<usize> = find_read(&reads, key);
            let fresh: bool = known.is_none();
            let k: usize = match known {
                Some(k) => k,
                None => reads.len(),
            };
            if fresh {
                reads.push(key);
            }
            proof {
                assert(reads@ == reads_for(start, i + 1));
                lemma_reads(start, i + 1);
                lemma_reads_prefix(start, i + 1, start.len() as int);
                assert(all.take(reads@.len() as int) =~= reads@);
                assert(all[k as int] == reads@[k as int]);
                assert forall|j: int| 0 <= j < k implies #[trigger] all[j] != key by {
                    assert(all[j] == reads@[j]);
                }
                lemma_read_number(all, key, k as nat, 0);
            }
            match &outcomes[k] {
                Ok(bytes) => {
                    outcome = Some((render_field(f, bytes.as_slice(), show), true));
                },
                Err(e) => {
                    let text: String = String::from_str(
                        if fresh {
                            e.as_str()
                        } else {
                            "读取失败"
                        },
                    );
                    outcome = Some((text, false));
                },
            }
        }
        if let Some((text, good)) = outcome {
            let mut row: WatchRow = rows.remove(i);
            if good {
                row.last_value = text;
                row.last_error = None;
            } else {
                row.last_error = Some(text);
            }
            rows.insert(i, row);
        }
        i += 1;
    }
}

/// What a window is sent of a row. `T` is the form in which text is held.
#[derive(Debug, PartialEq, Eq)]
pub struct Change<T> {
    pub row: usize,
    pub text: T,
    /// Whether the text tells of a failure.
    pub failed: bool,
}

impl View for Change<String> {
    type V = Change<Seq<char>>;

    open spec fn view(&self) -> Change<Seq<char>> {
        Change { row: self.row, text: self.text@, failed: self.failed }
    }
}

/// The views of what a window is sent.
pub open spec fn change_views(v: Seq<Change<String>>) -> Seq<Change<Seq<char>>> {
    v.map_values(|c: Change<String>| c@)
}

/// What a window is sent of the first `n` rows: those whose text it has not been
/// sent, in order.
pub open spec fn changes(rows: Seq<WatchRow>, n: int) -> Seq<Change<Seq<char>>>
    decreases n,
{
    if n <= 0 {
        Seq::empty()
    } else {
        let before = changes(rows, n - 1);
        let row = rows[n - 1];
        if row.unsent() {
            before.push(
                Change { row: (n - 1) as usize, text: row.shown(), failed: row.failing() },
            )
        } else {
            before
        }
    }
}

/// Whether `after` are the rows `before` once the window has been sent what they
/// show.
pub open spec fn all_sent(before: Seq<WatchRow>, after: Seq<WatchRow>) -> bool {
    &&& after.len() == before.len()
    &&& forall|i: int|
        0 <= i < after.len() ==> {
            &&& (#[trigger] after[i]) == (WatchRow { last_sent: after[i].last_sent, ..before[i] })
            &&& text_view(after[i].last_sent) == Some(before[i].shown())
        }
}

/// The rows whose text the window has not been sent, in order, each with its
/// text.
pub fn pending_changes(rows: &[WatchRow]) -> (r: Vec<Change<String>>)
    ensures
        change_views(r@) == changes(rows@, rows@.len() as int),
{
    let mut r: Vec<Change<String>> = Vec::new();
    let mut i: usize = 0;
    assert(change_views(r@) =~= Seq::empty());
    while i < rows.len()
        invariant
            i <= rows@.len(),
            change_views(r@) == changes(rows@, i as int),
        decreases rows@.len() - i,
    {
        let text: String = rows[i].display_text();
        let same: bool = match &rows[i].last_sent {
            None => false,
            Some(t) => same_text(t.as_str(), text.as_str()),
        };
        if !same {
            let ghost before = change_views(r@);
            let change: Change<String> = Change { row: i, text, failed: rows[i].failed() };
            r.push(change);
            assert(change_views(r@) =~= before.push(change@));
        }
        i += 1;
    }
    r
}

/// One round of sending: what the window is to be sent, which then counts as
/// sent.
pub fn take_changes(rows: &mut Vec<WatchRow>) -> (r: Vec<Change<String>>)
    ensures
        change_views(r@) == changes(old(rows)@, old(rows)@.len() as int),
        all_sent(old(rows)@, final(rows)@),
{
    let ghost start = rows@;
    let r: Vec<Change<String>> = pending_changes(rows.as_slice());
    let mut i: usize = 0;
    while i < rows.len()
        invariant
            i <= rows@.len(),
            rows@.len() == start.len(),
            forall|k: int| i <= k < start.len() ==> (#[trigger] rows@[k]) == start[k],
            forall|k: int|
                0 <= k < i ==> {
                    &&& (#[trigger] rows@[k]) == (WatchRow {
                        last_sent: rows@[k].last_sent,
                        ..start[k]
                    })
                    &&& text_view(rows@[k].last_sent) == Some(start[k].shown())
                },
        decreases rows@.len() - i,
    {
        let mut row: WatchRow = rows.remove(i);
        let text: String = row.display_text();
        row.mark_sent(text);
        rows.insert(i, row);
        i += 1;
    }
    r
}

/// A round sends each row that changed once, in order, with what it shows, and
/// nothing else.
pub proof fn law_rounds_send_what_changed(rows: Seq<WatchRow>)
    requires
        rows.len() <= usize::MAX,
    ensures
        forall|k: int|
            0 <= k < changes(rows, rows.len() as int).len() ==> {
                let c = #[trigger] changes(rows, rows.len() as int)[k];
                c.row < rows.len() && rows[c.row as int].unsent() && c.text == rows[c.row as int].shown()
            },
        forall|a: int, b: int|
            0 <= a < b < changes(rows, rows.len() as int).len() ==> (#[trigger] changes(
                rows,
                rows.len() as int,
            )[a]).row < (#[trigger] changes(rows, rows.len() as int)[b]).row,
        forall|i: int|
            0 <= i < rows.len() && (#[trigger] rows[i]).unsent() ==> exists|k: int|
                0 <= k < changes(rows, rows.len() as int).len() && (#[trigger] changes(
                    rows,
                    rows.len() as int,
                )[k]).row == i,
        all_fresh(rows) ==> changes(rows, rows.len() as int).len() == rows.len(),
{
    lemma_changes(rows, rows.len() as int);
}

proof fn lemma_changes(rows: Seq<WatchRow>, n: int)
    requires
        0 <= n <= rows.len() <= usize::MAX,
    ensures
        forall|k: int|
            0 <= k < changes(rows, n).len() ==> {
                let c = #[trigger] changes(rows, n)[k];
                c.row < n && rows[c.row as int].unsent() && c.text == rows[c.row as int].shown()
            },
        forall|a: int, b: int|
            0 <= a < b < changes(rows, n).len() ==> (#[trigger] changes(rows, n)[a]).row < (
            #[trigger] changes(rows, n)[b]).row,
        forall|i: int|
            0 <= i < n && (#[trigger] rows[i]).unsent() ==> exists|k: int|
                0 <= k < changes(rows, n).len() && (#[trigger] changes(rows, n)[k]).row == i,
        all_fresh(rows) ==> changes(rows, n).len() == n,
    decreases n,
{
    if n > 0 {
        lemma_changes(rows, n - 1);
        let a = changes(rows, n - 1);
        let b = changes(rows, n);
        assert forall|i: int| 0 <= i < n && (#[trigger] rows[i]).unsent() implies exists|k: int|
            0 <= k < b.len() && (#[trigger] b[k]).row == i by {
            if i < n - 1 {
                let k = choose|k: int| 0 <= k < a.len() && (#[trigger] a[k]).row == i;
                assert(b[k].row == i);
            } else {
                assert(b[a.len() as int].row == i);
            }
        }
        if all_fresh(rows) {
            assert(rows[n - 1].fresh());
        }
    }
}

/// After a round of sending, a second one over rows that did not change sends
/// nothing.
pub proof fn law_sent_rows_rest(before: Seq<WatchRow>, after: Seq<WatchRow>)
    requires
        all_sent(before, after),
    ensures
        changes(after, after.len() as int) == Seq::<Change<Seq<char>>>::empty(),
{
    lemma_nothing_to_send(before, after, after.len() as int);
}

proof fn lemma_nothing_to_send(before: Seq<WatchRow>, after: Seq<WatchRow>, n: int)
    requires
        all_sent(before, after),
        0 <= n <= after.len(),
    ensures
        changes(after, n) == Seq::<Change<Seq<char>>>::empty(),
    decreases n,
{
    if n > 0 {
        lemma_nothing_to_send(before, after, n - 1);
        assert(after[n - 1].shown() == before[n - 1].shown());
    }
}

/// However many rows a variable is spread over, and wherever they stand, it is
/// read once: no memory is read twice, every row that shows a value finds its
/// memory among the reads, and nothing else is read.
pub proof fn law_one_read_per_variable(rows: Seq<WatchRow>)
    ensures
        reads_for(rows, rows.len() as int).no_duplicates(),
        reads_for(rows, rows.len() as int).len() <= rows.len(),
        forall|i: int|
            0 <= i < rows.len() && base_key(#[trigger] rows[i]) is Some ==> reads_for(
                rows,
                rows.len() as int,
            ).contains(base_key(rows[i])->0),
        forall|k: int|
            0 <= k < reads_for(rows, rows.len() as int).len() ==> exists|i: int|
                0 <= i < rows.len() && base_key(#[trigger] rows[i]) == Some(
                    #[trigger] reads_for(rows, rows.len() as int)[k],
                ),
{
    lemma_reads(rows, rows.len() as int);
}

// ---------------------------------------------------------------------------
// What rows show
// ---------------------------------------------------------------------------

/// A compound variable has a row for each of its parts, in order and up to the
/// limit, which reads the part where it is; a last row counts what is left out. A
/// single value has one row, and what cannot be read has one with the reason.
pub proof fn law_rows_show_the_parts(
    expr: Seq<char>,
    p: PreparedSymbol,
    max_elems: nat,
    k: nat,
)
    requires
        p.offset + type_size(p.kind) <= p.size,
        sound(p.kind),
    ensures
        ({
            let rows = rows_of(expr, Ok(p), max_elems);
            let part = leaf_at(p.kind, k);
            let parts = leaf_count(p.kind);
            &&& k < parts && (p.kind is Plain || k < max_elems) ==> {
                &&& k < rows.len()
                &&& rows[k as int].label == expr + part.label
                &&& rows[k as int].source matches RowSource::Live(f) && {
                    &&& f.address == p.address
                    &&& f.size == p.size
                    &&& f.offset == p.offset + part.offset
                    &&& f.kind == part.kind
                }
            }
            &&& !(p.kind is Plain) && parts <= max_elems ==> rows.len() == parts
            &&& !(p.kind is Plain) && parts > max_elems ==> {
                &&& rows.len() == max_elems + 1
                &&& rows[max_elems as int].label == expr
                &&& rows[max_elems as int].source == RowSource::<Seq<char>, FieldData>::Summary(
                    summary_text((parts - max_elems) as nat),
                )
            }
            &&& p.kind is Plain ==> rows.len() == 1
        }),
{
    if k < leaf_count(p.kind) {
        law_leaves_lie_inside(p.kind, k);
    }
}

/// The rows of a symbol stand behind those of the symbols before it, all of them.
pub proof fn law_every_symbol_has_its_rows(
    symbols: Seq<Seq<char>>,
    outcomes: Seq<Result<PreparedSymbol, PrepareError<Seq<char>>>>,
    max_elems: nat,
    i: int,
)
    requires
        outcomes.len() == symbols.len(),
        0 <= i < symbols.len(),
    ensures
        ({
            let all = rows_of_all(symbols, outcomes, max_elems);
            let at = rows_of_all(symbols.take(i), outcomes.take(i), max_elems).len();
            let own = rows_of(symbols[i], outcomes[i], max_elems);
            &&& at + own.len() <= all.len()
            &&& all.subrange(at as int, (at + own.len()) as int) == own
            &&& i == symbols.len() - 1 ==> at + own.len() == all.len()
        }),
    decreases symbols.len(),
{
    let n = symbols.len() - 1;
    let all = rows_of_all(symbols, outcomes, max_elems);
    let at = rows_of_all(symbols.take(i), outcomes.take(i), max_elems).len();
    let own = rows_of(symbols[i], outcomes[i], max_elems);
    if i < n {
        law_every_symbol_has_its_rows(symbols.drop_last(), outcomes.drop_last(), max_elems, i);
        assert(symbols.drop_last().take(i) =~= symbols.take(i));
        assert(outcomes.drop_last().take(i) =~= outcomes.take(i));
        let front = rows_of_all(symbols.drop_last(), outcomes.drop_last(), max_elems);
        assert(all.subrange(at as int, (at + own.len()) as int) =~= front.subrange(
            at as int,
            (at + own.len()) as int,
        ));
    } else {
        assert(symbols.drop_last() =~= symbols.take(i));
        assert(outcomes.drop_last() =~= outcomes.take(i));
        assert(all.subrange(at as int, (at + own.len()) as int) =~= own);
    }
}

/// After a sample a row shows what memory holds: the bytes that were read for its
/// variable, taken at the place of the row. Where the read failed it shows that,
/// and keeps the value that it had. `k` is the number of the read of its variable.
pub proof fn law_samples_show_memory(
    rows: Seq<WatchRow>,
    i: int,
    outcomes: Seq<Result<Vec<u8>, String>>,
    floats: FloatTexts,
    new: WatchRow,
    k: int,
)
    requires
        0 <= i < rows.len(),
        sampled(rows, i, outcomes, floats, new),
        0 <= k < reads_for(rows, rows.len() as int).len(),
        base_key(rows[i]) == Some(reads_for(rows, rows.len() as int)[k]),
    ensures
        rows[i].source matches RowSource::Live(f) && (match outcomes[k] {
            Ok(bytes) => {
                &&& new.shown() == leaf_text(f.kind@, bytes@.skip(f.offset as int), floats)
                &&& !new.failing()
            },
            Err(e) => {
                &&& new.failing()
                &&& new.last_value == rows[i].last_value
                &&& (forall|j: int| 0 <= j < i ==> #[trigger] base_key(rows[j]) != base_key(
                    rows[i],
                )) ==> new.shown() == e@
            },
        }),
{
    let all = reads_for(rows, rows.len() as int);
    lemma_reads(rows, rows.len() as int);
    assert forall|j: int| 0 <= j < k implies #[trigger] all[j] != all[k] by {
        assert(all.no_duplicates());
    }
    lemma_read_number(all, all[k], k as nat, 0);
    if forall|j: int| 0 <= j < i ==> #[trigger] base_key(rows[j]) != base_key(rows[i]) {
        lemma_key_is_new(rows, i, all[k]);
    }
}

proof fn lemma_key_is_new(rows: Seq<WatchRow>, n: int, key: (u64, usize))
    requires
        0 <= n <= rows.len(),
        forall|j: int| 0 <= j < n ==> #[trigger] base_key(rows[j]) != Some(key),
    ensures
        !reads_for(rows, n).contains(key),
    decreases n,
{
    if n > 0 {
        lemma_key_is_new(rows, n - 1, key);
        assert(base_key(rows[n - 1]) != Some(key));
        let before = reads_for(rows, n - 1);
        let all = reads_for(rows, n);
        if all.contains(key) {
            let j = choose|j: int| 0 <= j < all.len() && all[j] == key;
            if j < before.len() {
                assert(before[j] == key);
            }
        }
    }
}

/// Every variable that a row shows is read.
pub proof fn law_every_variable_is_read(rows: Seq<WatchRow>, i: int)
    requires
        0 <= i < rows.len(),
    ensures
        rows[i].source matches RowSource::Live(f) ==> reads_for(rows, rows.len() as int).contains(
            (f.address, f.size),
        ),
{
    if let RowSource::Live(f) = rows[i].source {
        let key = (f.address, f.size);
        let here = reads_for(rows, i + 1);
        let all = reads_for(rows, rows.len() as int);
        assert(here.contains(key)) by {
            let before = reads_for(rows, i);
            if !before.contains(key) {
                assert(here[before.len() as int] == key);
            }
        }
        lemma_reads_prefix(rows, i + 1, rows.len() as int);
        let k = choose|k: int| 0 <= k < here.len() && here[k] == key;
        assert(all.take(here.len() as int)[k] == all[k]);
    }
}

/// What is stated of rows and of what a window is sent is stated of all that they
/// hold.
pub proof fn law_rows_are_seen_whole(
    rows: Seq<WatchRow>,
    sent: Seq<Change<String>>,
    i: int,
)
    ensures
        row_labels(rows).len() == rows.len(),
        row_views(rows).len() == rows.len(),
        change_views(sent).len() == sent.len(),
        0 <= i < rows.len() ==> {
            &&& row_labels(rows)[i] == rows[i].label@
            &&& row_views(rows)[i].label == rows[i].label@
            &&& match rows[i].source {
                RowSource::Live(f) => row_views(rows)[i].source matches RowSource::Live(d) && {
                    &&& d.address == f.address
                    &&& d.size == f.size
                    &&& d.offset == f.offset
                    &&& d.kind == f.kind@
                },
                RowSource::Broken(t) => row_views(rows)[i].source matches RowSource::Broken(u) && u
                    == t@,
                RowSource::Summary(t) => row_views(rows)[i].source matches RowSource::Summary(u)
                    && u == t@,
            }
        },
        0 <= i < sent.len() ==> {
            &&& change_views(sent)[i].row == sent[i].row
            &&& change_views(sent)[i].text == sent[i].text@
            &&& change_views(sent)[i].failed == sent[i].failed
        },
{
}

/// What a row shows: the last value, or the failure of the last read; the reason
/// for which it cannot be read; or the note on parts that are left out.
pub proof fn law_rows_show_value_or_failure(row: WatchRow)
    ensures
        match row.source {
            RowSource::Live(_) => match row.last_error {
                Some(e) => row.shown() == e@ && row.failing(),
                None => row.shown() == row.last_value@ && !row.failing(),
            },
            RowSource::Broken(t) => row.shown() == t@ && row.failing(),
            RowSource::Summary(t) => row.shown() == t@ && !row.failing(),
        },
        row.unsent() <==> (row.last_sent matches Some(t) ==> t@ != row.shown()),
{
}

/// The note on parts that are left out tells how many, and the line of a group
/// tells its name, its interval and the number of its symbols.
pub proof fn law_notes_tell_the_numbers(left: nat, name: Seq<char>, g: WatchGroup)
    ensures
        mentions(summary_text(left), dec(left)),
        mentions(group_line(name, g), name),
        mentions(group_line(name, g), dec(g.interval_ms as nat) + " ms"@),
        mentions(group_line(name, g), dec(g.symbols@.len())),
{
    reveal_strlit(" ms 采样，");
    reveal_strlit(" ms");
    let s = summary_text(left);
    let front = "… 其余 "@;
    assert(s =~= front + dec(left) + s.skip((front.len() + dec(left).len()) as int));
    let line = group_line(name, g);
    let a = "  "@;
    assert(line =~= a + name + line.skip((a.len() + name.len()) as int));
    let b = a + pad_right(name, 16) + " 每 "@;
    let ms = dec(g.interval_ms as nat) + " ms"@;
    assert(line =~= b + ms + line.skip((b.len() + ms.len()) as int));
    let c = b + dec(g.interval_ms as nat) + " ms 采样，"@;
    let n = dec(g.symbols@.len());
    assert(line =~= c + n + line.skip((c.len() + n.len()) as int));
}

/// An expression that cannot be looked up has one row, which tells why.
pub proof fn law_failures_are_told_in_their_row(
    expr: Seq<char>,
    e: PrepareError<Seq<char>>,
    max_elems: nat,
)
    ensures
        rows_of(expr, Err(e), max_elems).len() == 1,
        rows_of(expr, Err(e), max_elems)[0].label == expr,
        rows_of(expr, Err(e), max_elems)[0].source == RowSource::<Seq<char>, FieldData>::Broken(
            e.text(expr),
        ),
{
}

}
