//! Plots of variables: which symbols are sampled, and how their values are
//! shared out to channels and plots.
//!
//! Each place where a symbol is named is a channel. A symbol that is named in
//! several places is sampled once.
use vstd::prelude::*;
use crate::config::{default_plot_window_secs, PlotConfig, ToolConfig};
use crate::curve::{shows, shows_any, ValueTexts};
use crate::double::Double;
use crate::layout::type_label;
use crate::number::{dec, dec_text, dec_wide_text, pad_right, pad_right_text};
use crate::plot_feed::{group_channels, size_sum};
use crate::table::{lookup, names};
use crate::text::{join, join_of, same_text, views};
use crate::variable::{is_prepared, outcome_view, prepare_symbol, PrepareError, PreparedSymbol};

verus! {

/// Why plots cannot be shown. `T` is the form in which text is held.
#[derive(Debug)]
pub enum PlotNameError {
    /// The configuration has no plots.
    NoPlots,
    /// It has none of that name: the names it has.
    Unknown(Vec<String>),
}

impl PlotNameError {
    /// The wording of each refusal of the plots `name`.
    pub open spec fn text(self, name: Seq<char>) -> Seq<char> {
        match self {
            PlotNameError::NoPlots => "配置里没有定义 plot 节（在 tscope.yaml 里加 plot 段，格式见模板 tscope.yaml）"@,
            PlotNameError::Unknown(known) => "配置里没有名为 "@ + name
                + " 的曲线配置；可用配置："@ + join(views(known@), ", "@),
        }
    }

    /// The wording of this refusal of the plots `name`.
    pub fn message(&self, name: &str) -> (r: String)
        ensures
            r@ == self.text(name@),
    {
        match self {
            PlotNameError::NoPlots => String::from_str(
                "配置里没有定义 plot 节（在 tscope.yaml 里加 plot 段，格式见模板 tscope.yaml）",
            ),
            PlotNameError::Unknown(known) => {
                let mut s: String = String::from_str("配置里没有名为 ");
                s.append(name);
                s.append(" 的曲线配置；可用配置：");
                s.append(join_of(known.as_slice(), ", ").as_str());
                s
            },
        }
    }
}

/// Finds plots of the configuration.
pub fn resolve_plot<'a>(config: &'a ToolConfig, name: &str) -> (r: Result<
    &'a PlotConfig,
    PlotNameError,
>)
    ensures
        match r {
            Ok(p) => lookup(config.plot@, name@) == Some(*p),
            Err(PlotNameError::NoPlots) => config.plot@.len() == 0 && lookup(
                config.plot@,
                name@,
            ) is None,
            Err(PlotNameError::Unknown(known)) => config.plot@.len() > 0 && lookup(
                config.plot@,
                name@,
            ) is None && views(known@) == names(config.plot@),
        },
{
    match config.plot.get(name) {
        Some(p) => Ok(p),
        None => if config.plot.len() == 0 {
            Err(PlotNameError::NoPlots)
        } else {
            Err(PlotNameError::Unknown(config.plot.names()))
        },
    }
}

/// The sizes of groups of symbols.
pub open spec fn symbol_counts(groups: Seq<Vec<String>>) -> Seq<usize> {
    groups.map_values(|g: Vec<String>| g@.len() as usize)
}

/// The line of plots in the list of plots.
pub open spec fn plots_line(name: Seq<char>, p: PlotConfig, texts: ValueTexts) -> Seq<char> {
    "  "@ + pad_right(name, 16) + " 每 "@ + dec(p.interval_ms as nat) + " ms 采样，窗口 "@ + texts(
        p.window_secs,
    ) + " s，"@ + dec(p.groups@.len()) + " 个图（共 "@ + dec(
        size_sum(symbol_counts(p.groups@)),
    ) + " 个符号）"@
}

fn count_symbols(groups: &Vec<Vec<String>>) -> (r: u128)
    ensures
        r == size_sum(symbol_counts(groups@)),
{
    let ghost sizes = symbol_counts(groups@);
    let mut total: u128 = 0;
    let mut i: usize = 0;
    assert(sizes.take(0) =~= Seq::empty());
    while i < groups.len()
        invariant
            i <= groups@.len(),
            sizes == symbol_counts(groups@),
            total == size_sum(sizes.take(i as int)),
            total <= i as int * (usize::MAX as int),
        decreases groups@.len() - i,
    {
        let n: usize = groups[i].len();
        proof {
            assert(sizes.take(i + 1).drop_last() =~= sizes.take(i as int));
            assert(sizes.take(i + 1).last() == n);
            assert((i as int + 1) * (usize::MAX as int) == i as int * (usize::MAX as int)
                + usize::MAX as int) by (nonlinear_arith);
            assert((i as int + 1) * (usize::MAX as int)
                <= 0x1_0000_0000_0000_0000 * 0xffff_ffff_ffff_ffff) by (nonlinear_arith)
                requires
                    0 <= i as int + 1 <= 0x1_0000_0000_0000_0000,
                    0 <= usize::MAX as int <= 0xffff_ffff_ffff_ffff,
            ;
        }
        total += n as u128;
        i += 1;
    }
    assert(sizes.take(i as int) =~= sizes);
    total
}

/// The lines that list the plots of a configuration. `show` writes the width of
/// a window.
pub fn list_plots<F: Fn(Double) -> String>(config: &ToolConfig, show: &F) -> (r: Vec<String>)
    requires
        shows_any(*show),
    ensures
        config.plot@.len() == 0 ==> r@.len() == 1 && r@[0]@
            == "（配置里没有定义 plot 节）"@,
        config.plot@.len() > 0 ==> {
            &&& r@.len() == config.plot@.len() + 3
            &&& r@[0]@ == "配置里定义的曲线配置："@
            &&& forall|texts: ValueTexts, i: int|
                #![trigger shows(*show, texts), r@[i]]
                shows(*show, texts) && 1 <= i <= config.plot@.len() ==> r@[i]@ == plots_line(
                    config.plot@[i - 1].0@,
                    config.plot@[i - 1].1,
                    texts,
                )
            &&& r@[config.plot@.len() as int + 1]@.len() == 0
            &&& r@[config.plot@.len() as int + 2]@ == "用法：tscope plot <配置名>"@
        },
{
    let mut r: Vec<String> = Vec::new();
    if config.plot.len() == 0 {
        r.push(String::from_str("（配置里没有定义 plot 节）"));
        return r;
    }
    r.push(String::from_str("配置里定义的曲线配置："));
    let mut i: usize = 0;
    while i < config.plot.len()
        invariant
            shows_any(*show),
            i <= config.plot@.len(),
            r@.len() == i + 1,
            r@[0]@ == "配置里定义的曲线配置："@,
            forall|texts: ValueTexts, k: int|
                #![trigger shows(*show, texts), r@[k]]
                shows(*show, texts) && 1 <= k <= i ==> r@[k]@ == plots_line(
                    config.plot@[k - 1].0@,
                    config.plot@[k - 1].1,
                    texts,
                ),
        decreases config.plot@.len() - i,
    {
        let p: &PlotConfig = config.plot.value(i);
        let mut s: String = String::from_str("  ");
        s.append(pad_right_text(config.plot.name(i), 16).as_str());
        s.append(" 每 ");
        s.append(dec_text(p.interval_ms).as_str());
        s.append(" ms 采样，窗口 ");
        s.append(show(p.window_secs).as_str());
        s.append(" s，");
        s.append(dec_text(p.groups.len() as u64).as_str());
        s.append(" 个图（共 ");
        s.append(dec_wide_text(count_symbols(&p.groups)).as_str());
        s.append(" 个符号）");
        r.push(s);
        i += 1;
    }
    r.push(String::new());
    r.push(String::from_str("用法：tscope plot <配置名>"));
    r
}

// ---------------------------------------------------------------------------
// Channels
// ---------------------------------------------------------------------------

/// The symbols of plots, one plot behind the other.
pub open spec fn all_symbols(groups: Seq<Vec<String>>) -> Seq<Seq<char>>
    decreases groups.len(),
{
    if groups.len() == 0 {
        Seq::empty()
    } else {
        all_symbols(groups.drop_last()) + views(groups.last()@)
    }
}

/// Texts without repetition, in the order in which they first occur.
pub open spec fn distinct(s: Seq<Seq<char>>) -> Seq<Seq<char>>
    decreases s.len(),
{
    if s.len() == 0 {
        Seq::empty()
    } else {
        let front = distinct(s.drop_last());
        if front.contains(s.last()) {
            front
        } else {
            front.push(s.last())
        }
    }
}

/// Why plots cannot be prepared. `T` is the form in which text is held.
#[derive(Debug)]
pub enum PlotSymbolError<T> {
    /// A symbol that cannot be read, and why.
    Unresolved(T, T),
    /// A symbol that is no scalar, and its type.
    Compound(T, T),
}

impl View for PlotSymbolError<String> {
    type V = PlotSymbolError<Seq<char>>;

    open spec fn view(&self) -> PlotSymbolError<Seq<char>> {
        match *self {
            PlotSymbolError::Unresolved(a, b) => PlotSymbolError::Unresolved(a@, b@),
            PlotSymbolError::Compound(a, b) => PlotSymbolError::Compound(a@, b@),
        }
    }
}

impl PlotSymbolError<Seq<char>> {
    /// The wording of each refusal.
    pub open spec fn text(self) -> Seq<char> {
        match self {
            PlotSymbolError::Unresolved(s, e) => "解析符号 "@ + s
                + " 失败（ELF 里没有这个符号？）: "@ + e,
            PlotSymbolError::Compound(s, t) => "符号 "@ + s + " 是复合类型（"@ + t
                + "），plot 只支持标量；请监视具体成员，如 "@ + s + ".成员名 或 "@ + s + "[0]"@,
        }
    }
}

impl PlotSymbolError<String> {
    /// The wording of this refusal.
    pub fn message(&self) -> (r: String)
        ensures
            r@ == self@.text(),
    {
        match self {
            PlotSymbolError::Unresolved(s, e) => {
                let mut r: String = String::from_str("解析符号 ");
                r.append(s.as_str());
                r.append(" 失败（ELF 里没有这个符号？）: ");
                r.append(e.as_str());
                r
            },
            PlotSymbolError::Compound(s, t) => {
                let mut r: String = String::from_str("符号 ");
                r.append(s.as_str());
                r.append(" 是复合类型（");
                r.append(t.as_str());
                r.append("），plot 只支持标量；请监视具体成员，如 ");
                r.append(s.as_str());
                r.append(".成员名 或 ");
                r.append(s.as_str());
                r.append("[0]");
                r
            },
        }
    }
}

/// What is wrong with a symbol that was looked up, for a plot.
pub open spec fn symbol_error(
    symbol: Seq<char>,
    outcome: Result<PreparedSymbol, PrepareError<Seq<char>>>,
) -> Option<PlotSymbolError<Seq<char>>> {
    match outcome {
        Err(e) => Some(PlotSymbolError::Unresolved(symbol, e.text(symbol))),
        Ok(p) => if !(p.kind is Plain) {
            Some(PlotSymbolError::Compound(symbol, type_label(p.kind)))
        } else {
            None
        },
    }
}

/// Accepts a symbol that was looked up for a plot, if it is a scalar.
pub fn admit_plot_symbol(
    symbol: &str,
    outcome: Result<PreparedSymbol, PrepareError<String>>,
) -> (r: Result<PreparedSymbol, PlotSymbolError<String>>)
    ensures
        match r {
            Ok(p) => outcome == Ok::<_, PrepareError<String>>(p) && symbol_error(
                symbol@,
                outcome_view(outcome),
            ) is None,
            Err(e) => symbol_error(symbol@, outcome_view(outcome)) == Some(e@),
        },
{
    match outcome {
        Err(e) => Err(PlotSymbolError::Unresolved(String::from_str(symbol), e.message(symbol))),
        Ok(p) => if p.plottable() {
            Ok(p)
        } else {
            Err(PlotSymbolError::Compound(String::from_str(symbol), p.kind.label()))
        },
    }
}

/// Plots that are ready: what is sampled, and where it goes.
#[derive(Debug)]
pub struct PreparedPlot {
    pub window_secs: Double,
    pub interval_ms: u64,
    /// The symbol of each channel.
    pub ordered: Vec<String>,
    /// The channels of each plot.
    pub groups_idx: Vec<Vec<usize>>,
    /// The variables that are sampled, each once.
    pub prepared: Vec<PreparedSymbol>,
    /// The variable of each channel.
    pub chan_of: Vec<usize>,
}

/// Whether the channels of `groups_idx` follow each other in groups of these
/// sizes.
pub open spec fn in_order(groups_idx: Seq<Vec<usize>>, sizes: Seq<usize>) -> bool {
    &&& groups_idx.len() == sizes.len()
    &&& forall|g: int|
        0 <= g < sizes.len() ==> (#[trigger] groups_idx[g])@ == group_channels(sizes, g)
}

/// Whether `prepared` are the symbols `unique` of an ELF file, each a scalar.
pub open spec fn scalars_of(
    data: Seq<u8>,
    unique: Seq<Seq<char>>,
    prepared: Seq<PreparedSymbol>,
) -> bool {
    &&& prepared.len() == unique.len()
    &&& forall|k: int|
        0 <= k < unique.len() ==> is_prepared(
            data,
            unique[k],
            Ok::<_, PrepareError<Seq<char>>>(#[trigger] prepared[k]),
        ) && prepared[k].kind is Plain && prepared[k].fits()
}

/// Whether each channel is led to its symbol.
pub open spec fn leads_to(
    chan_of: Seq<usize>,
    ordered: Seq<Seq<char>>,
    unique: Seq<Seq<char>>,
) -> bool {
    &&& chan_of.len() == ordered.len()
    &&& forall|c: int|
        0 <= c < ordered.len() ==> (#[trigger] chan_of[c]) < unique.len() && unique[chan_of[c] as int]
            == ordered[c]
}

fn flatten(groups: &Vec<Vec<String>>) -> (r: (Vec<String>, Vec<Vec<usize>>))
    ensures
        views(r.0@) == all_symbols(groups@),
        in_order(r.1@, symbol_counts(groups@)),
        r.0@.len() == size_sum(symbol_counts(groups@)),
{
    let ghost sizes = symbol_counts(groups@);
    let mut ordered: Vec<String> = Vec::new();
    let mut groups_idx: Vec<Vec<usize>> = Vec::new();
    let mut g: usize = 0;
    assert(groups@.take(0) =~= Seq::empty());
    assert(sizes.take(0) =~= Seq::empty());
    assert(views(ordered@) =~= Seq::empty());
    while g < groups.len()
        invariant
            g <= groups@.len(),
            sizes == symbol_counts(groups@),
            views(ordered@) == all_symbols(groups@.take(g as int)),
            ordered@.len() == size_sum(sizes.take(g as int)),
            groups_idx@.len() == g,
            forall|k: int|
                0 <= k < g ==> (#[trigger] groups_idx@[k])@ == group_channels(sizes, k),
        decreases groups@.len() - g,
    {
        let group: &Vec<String> = &groups[g];
        let ghost before = views(ordered@);
        let ghost start = ordered@.len();
        let mut idx: Vec<usize> = Vec::new();
        let mut i: usize = 0;
        assert(before + views(group@.take(0)) =~= before);
        while i < group.len()
            invariant
                i <= group@.len(),
                start == before.len(),
                views(ordered@) == before + views(group@.take(i as int)),
                ordered@.len() == start + i,
                idx@ == Seq::new(i as nat, |k: int| (start + k) as usize),
            decreases group@.len() - i,
        {
            let ghost prev = views(ordered@);
            idx.push(ordered.len());
            ordered.push(String::from_str(group[i].as_str()));
            assert(views(group@.take(i + 1)) =~= views(group@.take(i as int)).push(
                group@[i as int]@,
            ));
            assert(views(ordered@) =~= prev.push(group@[i as int]@));
            assert(views(ordered@) =~= before + views(group@.take(i + 1)));
            i += 1;
            assert(idx@ =~= Seq::new(i as nat, |k: int| (start + k) as usize));
        }
        proof {
            assert(group@.take(i as int) =~= group@);
            assert(groups@.take(g + 1).drop_last() =~= groups@.take(g as int));
            assert(sizes.take(g + 1).drop_last() =~= sizes.take(g as int));
            assert(sizes.take(g + 1).last() == group@.len());
            assert(idx@ =~= group_channels(sizes, g as int));
        }
        groups_idx.push(idx);
        g += 1;
    }
    assert(groups@.take(g as int) =~= groups@);
    assert(sizes.take(g as int) =~= sizes);
    (ordered, groups_idx)
}

fn position(unique: &Vec<String>, s: &str) -> (r: Option<usize>)
    ensures
        match r {
            Some(k) => k < unique@.len() && unique@[k as int]@ == s@,
            None => !views(unique@).contains(s@),
        },
{
    let mut k: usize = 0;
    while k < unique.len()
        invariant
            k <= unique@.len(),
            forall|j: int| 0 <= j < k ==> (#[trigger] unique@[j])@ != s@,
        decreases unique@.len() - k,
    {
        if same_text(unique[k].as_str(), s) {
            return Some(k);
        }
        k += 1;
    }
    assert forall|j: int| 0 <= j < views(unique@).len() implies views(unique@)[j] != s@ by {
        assert(unique@[j]@ != s@);
    }
    None
}

fn dedupe(ordered: &Vec<String>) -> (r: (Vec<String>, Vec<usize>))
    ensures
        views(r.0@) == distinct(views(ordered@)),
        leads_to(r.1@, views(ordered@), views(r.0@)),
{
    let ghost all = views(ordered@);
    let mut unique: Vec<String> = Vec::new();
    let mut chan_of: Vec<usize> = Vec::new();
    let mut i: usize = 0;
    assert(all.take(0) =~= Seq::empty());
    assert(views(unique@) =~= Seq::empty());
    while i < ordered.len()
        invariant
            i <= ordered@.len(),
            all == views(ordered@),
            views(unique@) == distinct(all.take(i as int)),
            leads_to(chan_of@, all.take(i as int), views(unique@)),
        decreases ordered@.len() - i,
    {
        let ghost before = views(unique@);
        let ghost next = all.take(i + 1);
        assert(next.drop_last() =~= all.take(i as int));
        assert(next.last() == ordered@[i as int]@);
        match position(&unique, ordered[i].as_str()) {
            Some(k) => {
                chan_of.push(k);
                assert(before[k as int] == next.last());
                assert(before.contains(next.last()));
            },
            None => {
                chan_of.push(unique.len());
                unique.push(String::from_str(ordered[i].as_str()));
                assert(views(unique@) =~= before.push(next.last()));
            },
        }
        proof {
            assert forall|c: int| 0 <= c < next.len() implies (#[trigger] chan_of@[c])
                < views(unique@).len() && views(unique@)[chan_of@[c] as int] == next[c] by {
                if c < i {
                    assert(next[c] == all.take(i as int)[c]);
                }
            }
        }
        i += 1;
    }
    assert(all.take(i as int) =~= all);
    (unique, chan_of)
}

/// Whether `r` is what plots of these groups are prepared as: the channels in
/// order, each symbol looked up once and in the order of its first place; or the
/// first symbol that cannot be shown.
pub open spec fn is_prepared_plot(
    data: Seq<u8>,
    cfg: PlotConfig,
    r: Result<PreparedPlot, PlotSymbolError<String>>,
) -> bool {
    let ordered = all_symbols(cfg.groups@);
    let unique = distinct(ordered);
    match r {
        Ok(p) => {
            &&& p.window_secs == cfg.window_secs
            &&& p.interval_ms == cfg.interval_ms
            &&& views(p.ordered@) == ordered
            &&& in_order(p.groups_idx@, symbol_counts(cfg.groups@))
            &&& scalars_of(data, unique, p.prepared@)
            &&& leads_to(p.chan_of@, ordered, unique)
        },
        Err(e) => exists|k: int, prepared: Seq<PreparedSymbol>, outcome: Result<
            PreparedSymbol,
            PrepareError<Seq<char>>,
        >|
            {
                &&& 0 <= k < unique.len()
                &&& #[trigger] scalars_of(data, unique.take(k), prepared)
                &&& #[trigger] is_prepared(data, unique[k], outcome)
                &&& symbol_error(unique[k], outcome) == Some(e@)
            },
    }
}

/// Prepares plots: finds the symbols of their groups in an ELF file.
pub fn prepare_groups(cfg: &PlotConfig, data: &[u8]) -> (r: Result<
    PreparedPlot,
    PlotSymbolError<String>,
>)
    ensures
        is_prepared_plot(data@, *cfg, r),
{
    let (ordered, groups_idx) = flatten(&cfg.groups);
    let (unique, chan_of) = dedupe(&ordered);
    let ghost texts = views(unique@);
    let mut prepared: Vec<PreparedSymbol> = Vec::new();
    let mut k: usize = 0;
    while k < unique.len()
        invariant
            k <= unique@.len(),
            texts == views(unique@),
            texts == distinct(all_symbols(cfg.groups@)),
            scalars_of(data@, texts.take(k as int), prepared@),
        decreases unique@.len() - k,
    {
        let symbol: &str = unique[k].as_str();
        let outcome: Result<PreparedSymbol, PrepareError<String>> = prepare_symbol(data, symbol);
        let ghost found = outcome_view(outcome);
        assert(texts[k as int] == symbol@);
        match admit_plot_symbol(symbol, outcome) {
            Err(e) => {
                proof {
                    assert(scalars_of(data@, texts.take(k as int), prepared@));
                    assert(is_prepared(data@, texts[k as int], found));
                }
                return Err(e);
            },
            Ok(p) => {
                prepared.push(p);
            },
        }
        proof {
            let next = texts.take(k + 1);
            assert forall|j: int| 0 <= j < next.len() implies is_prepared(
                data@,
                next[j],
                Ok::<_, PrepareError<Seq<char>>>(#[trigger] prepared@[j]),
            ) && prepared@[j].kind is Plain && prepared@[j].fits() by {
                if j < k {
                    assert(next[j] == texts.take(k as int)[j]);
                }
            }
        }
        k += 1;
    }
    assert(texts.take(k as int) =~= texts);
    Ok(
        PreparedPlot {
            window_secs: cfg.window_secs,
            interval_ms: cfg.interval_ms,
            ordered,
            groups_idx,
            prepared,
            chan_of,
        },
    )
}

/// Prepares plots of the configuration. `data` is the firmware image.
pub fn prepare_plot(config: &ToolConfig, name: &str, data: &[u8]) -> (r: Result<
    Result<PreparedPlot, PlotSymbolError<String>>,
    PlotNameError,
>)
    ensures
        match r {
            Ok(p) => lookup(config.plot@, name@) is Some && is_prepared_plot(
                data@,
                lookup(config.plot@, name@)->0,
                p,
            ),
            Err(PlotNameError::NoPlots) => config.plot@.len() == 0 && lookup(
                config.plot@,
                name@,
            ) is None,
            Err(PlotNameError::Unknown(known)) => config.plot@.len() > 0 && lookup(
                config.plot@,
                name@,
            ) is None && views(known@) == names(config.plot@),
        },
{
    match resolve_plot(config, name) {
        Err(e) => Err(e),
        Ok(cfg) => Ok(prepare_groups(cfg, data)),
    }
}

/// Prepares one plot of one symbol that no configuration names, with the width
/// that windows have by themselves.
pub fn run_adhoc(data: &[u8], symbol: &str, interval_ms: u64) -> (r: Result<
    PreparedPlot,
    PlotSymbolError<String>,
>)
    ensures
        exists|cfg: PlotConfig|
            {
                &&& #[trigger] is_prepared_plot(data@, cfg, r)
                &&& cfg.interval_ms == interval_ms
                &&& cfg.window_secs.bits == 0x4014_0000_0000_0000
                &&& cfg.groups@.len() == 1
                &&& views(cfg.groups@[0]@) == seq![symbol@]
            },
{
    let mut group: Vec<String> = Vec::new();
    group.push(String::from_str(symbol));
    assert(views(group@) =~= seq![symbol@]);
    let mut groups: Vec<Vec<String>> = Vec::new();
    groups.push(group);
    let cfg: PlotConfig = PlotConfig {
        interval_ms,
        window_secs: default_plot_window_secs(),
        groups,
    };
    let r = prepare_groups(&cfg, data);
    assert(is_prepared_plot(data@, cfg, r));
    r
}

/// The values of channels: each takes that of its symbol.
pub fn channel_values(vals: &[Double], chan_of: &[usize]) -> (r: Vec<Double>)
    requires
        forall|c: int| 0 <= c < chan_of@.len() ==> (#[trigger] chan_of@[c]) < vals@.len(),
    ensures
        r@.len() == chan_of@.len(),
        forall|c: int| 0 <= c < r@.len() ==> (#[trigger] r@[c]) == vals@[chan_of@[c] as int],
{
    let mut r: Vec<Double> = Vec::new();
    let mut c: usize = 0;
    while c < chan_of.len()
        invariant
            c <= chan_of@.len(),
            r@.len() == c,
            forall|k: int| 0 <= k < chan_of@.len() ==> (#[trigger] chan_of@[k]) < vals@.len(),
            forall|k: int| 0 <= k < c ==> (#[trigger] r@[k]) == vals@[chan_of@[k] as int],
        decreases chan_of@.len() - c,
    {
        r.push(vals[chan_of[c]]);
        c += 1;
    }
    r
}

// ---------------------------------------------------------------------------
// Laws
// ---------------------------------------------------------------------------

/// A symbol is sampled once, however many plots show it: the symbols that are
/// sampled are those of the plots, without repetition.
pub proof fn law_symbols_are_sampled_once(s: Seq<Seq<char>>)
    ensures
        distinct(s).no_duplicates(),
        distinct(s).len() <= s.len(),
        forall|t: Seq<char>| #[trigger] distinct(s).contains(t) <==> s.contains(t),
    decreases s.len(),
{
    if s.len() > 0 {
        let front = s.drop_last();
        let d = distinct(front);
        law_symbols_are_sampled_once(front);
        let all = distinct(s);
        assert forall|t: Seq<char>| #[trigger] all.contains(t) <==> s.contains(t) by {
            assert(d.contains(t) <==> front.contains(t));
            assert(d.contains(s.last()) <==> front.contains(s.last()));
            if s.contains(t) {
                let i = choose|i: int| 0 <= i < s.len() && s[i] == t;
                if i < front.len() {
                    assert(front[i] == t);
                    assert(front.contains(t));
                    let j = choose|j: int| 0 <= j < d.len() && d[j] == t;
                    assert(all[j] == t);
                } else if !d.contains(s.last()) {
                    assert(all[d.len() as int] == t);
                }
            }
            if all.contains(t) {
                let j = choose|j: int| 0 <= j < all.len() && all[j] == t;
                if j < d.len() {
                    assert(d[j] == t);
                    assert(d.contains(t));
                    let i = choose|i: int| 0 <= i < front.len() && front[i] == t;
                    assert(s[i] == t);
                } else {
                    assert(s[s.len() - 1] == t);
                }
            }
        }
        if !d.contains(s.last()) {
            assert forall|i: int, j: int|
                0 <= i < all.len() && 0 <= j < all.len() && i != j implies all[i] != all[j] by {
                if i == d.len() {
                    assert(d.contains(d[j]));
                } else if j == d.len() {
                    assert(d.contains(d[i]));
                }
            }
        }
    }
}

/// Channels of one symbol show one value.
pub proof fn law_channels_of_a_symbol_agree(
    chan_of: Seq<usize>,
    ordered: Seq<Seq<char>>,
    unique: Seq<Seq<char>>,
    a: int,
    b: int,
)
    requires
        leads_to(chan_of, ordered, unique),
        unique.no_duplicates(),
        0 <= a < ordered.len(),
        0 <= b < ordered.len(),
        ordered[a] == ordered[b],
    ensures
        chan_of[a] == chan_of[b],
{
    assert(unique[chan_of[a] as int] == unique[chan_of[b] as int]);
}

/// The channels of a plot are the symbols that the configuration gives it, in
/// order, and each is sampled from the variable that its symbol names.
pub proof fn law_plots_show_their_symbols(
    data: Seq<u8>,
    cfg: PlotConfig,
    p: PreparedPlot,
    g: int,
    i: int,
)
    requires
        is_prepared_plot(data, cfg, Ok(p)),
        0 <= g < cfg.groups@.len(),
        0 <= i < cfg.groups@[g]@.len(),
        size_sum(symbol_counts(cfg.groups@)) <= usize::MAX,
    ensures
        p.groups_idx@.len() == cfg.groups@.len(),
        p.groups_idx@[g]@.len() == cfg.groups@[g]@.len(),
        ({
            let c = p.groups_idx@[g]@[i] as int;
            &&& 0 <= c < p.ordered@.len()
            &&& p.ordered@[c]@ == cfg.groups@[g]@[i]@
            &&& p.chan_of@[c] < p.prepared@.len()
            &&& is_prepared(
                data,
                cfg.groups@[g]@[i]@,
                Ok::<_, PrepareError<Seq<char>>>(p.prepared@[p.chan_of@[c] as int]),
            )
        }),
{
    let sizes = symbol_counts(cfg.groups@);
    let before = size_sum(sizes.take(g));
    lemma_place_of_symbol(cfg.groups@, g, i);
    lemma_group_size(cfg.groups@[g]);
    assert(sizes[g] == cfg.groups@[g]@.len());
    let ordered = all_symbols(cfg.groups@);
    let channels = group_channels(sizes, g);
    assert(p.groups_idx@[g]@ == channels);
    assert(channels[i] == before + i);
    let c = (before + i) as int;
    assert(views(p.ordered@)[c] == p.ordered@[c]@);
    let unique = distinct(ordered);
    assert(unique[p.chan_of@[c] as int] == ordered[c]);
    assert(p.prepared@[p.chan_of@[c] as int].kind is Plain);
}

proof fn lemma_group_size(g: Vec<String>)
    ensures
        g@.len() <= usize::MAX,
{
    assert(g.len() == g@.len());
}

proof fn lemma_place_of_symbol(groups: Seq<Vec<String>>, g: int, i: int)
    requires
        0 <= g < groups.len(),
        0 <= i < groups[g]@.len(),
    ensures
        size_sum(symbol_counts(groups).take(g)) + i < all_symbols(groups).len(),
        all_symbols(groups).len() == size_sum(symbol_counts(groups)),
        all_symbols(groups)[size_sum(symbol_counts(groups).take(g)) + i] == groups[g]@[i]@,
    decreases groups.len(),
{
    let n = groups.len() - 1;
    let front = groups.drop_last();
    let sizes = symbol_counts(groups);
    assert(sizes.drop_last() =~= symbol_counts(front));
    lemma_group_size(groups.last());
    assert(sizes.last() == groups.last()@.len());
    lemma_all_symbols_len(front);
    if g < n {
        lemma_place_of_symbol(front, g, i);
        assert(symbol_counts(front).take(g) =~= sizes.take(g));
    } else {
        assert(sizes.take(g) =~= symbol_counts(front));
        assert(views(groups.last()@)[i] == groups[g]@[i]@);
    }
}

proof fn lemma_all_symbols_len(groups: Seq<Vec<String>>)
    ensures
        all_symbols(groups).len() == size_sum(symbol_counts(groups)),
    decreases groups.len(),
{
    if groups.len() > 0 {
        let sizes = symbol_counts(groups);
        lemma_all_symbols_len(groups.drop_last());
        lemma_group_size(groups.last());
        assert(sizes.last() == groups.last()@.len());
        assert(sizes.drop_last() =~= symbol_counts(groups.drop_last()));
    } else {
        assert(symbol_counts(groups) =~= Seq::empty());
    }
}

}
