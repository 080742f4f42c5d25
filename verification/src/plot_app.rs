//! The state of a plot window: histories, groups, the rolling window, pausing.
//!
//! Times are nanoseconds. The clock of the window does not run while it is
//! paused: the time of a pause is taken out of the time axis, so that a curve
//! goes on where it stopped. What a source delivers of a pause is dropped, and
//! the curve is broken there.
use std::collections::VecDeque;
use vstd::prelude::*;
use crate::double::Double;
use crate::number::{dec, dec_text};
use crate::plot_feed::missing;
use crate::source::Sample;
use crate::text::views;

verus! {

/// The samples that a channel keeps where nothing else is said.
pub const DEFAULT_MAX_HISTORY: usize = 20_000;

/// The width of the rolling window where nothing else is said.
pub const DEFAULT_WINDOW_NS: u64 = 5_000_000_000;

/// The least width of the rolling window.
pub const MIN_WINDOW_NS: u64 = 500_000_000;

/// The greatest width of the rolling window.
pub const MAX_WINDOW_NS: u64 = 120_000_000_000;

/// What a key adds to the width of the rolling window, or takes off it.
pub const WINDOW_STEP_NS: u64 = 500_000_000;

/// The fewest samples that a channel keeps.
pub const MIN_HISTORY: usize = 100;

/// A point of a curve: its time on the axis, and its value.
pub type Point = (i128, Double);

/// What can be set about a plot window.
#[derive(Debug)]
pub struct PlotOptions {
    /// The width of the rolling window.
    pub window: u64,
    /// The samples that a channel keeps.
    pub max_history: usize,
    /// The channels of each plot. None at all puts all channels in one plot.
    pub groups: Vec<Vec<usize>>,
}

impl Default for PlotOptions {
    fn default() -> (r: PlotOptions)
        ensures
            r.window == DEFAULT_WINDOW_NS,
            r.max_history == DEFAULT_MAX_HISTORY,
            r.groups@.len() == 0,
    {
        PlotOptions {
            window: DEFAULT_WINDOW_NS,
            max_history: DEFAULT_MAX_HISTORY,
            groups: Vec::new(),
        }
    }
}

/// A colour of the palette, which colour-blind people can tell apart.
pub open spec fn palette(i: int) -> (u8, u8, u8) {
    if i == 0 {
        (0x00, 0x72, 0xB2)
    } else if i == 1 {
        (0xE6, 0x9F, 0x00)
    } else if i == 2 {
        (0x00, 0x9E, 0x73)
    } else if i == 3 {
        (0xCC, 0x79, 0xA7)
    } else if i == 4 {
        (0x56, 0xB4, 0xE9)
    } else if i == 5 {
        (0xD5, 0x5E, 0x00)
    } else if i == 6 {
        (0xF0, 0xE4, 0x42)
    } else {
        (0x00, 0x00, 0x00)
    }
}

/// The colour of channel `i`: the palette, over and over.
pub fn color_for(i: usize) -> (r: (u8, u8, u8))
    ensures
        r == palette(i as int % 8),
{
    match i % 8 {
        0 => (0x00, 0x72, 0xB2),
        1 => (0xE6, 0x9F, 0x00),
        2 => (0x00, 0x9E, 0x73),
        3 => (0xCC, 0x79, 0xA7),
        4 => (0x56, 0xB4, 0xE9),
        5 => (0xD5, 0x5E, 0x00),
        6 => (0xF0, 0xE4, 0x42),
        _ => (0x00, 0x00, 0x00),
    }
}

// ---------------------------------------------------------------------------
// Groups
// ---------------------------------------------------------------------------

/// Why a window cannot be made. `T` is the form in which text is held.
#[derive(Debug)]
pub enum PlotError<T> {
    NoChannels,
    EmptyGroup,
    /// A number without a channel, and the number of channels.
    NoSuchChannel(usize, usize),
    /// A channel that is in two groups.
    Repeated(usize),
    /// A channel that is in none, and its name.
    Ungrouped(usize, T),
}

impl View for PlotError<String> {
    type V = PlotError<Seq<char>>;

    open spec fn view(&self) -> PlotError<Seq<char>> {
        match *self {
            PlotError::NoChannels => PlotError::NoChannels,
            PlotError::EmptyGroup => PlotError::EmptyGroup,
            PlotError::NoSuchChannel(i, n) => PlotError::NoSuchChannel(i, n),
            PlotError::Repeated(i) => PlotError::Repeated(i),
            PlotError::Ungrouped(i, t) => PlotError::Ungrouped(i, t@),
        }
    }
}

impl PlotError<Seq<char>> {
    /// The wording of each refusal.
    pub open spec fn text(self) -> Seq<char> {
        match self {
            PlotError::NoChannels => "数据源没有通道（channel_names 为空）"@,
            PlotError::EmptyGroup => "存在空的图组（每个图至少要有一个通道）"@,
            PlotError::NoSuchChannel(i, n) => "图组引用了不存在的通道索引 "@ + dec(i as nat)
                + "（数据源共 "@ + dec(n as nat) + " 个通道）"@,
            PlotError::Repeated(i) => "通道 "@ + dec(i as nat) + " 被划分到了多个图组"@,
            PlotError::Ungrouped(i, t) => "通道 "@ + dec(i as nat) + "（"@ + t
                + "）未被划分到任何图组"@,
        }
    }
}

impl PlotError<String> {
    /// The wording of this refusal.
    pub fn message(&self) -> (r: String)
        ensures
            r@ == self@.text(),
    {
        match self {
            PlotError::NoChannels => String::from_str(
                "数据源没有通道（channel_names 为空）",
            ),
            PlotError::EmptyGroup => String::from_str(
                "存在空的图组（每个图至少要有一个通道）",
            ),
            PlotError::NoSuchChannel(i, n) => {
                let mut s: String = String::from_str("图组引用了不存在的通道索引 ");
                s.append(dec_text(*i as u64).as_str());
                s.append("（数据源共 ");
                s.append(dec_text(*n as u64).as_str());
                s.append(" 个通道）");
                s
            },
            PlotError::Repeated(i) => {
                let mut s: String = String::from_str("通道 ");
                s.append(dec_text(*i as u64).as_str());
                s.append(" 被划分到了多个图组");
                s
            },
            PlotError::Ungrouped(i, t) => {
                let mut s: String = String::from_str("通道 ");
                s.append(dec_text(*i as u64).as_str());
                s.append("（");
                s.append(t.as_str());
                s.append("）未被划分到任何图组");
                s
            },
        }
    }
}

/// The channels of groups, one group behind the other.
pub open spec fn flat(groups: Seq<Seq<usize>>) -> Seq<usize>
    decreases groups.len(),
{
    if groups.len() == 0 {
        Seq::empty()
    } else {
        flat(groups.drop_last()) + groups.last()
    }
}

/// The views of groups.
pub open spec fn group_views(groups: Seq<Vec<usize>>) -> Seq<Seq<usize>> {
    groups.map_values(|g: Vec<usize>| g@)
}

/// Whether groups share `n` channels out: no group is empty, and every channel
/// is in exactly one place.
pub open spec fn partition(groups: Seq<Seq<usize>>, n: nat) -> bool {
    &&& forall|g: int| 0 <= g < groups.len() ==> (#[trigger] groups[g]).len() > 0
    &&& forall|k: int| 0 <= k < flat(groups).len() ==> (#[trigger] flat(groups)[k]) < n
    &&& flat(groups).no_duplicates()
    &&& forall|c: int| 0 <= c < n ==> flat(groups).contains(#[trigger] (c as usize))
}

/// What is wrong with the channel `i` behind the channels `before`.
pub open spec fn channel_error(before: Seq<usize>, i: usize, n: nat) -> Option<
    PlotError<Seq<char>>,
> {
    if i >= n {
        Some(PlotError::NoSuchChannel(i, n as usize))
    } else if before.contains(i) {
        Some(PlotError::Repeated(i))
    } else {
        None
    }
}

/// What is wrong with the first faulty one of the channels `g` from number `k`
/// on, where the channels `before` stand in front of them.
pub open spec fn members_error(before: Seq<usize>, g: Seq<usize>, k: nat, n: nat) -> Option<
    PlotError<Seq<char>>,
>
    decreases g.len() - k,
{
    if k >= g.len() {
        None
    } else if channel_error(before + g.take(k as int), g[k as int], n) is Some {
        channel_error(before + g.take(k as int), g[k as int], n)
    } else {
        members_error(before, g, k + 1, n)
    }
}

/// What is wrong with the first faulty group from number `k` on.
pub open spec fn groups_error(groups: Seq<Seq<usize>>, k: nat, n: nat) -> Option<
    PlotError<Seq<char>>,
>
    decreases groups.len() - k,
{
    if k >= groups.len() {
        None
    } else if groups[k as int].len() == 0 {
        Some(PlotError::EmptyGroup)
    } else if members_error(flat(groups.take(k as int)), groups[k as int], 0, n) is Some {
        members_error(flat(groups.take(k as int)), groups[k as int], 0, n)
    } else {
        groups_error(groups, k + 1, n)
    }
}

/// The first channel from `c` on that is in no group.
pub open spec fn first_ungrouped(groups: Seq<Seq<usize>>, c: nat, n: nat) -> Option<nat>
    decreases n - c,
{
    if c >= n {
        None
    } else if !flat(groups).contains(c as usize) {
        Some(c)
    } else {
        first_ungrouped(groups, c + 1, n)
    }
}

/// The groups of a window: those that are given, or one with all channels.
pub open spec fn effective_groups(groups: Seq<Seq<usize>>, n: nat) -> Seq<Seq<usize>> {
    if groups.len() == 0 {
        seq![Seq::new(n, |i: int| i as usize)]
    } else {
        groups
    }
}

/// What is wrong with groups over the channels `names`.
pub open spec fn partition_error(groups: Seq<Seq<usize>>, names: Seq<Seq<char>>) -> Option<
    PlotError<Seq<char>>,
> {
    let n = names.len();
    if n == 0 {
        Some(PlotError::NoChannels)
    } else if groups_error(groups, 0, n) is Some {
        groups_error(groups, 0, n)
    } else {
        match first_ungrouped(groups, 0, n) {
            Some(c) => Some(PlotError::Ungrouped(c as usize, names[c as int])),
            None => None,
        }
    }
}

proof fn lemma_members_ok(before: Seq<usize>, g: Seq<usize>, k: nat, n: nat)
    requires
        k <= g.len(),
        members_error(before, g, k, n) is None,
        (before + g.take(k as int)).no_duplicates(),
        forall|i: int|
            0 <= i < (before + g.take(k as int)).len() ==> (#[trigger] (before + g.take(
                k as int,
            ))[i]) < n,
    ensures
        (before + g).no_duplicates(),
        forall|i: int| 0 <= i < (before + g).len() ==> (#[trigger] (before + g)[i]) < n,
    decreases g.len() - k,
{
    if k < g.len() {
        let a = before + g.take(k as int);
        let b = before + g.take(k as int + 1);
        assert(b =~= a.push(g[k as int]));
        assert(b.no_duplicates()) by {
            assert forall|i: int, j: int| 0 <= i < b.len() && 0 <= j < b.len() && i != j implies b[i]
                != b[j] by {
                if i == a.len() {
                    assert(a.contains(a[j]));
                } else if j == a.len() {
                    assert(a.contains(a[i]));
                } else {
                    assert(a[i] != a[j]);
                }
            }
        }
        assert forall|i: int| 0 <= i < b.len() implies (#[trigger] b[i]) < n by {
            if i < a.len() {
                assert(b[i] == a[i]);
            }
        }
        lemma_members_ok(before, g, k + 1, n);
    } else {
        assert(g.take(k as int) =~= g);
    }
}

proof fn lemma_groups_ok(groups: Seq<Seq<usize>>, k: nat, n: nat)
    requires
        k <= groups.len(),
        groups_error(groups, k, n) is None,
        flat(groups.take(k as int)).no_duplicates(),
        forall|i: int|
            0 <= i < flat(groups.take(k as int)).len() ==> (#[trigger] flat(
                groups.take(k as int),
            )[i]) < n,
        forall|g: int| 0 <= g < k ==> (#[trigger] groups[g]).len() > 0,
    ensures
        flat(groups).no_duplicates(),
        forall|i: int| 0 <= i < flat(groups).len() ==> (#[trigger] flat(groups)[i]) < n,
        forall|g: int| 0 <= g < groups.len() ==> (#[trigger] groups[g]).len() > 0,
    decreases groups.len() - k,
{
    if k < groups.len() {
        let a = flat(groups.take(k as int));
        assert(groups.take(k as int + 1).drop_last() =~= groups.take(k as int));
        assert(a + groups[k as int].take(0) =~= a);
        lemma_members_ok(a, groups[k as int], 0, n);
        lemma_groups_ok(groups, k + 1, n);
    } else {
        assert(groups.take(k as int) =~= groups);
    }
}

proof fn lemma_all_grouped(groups: Seq<Seq<usize>>, c: nat, n: nat)
    requires
        first_ungrouped(groups, c, n) is None,
    ensures
        forall|i: int| c <= i < n ==> flat(groups).contains(#[trigger] (i as usize)),
    decreases n - c,
{
    if c < n {
        lemma_all_grouped(groups, c + 1, n);
    }
}

/// Groups are accepted exactly where they share the channels out, each channel
/// to one place.
pub proof fn law_accepted_groups_are_partitions(groups: Seq<Seq<usize>>, names: Seq<Seq<char>>)
    requires
        0 < names.len() <= usize::MAX,
    ensures
        partition_error(groups, names) is None <==> partition(groups, names.len()),
{
    let n = names.len();
    if partition_error(groups, names) is None {
        assert(groups.take(0) =~= Seq::empty());
        lemma_groups_ok(groups, 0, n);
        lemma_all_grouped(groups, 0, n);
    }
    if partition(groups, n) {
        lemma_groups_fine(groups, 0, n);
        lemma_none_ungrouped(groups, 0, n);
    }
}

proof fn lemma_none_ungrouped(groups: Seq<Seq<usize>>, c: nat, n: nat)
    requires
        forall|i: int| 0 <= i < n ==> flat(groups).contains(#[trigger] (i as usize)),
    ensures
        first_ungrouped(groups, c, n) is None,
    decreases n - c,
{
    if c < n {
        assert(flat(groups).contains(c as int as usize));
        lemma_none_ungrouped(groups, c + 1, n);
    }
}

proof fn lemma_flat_prefix(groups: Seq<Seq<usize>>, k: int)
    requires
        0 <= k <= groups.len(),
    ensures
        flat(groups.take(k)).is_prefix_of(flat(groups)),
    decreases groups.len() - k,
{
    if k < groups.len() {
        lemma_flat_prefix(groups, k + 1);
        let a = flat(groups.take(k));
        let b = flat(groups.take(k + 1));
        assert(groups.take(k + 1).drop_last() =~= groups.take(k));
        assert(b == a + groups[k]);
        assert(a =~= flat(groups).take(a.len() as int)) by {
            assert(b =~= flat(groups).take(b.len() as int));
            assert(a =~= b.take(a.len() as int));
        }
    } else {
        assert(groups.take(k) =~= groups);
    }
}

proof fn lemma_members_fine(before: Seq<usize>, g: Seq<usize>, k: nat, n: nat, all: Seq<usize>)
    requires
        k <= g.len(),
        (before + g).is_prefix_of(all),
        all.no_duplicates(),
        forall|i: int| 0 <= i < all.len() ==> (#[trigger] all[i]) < n,
    ensures
        members_error(before, g, k, n) is None,
    decreases g.len() - k,
{
    if k < g.len() {
        let a = before + g.take(k as int);
        let at = before.len() + k;
        assert((before + g)[at as int] == g[k as int]);
        assert(all[at as int] == g[k as int]);
        assert(!a.contains(g[k as int])) by {
            if a.contains(g[k as int]) {
                let j = choose|j: int| 0 <= j < a.len() && a[j] == g[k as int];
                assert((before + g)[j] == a[j]);
                assert(all[j] == all[at as int]);
            }
        }
        lemma_members_fine(before, g, k + 1, n, all);
    }
}

proof fn lemma_groups_fine(groups: Seq<Seq<usize>>, k: nat, n: nat)
    requires
        k <= groups.len(),
        forall|g: int| 0 <= g < groups.len() ==> (#[trigger] groups[g]).len() > 0,
        flat(groups).no_duplicates(),
        forall|i: int| 0 <= i < flat(groups).len() ==> (#[trigger] flat(groups)[i]) < n,
    ensures
        groups_error(groups, k, n) is None,
    decreases groups.len() - k,
{
    if k < groups.len() {
        assert(groups.take(k as int + 1).drop_last() =~= groups.take(k as int));
        lemma_flat_prefix(groups, k as int + 1);
        lemma_members_fine(flat(groups.take(k as int)), groups[k as int], 0, n, flat(groups));
        lemma_groups_fine(groups, k + 1, n);
    }
}

/// All channels in one plot are a sharing out, too.
pub proof fn law_one_plot_is_a_partition(n: nat)
    requires
        0 < n <= usize::MAX,
    ensures
        partition(effective_groups(Seq::empty(), n), n),
{
    let all = Seq::new(n, |i: int| i as usize);
    let groups = effective_groups(Seq::empty(), n);
    assert(groups.drop_last() =~= Seq::empty());
    assert(flat(groups) =~= all) by {
        reveal_with_fuel(flat, 2);
    }
    assert forall|c: int| 0 <= c < n implies flat(groups).contains(#[trigger] (c as usize)) by {
        assert(all[c] == c as usize);
    }
}

/// Holds groups over the channels to the rules.
pub fn check_groups(groups: &Vec<Vec<usize>>, channels: &Vec<String>) -> (r: Result<
    (),
    PlotError<String>,
>)
    ensures
        match r {
            Ok(_) => partition_error(group_views(groups@), views(channels@)) is None,
            Err(e) => partition_error(group_views(groups@), views(channels@)) == Some(e@),
        },
{
    let n: usize = channels.len();
    let ghost all = group_views(groups@);
    let ghost texts = views(channels@);
    if n == 0 {
        return Err(PlotError::NoChannels);
    }
    let mut seen: Vec<bool> = Vec::new();
    let mut k: usize = 0;
    while k < n
        invariant
            k <= n,
            seen@.len() == k,
            forall|c: int| 0 <= c < k ==> !#[trigger] seen@[c],
        decreases n - k,
    {
        seen.push(false);
        k += 1;
    }
    let mut gi: usize = 0;
    assert(all.take(0) =~= Seq::empty());
    while gi < groups.len()
        invariant
            gi <= groups@.len(),
            n == channels@.len(),
            n > 0,
            all == group_views(groups@),
            texts == views(channels@),
            seen@.len() == n,
            forall|c: int|
                0 <= c < n ==> #[trigger] seen@[c] == flat(all.take(gi as int)).contains(
                    c as usize,
                ),
            groups_error(all, 0, n as nat) == groups_error(all, gi as nat, n as nat),
        decreases groups@.len() - gi,
    {
        let g: &Vec<usize> = &groups[gi];
        let ghost before = flat(all.take(gi as int));
        assert(all[gi as int] == g@);
        if g.len() == 0 {
            return Err(PlotError::EmptyGroup);
        }
        let mut j: usize = 0;
        assert(before + g@.take(0) =~= before);
        while j < g.len()
            invariant
                j <= g@.len(),
                n == channels@.len(),
                n > 0,
                all == group_views(groups@),
                texts == views(channels@),
                all[gi as int] == g@,
                g@.len() > 0,
                gi < all.len(),
                before == flat(all.take(gi as int)),
                seen@.len() == n,
                forall|c: int|
                    0 <= c < n ==> #[trigger] seen@[c] == (before + g@.take(j as int)).contains(
                        c as usize,
                    ),
                groups_error(all, 0, n as nat) == groups_error(all, gi as nat, n as nat),
                members_error(before, g@, 0, n as nat) == members_error(
                    before,
                    g@,
                    j as nat,
                    n as nat,
                ),
            decreases g@.len() - j,
        {
            let i: usize = g[j];
            if i >= n {
                return Err(PlotError::NoSuchChannel(i, n));
            }
            let ghost a = before + g@.take(j as int);
            if seen[i] {
                assert(a.contains(i));
                return Err(PlotError::Repeated(i));
            }
            let ghost seen_before = seen@;
            seen.set(i, true);
            proof {
                let b = before + g@.take(j + 1);
                assert(b =~= a.push(i));
                assert forall|c: int| 0 <= c < n implies #[trigger] seen@[c] == b.contains(
                    c as usize,
                ) by {
                    assert(seen_before[c] == a.contains(c as usize));
                    if c == i {
                        assert(b[a.len() as int] == i);
                    } else if a.contains(c as usize) {
                        let p = choose|p: int| 0 <= p < a.len() && a[p] == c as usize;
                        assert(b[p] == c as usize);
                    } else if b.contains(c as usize) {
                        let p = choose|p: int| 0 <= p < b.len() && b[p] == c as usize;
                        assert(p < a.len());
                        assert(a[p] == c as usize);
                    }
                }
            }
            j += 1;
        }
        assert(g@.take(j as int) =~= g@);
        assert(all.take(gi + 1).drop_last() =~= all.take(gi as int));
        gi += 1;
    }
    assert(all.take(gi as int) =~= all);
    let mut c: usize = 0;
    while c < n
        invariant
            c <= n,
            n == channels@.len(),
            n > 0,
            texts == views(channels@),
            all == group_views(groups@),
            seen@.len() == n,
            groups_error(all, 0, n as nat) is None,
            forall|i: int|
                0 <= i < n ==> #[trigger] seen@[i] == flat(all).contains(i as usize),
            first_ungrouped(all, 0, n as nat) == first_ungrouped(all, c as nat, n as nat),
        decreases n - c,
    {
        if !seen[c] {
            assert(texts[c as int] == channels@[c as int]@);
            return Err(PlotError::Ungrouped(c, String::from_str(channels[c].as_str())));
        }
        c += 1;
    }
    Ok(())
}

// ---------------------------------------------------------------------------
// Histories
// ---------------------------------------------------------------------------

/// The last `max` points.
pub open spec fn last_points(h: Seq<Point>, max: nat) -> Seq<Point> {
    if h.len() > max {
        h.skip(h.len() - max)
    } else {
        h
    }
}

/// The point of a sample on the curve of channel `i`. A value that the sample
/// does not have is missing.
pub open spec fn sample_point(s: Sample, i: int, offset: int) -> Point {
    (
        (s.t + offset) as i128,
        if i < s.values@.len() {
            s.values@[i]
        } else {
            missing()
        },
    )
}

/// The points that samples add to the curve of channel `i`; where the curve is
/// to be broken, a missing value comes first.
pub open spec fn added_points(batch: Seq<Sample>, i: int, gap: bool, offset: int) -> Seq<Point> {
    let points = batch.map_values(|s: Sample| sample_point(s, i, offset));
    if gap && batch.len() > 0 {
        seq![((batch[0].t + offset) as i128, missing())] + points
    } else {
        points
    }
}

fn push_point(h: &mut VecDeque<Point>, p: Point, max: usize)
    requires
        old(h)@.len() <= max,
        max > 0,
    ensures
        final(h)@ == last_points(old(h)@.push(p), max as nat),
        final(h)@.len() <= max,
{
    if h.len() == max {
        h.pop_front();
        h.push_back(p);
        assert(h@ =~= last_points(old(h)@.push(p), max as nat));
    } else {
        h.push_back(p);
    }
}

proof fn lemma_last_points_push(h: Seq<Point>, p: Point, max: nat)
    requires
        max > 0,
    ensures
        last_points(last_points(h, max).push(p), max) == last_points(h.push(p), max),
{
    assert(last_points(last_points(h, max).push(p), max) =~= last_points(h.push(p), max));
}

// ---------------------------------------------------------------------------
// The window
// ---------------------------------------------------------------------------

/// A key of the window.
#[derive(Debug, Clone, Copy, PartialEq, Eq, Structural)]
pub enum PlotKey {
    /// Pauses and resumes.
    Space,
    /// Makes the rolling window wider.
    Plus,
    /// Makes the rolling window narrower.
    Minus,
    /// Lets the window roll again.
    Roll,
}

/// The state of a plot window.
#[derive(Debug)]
pub struct PlotApp {
    /// The names of the channels.
    pub names: Vec<String>,
    /// The curve of each channel.
    pub histories: Vec<VecDeque<Point>>,
    /// The width of the rolling window.
    pub window: u64,
    /// The points that a curve keeps.
    pub max_history: usize,
    /// The channels of each plot.
    pub groups: Vec<Vec<usize>>,
    pub paused: bool,
    /// Whether the window rolls with the newest data.
    pub follow: bool,
    /// Whether the next picture is made to roll.
    pub force_follow: bool,
    /// Whether the next sample is to break the curves.
    pub pending_gap: bool,
    /// The last time that was heard of, from the start of the window.
    pub clock: u64,
    /// When the present pause began.
    pub paused_at: Option<u64>,
    /// How long all pauses lasted that are over.
    pub paused_total: u64,
    /// What samples are moved by on the time axis.
    pub t_offset: i128,
    /// Whether the next batch of samples is of a pause.
    pub drop_next_batch: bool,
    /// Whether pauses come from outside: the space key then does nothing.
    pub external_pause: bool,
}

/// The width of a rolling window, brought between the limits.
pub open spec fn clamped(window: u64) -> u64 {
    if window < MIN_WINDOW_NS {
        MIN_WINDOW_NS
    } else if window > MAX_WINDOW_NS {
        MAX_WINDOW_NS
    } else {
        window
    }
}

impl PlotApp {
    /// The time axis is consistent: a pause is marked as one, pauses take no
    /// more time than there was, and samples are moved back by all of it.
    pub open spec fn time_ok(self) -> bool {
        &&& self.paused == (self.paused_at is Some)
        &&& self.paused_at matches Some(t) ==> self.paused_total <= t <= self.clock
        &&& self.paused_total <= self.clock
        &&& self.t_offset == -self.paused_total
    }

    /// What holds of every window.
    pub open spec fn wf(self) -> bool {
        &&& self.names@.len() > 0
        &&& self.histories@.len() == self.names@.len()
        &&& MIN_WINDOW_NS <= self.window <= MAX_WINDOW_NS
        &&& self.max_history >= MIN_HISTORY
        &&& forall|i: int|
            0 <= i < self.histories@.len() ==> (#[trigger] self.histories@[i])@.len()
                <= self.max_history
        &&& partition(group_views(self.groups@), self.names@.len())
        &&& self.time_ok()
    }

    /// The clock of the window: the time that passed outside of pauses. It
    /// stands still in a pause.
    pub open spec fn wall(self, elapsed: u64) -> int {
        match self.paused_at {
            Some(t) => t - self.paused_total,
            None => elapsed - self.paused_total,
        }
    }

    /// A window for these channels.
    pub fn new(channels: Vec<String>, options: PlotOptions) -> (r: Result<
        PlotApp,
        PlotError<String>,
    >)
        ensures
            match r {
                Ok(app) => {
                    &&& app.wf()
                    &&& app.names == channels
                    &&& group_views(app.groups@) == effective_groups(
                        group_views(options.groups@),
                        channels@.len(),
                    )
                    &&& app.window == clamped(options.window)
                    &&& app.max_history == if options.max_history < MIN_HISTORY {
                        MIN_HISTORY
                    } else {
                        options.max_history
                    }
                    &&& forall|i: int|
                        0 <= i < app.histories@.len() ==> (#[trigger] app.histories@[i])@.len() == 0
                    &&& !app.paused
                    &&& app.follow
                    &&& !app.force_follow
                    &&& !app.pending_gap
                    &&& app.clock == 0
                    &&& app.paused_total == 0
                    &&& !app.drop_next_batch
                    &&& !app.external_pause
                },
                Err(e) => partition_error(
                    effective_groups(group_views(options.groups@), channels@.len()),
                    views(channels@),
                ) == Some(e@),
            },
    {
        let n: usize = channels.len();
        let ghost asked = group_views(options.groups@);
        let groups: Vec<Vec<usize>> = if options.groups.len() == 0 {
            let mut all: Vec<usize> = Vec::new();
            while all.len() < n
                invariant
                    all@.len() <= n,
                    all@ == Seq::new(all@.len(), |i: int| i as usize),
                decreases n - all@.len(),
            {
                let i: usize = all.len();
                all.push(i);
                assert(all@ =~= Seq::new(all@.len(), |i: int| i as usize));
            }
            let mut one: Vec<Vec<usize>> = Vec::new();
            one.push(all);
            assert(group_views(one@) =~= effective_groups(asked, n as nat));
            one
        } else {
            options.groups
        };
        assert(group_views(groups@) == effective_groups(asked, n as nat));
        match check_groups(&groups, &channels) {
            Err(e) => {
                return Err(e);
            },
            Ok(_) => {},
        }
        proof {
            law_accepted_groups_are_partitions(group_views(groups@), views(channels@));
        }
        let mut histories: Vec<VecDeque<Point>> = Vec::new();
        while histories.len() < n
            invariant
                histories@.len() <= n,
                forall|i: int|
                    0 <= i < histories@.len() ==> (#[trigger] histories@[i])@.len() == 0,
            decreases n - histories@.len(),
        {
            histories.push(VecDeque::new());
        }
        let window: u64 = if options.window < MIN_WINDOW_NS {
            MIN_WINDOW_NS
        } else if options.window > MAX_WINDOW_NS {
            MAX_WINDOW_NS
        } else {
            options.window
        };
        let max_history: usize = if options.max_history < MIN_HISTORY {
            MIN_HISTORY
        } else {
            options.max_history
        };
        Ok(
            PlotApp {
                names: channels,
                histories,
                window,
                max_history,
                groups,
                paused: false,
                follow: true,
                force_follow: false,
                pending_gap: false,
                clock: 0,
                paused_at: None,
                paused_total: 0,
                t_offset: 0,
                drop_next_batch: false,
                external_pause: false,
            },
        )
    }

    /// Lets pauses come from outside.
    pub fn set_external_pause(&mut self)
        requires
            old(self).wf(),
        ensures
            final(self).wf(),
            *final(self) == (PlotApp { external_pause: true, ..*old(self) }),
    {
        self.external_pause = true;
    }

    /// What the clock of the window shows when `elapsed` has passed since its
    /// start.
    pub fn wall_now(&self, elapsed: u64) -> (r: u64)
        requires
            self.wf(),
            elapsed >= self.clock,
        ensures
            r == self.wall(elapsed),
    {
        match self.paused_at {
            Some(t) => t - self.paused_total,
            None => elapsed - self.paused_total,
        }
    }

    /// What a window is after a pause began or ended when `elapsed` had passed.
    pub open spec fn after_pause(self, p: bool, elapsed: u64) -> PlotApp {
        if p == self.paused {
            self
        } else if p {
            PlotApp { paused: true, paused_at: Some(elapsed), clock: elapsed, ..self }
        } else {
            let d = elapsed - self.paused_at->0;
            PlotApp {
                paused: false,
                paused_at: None,
                clock: elapsed,
                paused_total: (self.paused_total + d) as u64,
                t_offset: (self.t_offset - d) as i128,
                pending_gap: true,
                drop_next_batch: true,
                ..self
            }
        }
    }

    /// Begins or ends a pause when `elapsed` has passed.
    pub fn set_paused(&mut self, p: bool, elapsed: u64)
        requires
            old(self).wf(),
            elapsed >= old(self).clock,
        ensures
            final(self).wf(),
            *final(self) == old(self).after_pause(p, elapsed),
    {
        if p == self.paused {
            return ;
        }
        self.paused = p;
        self.clock = elapsed;
        if p {
            self.paused_at = Some(elapsed);
        } else {
            let began: u64 = match self.paused_at {
                Some(t) => t,
                None => elapsed,
            };
            let d: u64 = elapsed - began;
            self.paused_at = None;
            self.paused_total = self.paused_total + d;
            self.t_offset = self.t_offset - d as i128;
            self.pending_gap = true;
            self.drop_next_batch = true;
        }
    }

    /// Whether `after` is this window with samples behind its curves.
    pub open spec fn appended(self, batch: Seq<Sample>, after: PlotApp) -> bool {
        &&& after.histories@.len() == self.histories@.len()
        &&& forall|i: int|
            0 <= i < after.histories@.len() ==> (#[trigger] after.histories@[i])@ == last_points(
                self.histories@[i]@ + added_points(
                    batch,
                    i,
                    self.pending_gap,
                    self.t_offset as int,
                ),
                self.max_history as nat,
            )
        &&& after.pending_gap == (self.pending_gap && batch.len() == 0)
        &&& after == (PlotApp {
            histories: after.histories,
            pending_gap: after.pending_gap,
            ..self
        })
    }

    /// Whether `after` is this window when a source has delivered samples.
    pub open spec fn polled(self, batch: Seq<Sample>, after: PlotApp) -> bool {
        let ready = PlotApp { drop_next_batch: false, ..self };
        if self.paused || self.drop_next_batch {
            after == ready
        } else {
            ready.appended(batch, after)
        }
    }

    /// Puts samples behind the curves.
    pub fn append(&mut self, batch: &[Sample])
        requires
            old(self).wf(),
        ensures
            final(self).wf(),
            old(self).appended(batch@, *final(self)),
    {
        let ghost start = *self;
        let ghost gap = self.pending_gap;
        let ghost offset = self.t_offset as int;
        let ghost max = self.max_history as nat;
        let mut k: usize = 0;
        proof {
            assert forall|i: int| 0 <= i < self.histories@.len() implies (
            #[trigger] self.histories@[i])@ == last_points(
                start.histories@[i]@ + added_points(batch@.take(0), i, gap, offset),
                max,
            ) by {
                let h = start.histories@[i]@;
                assert(h.len() <= self.max_history);
                assert(h + added_points(batch@.take(0), i, gap, offset) =~= h);
            }
        }
        while k < batch.len()
            invariant
                k <= batch@.len(),
                start.wf(),
                gap == start.pending_gap,
                offset == start.t_offset,
                max == start.max_history,
                self.wf(),
                *self == (PlotApp {
                    histories: self.histories,
                    pending_gap: self.pending_gap,
                    ..start
                }),
                self.pending_gap == (gap && k == 0),
                self.histories@.len() == start.histories@.len(),
                forall|i: int|
                    0 <= i < self.histories@.len() ==> (#[trigger] self.histories@[i])@
                        == last_points(
                        start.histories@[i]@ + added_points(
                            batch@.take(k as int),
                            i,
                            gap,
                            offset,
                        ),
                        max,
                    ),
            decreases batch@.len() - k,
        {
            let ghost before = *self;
            self.append_one(&batch[k]);
            k += 1;
            assert forall|i: int| 0 <= i < self.histories@.len() implies (
            #[trigger] self.histories@[i])@ == last_points(
                start.histories@[i]@ + added_points(batch@.take(k as int), i, gap, offset),
                max,
            ) by {
                let h = start.histories@[i]@;
                let a = added_points(batch@.take(k - 1), i, gap, offset);
                let b = added_points(batch@.take(k as int), i, gap, offset);
                let point = sample_point(batch@[k - 1], i, offset);
                let mark = ((batch@[k - 1].t + offset) as i128, missing());
                assert(before.histories@[i]@ == last_points(h + a, max));
                if gap && k == 1 {
                    assert(b =~= a.push(mark).push(point));
                    lemma_last_points_push(h + a, mark, max);
                    lemma_last_points_push((h + a).push(mark), point, max);
                    assert(h + b =~= (h + a).push(mark).push(point));
                } else {
                    assert(b =~= a.push(point));
                    lemma_last_points_push(h + a, point, max);
                    assert(h + b =~= (h + a).push(point));
                }
            }
        }
        assert(batch@.take(k as int) =~= batch@);
    }

    fn append_one(&mut self, s: &Sample)
        requires
            old(self).wf(),
        ensures
            final(self).wf(),
            !final(self).pending_gap,
            *final(self) == (PlotApp {
                histories: final(self).histories,
                pending_gap: false,
                ..*old(self)
            }),
            final(self).histories@.len() == old(self).histories@.len(),
            forall|i: int|
                0 <= i < final(self).histories@.len() ==> (#[trigger] final(self).histories@[i])@
                    == ({
                    let point = sample_point(*s, i, old(self).t_offset as int);
                    let h = old(self).histories@[i]@;
                    let max = old(self).max_history as nat;
                    if old(self).pending_gap {
                        last_points(last_points(h.push((point.0, missing())), max).push(point), max)
                    } else {
                        last_points(h.push(point), max)
                    }
                }),
    {
        let t: i128 = s.t as i128 + self.t_offset;
        let gap: bool = self.pending_gap;
        let max: usize = self.max_history;
        let ghost start = *self;
        let mut i: usize = 0;
        while i < self.histories.len()
            invariant
                i <= self.histories@.len(),
                start.wf(),
                t == s.t + start.t_offset,
                gap == start.pending_gap,
                max == start.max_history,
                *self == (PlotApp { histories: self.histories, ..start }),
                self.histories@.len() == start.histories@.len(),
                forall|k: int|
                    0 <= k < self.histories@.len() ==> (#[trigger] self.histories@[k])@.len()
                        <= max,
                forall|k: int|
                    i <= k < self.histories@.len() ==> (#[trigger] self.histories@[k])
                        == start.histories@[k],
                forall|k: int|
                    0 <= k < i ==> (#[trigger] self.histories@[k])@ == ({
                        let point = sample_point(*s, k, start.t_offset as int);
                        let h = start.histories@[k]@;
                        if gap {
                            last_points(
                                last_points(h.push((point.0, missing())), max as nat).push(point),
                                max as nat,
                            )
                        } else {
                            last_points(h.push(point), max as nat)
                        }
                    }),
            decreases self.histories@.len() - i,
        {
            let value: Double = if i < s.values.len() {
                s.values[i]
            } else {
                Double::not_a_number()
            };
            let mut h: VecDeque<Point> = VecDeque::new();
            std::mem::swap(&mut h, &mut self.histories[i]);
            if gap {
                push_point(&mut h, (t, Double::not_a_number()), max);
            }
            push_point(&mut h, (t, value), max);
            std::mem::swap(&mut h, &mut self.histories[i]);
            i += 1;
        }
        self.pending_gap = false;
    }

    /// Takes the samples in that a source delivered. Those of a pause do not
    /// reach the curves: neither while it lasts, nor with the first batch after
    /// it.
    pub fn poll_and_append(&mut self, batch: &[Sample])
        requires
            old(self).wf(),
        ensures
            final(self).wf(),
            old(self).polled(batch@, *final(self)),
    {
        if !self.paused && !self.drop_next_batch {
            self.append(batch);
        }
        self.drop_next_batch = false;
    }

    /// What a window is after a key, when `elapsed` has passed.
    pub open spec fn after_key(self, key: PlotKey, elapsed: u64) -> PlotApp {
        match key {
            PlotKey::Space => if self.external_pause {
                self
            } else {
                self.after_pause(!self.paused, elapsed)
            },
            PlotKey::Plus => PlotApp { window: clamped((self.window + WINDOW_STEP_NS) as u64), ..self },
            PlotKey::Minus => PlotApp {
                window: clamped((self.window - WINDOW_STEP_NS) as u64),
                ..self
            },
            PlotKey::Roll => PlotApp { follow: true, force_follow: true, ..self },
        }
    }

    /// Acts on a key when `elapsed` has passed. What the source is to be told
    /// about a pause is handed out.
    pub fn handle_key(&mut self, key: PlotKey, elapsed: u64) -> (r: Option<bool>)
        requires
            old(self).wf(),
            elapsed >= old(self).clock,
        ensures
            final(self).wf(),
            *final(self) == old(self).after_key(key, elapsed),
            r == if key == PlotKey::Space && !old(self).external_pause {
                Some(!old(self).paused)
            } else {
                None
            },
    {
        match key {
            PlotKey::Space => {
                if !self.external_pause {
                    let p: bool = !self.paused;
                    self.set_paused(p, elapsed);
                    return Some(p);
                }
            },
            PlotKey::Plus => {
                let w: u64 = self.window + WINDOW_STEP_NS;
                self.window = if w > MAX_WINDOW_NS {
                    MAX_WINDOW_NS
                } else {
                    w
                };
            },
            PlotKey::Minus => {
                let w: u64 = self.window - WINDOW_STEP_NS;
                self.window = if w < MIN_WINDOW_NS {
                    MIN_WINDOW_NS
                } else {
                    w
                };
            },
            PlotKey::Roll => {
                self.follow = true;
                self.force_follow = true;
            },
        }
        None
    }

    /// The points of channel `i` in the rolling window that ends at `now` on the
    /// clock of the window, and all points.
    pub fn channel_pairs(&self, i: usize, now: u64) -> (r: (Vec<Point>, Vec<Point>))
        requires
            self.wf(),
            i < self.names@.len(),
        ensures
            r.0@ == self.histories@[i as int]@.filter(|p: Point| p.0 >= now - self.window),
            r.1@ == self.histories@[i as int]@,
    {
        let h: &VecDeque<Point> = &self.histories[i];
        let edge: i128 = now as i128 - self.window as i128;
        let ghost inside = |p: Point| p.0 >= now - self.window;
        let mut window: Vec<Point> = Vec::new();
        let mut full: Vec<Point> = Vec::new();
        let mut k: usize = 0;
        proof {
            reveal(Seq::filter);
        }
        while k < h.len()
            invariant
                k <= h@.len(),
                edge == now - self.window,
                inside == (|p: Point| p.0 >= now - self.window),
                full@ == h@.take(k as int),
                window@ == h@.take(k as int).filter(inside),
            decreases h@.len() - k,
        {
            let p: Point = h[k];
            full.push(p);
            proof {
                reveal(Seq::filter);
                assert(h@.take(k + 1).drop_last() =~= h@.take(k as int));
                assert(h@.take(k + 1) =~= h@.take(k as int).push(p));
            }
            if p.0 >= edge {
                window.push(p);
            }
            k += 1;
        }
        assert(h@.take(k as int) =~= h@);
        (window, full)
    }

    /// Takes in how a picture was drawn: a view that the user took hold of stops
    /// rolling, and a double click lets it roll again.
    pub fn view_drawn(&mut self, froze: bool, double_clicked: bool)
        requires
            old(self).wf(),
        ensures
            final(self).wf(),
            *final(self) == (PlotApp {
                follow: double_clicked || (old(self).follow && !froze),
                ..*old(self)
            }),
    {
        if froze {
            self.follow = false;
        }
        if double_clicked {
            self.follow = true;
        }
    }

    /// Ends a picture: what was forced holds for one picture.
    pub fn picture_done(&mut self)
        requires
            old(self).wf(),
        ensures
            final(self).wf(),
            *final(self) == (PlotApp { force_follow: false, ..*old(self) }),
    {
        self.force_follow = false;
    }

    /// What the title says of the window.
    pub open spec fn mode_text(self) -> Seq<char> {
        if self.paused {
            if self.external_pause {
                "⏸ 内核已暂停（跟随调试器）"@
            } else {
                "⏸ 已暂停（空格继续）"@
            }
        } else if self.follow {
            if self.external_pause {
                "▶ 内核运行中"@
            } else {
                "▶ 滚动中"@
            }
        } else {
            "⏸ 视图已冻结（双击/r 恢复滚动）"@
        }
    }

    /// The title: the mode, the width of the window as a text, and a message
    /// while there is one.
    pub fn title(&self, window: &str, message: Option<&str>) -> (r: String)
        ensures
            r@ == "tscope-plot — "@ + self.mode_text() + " — 窗口 "@ + window@ + " s"@ + (
            match message {
                Some(m) => " — "@ + m@,
                None => Seq::empty(),
            }),
    {
        let mode: &str = if self.paused {
            if self.external_pause {
                "⏸ 内核已暂停（跟随调试器）"
            } else {
                "⏸ 已暂停（空格继续）"
            }
        } else if self.follow {
            if self.external_pause {
                "▶ 内核运行中"
            } else {
                "▶ 滚动中"
            }
        } else {
            "⏸ 视图已冻结（双击/r 恢复滚动）"
        };
        let mut s: String = String::from_str("tscope-plot — ");
        s.append(mode);
        s.append(" — 窗口 ");
        s.append(window);
        s.append(" s");
        match message {
            Some(m) => {
                let ghost before = s@;
                s.append(" — ");
                s.append(m);
                assert(s@ =~= before + (" — "@ + m@));
            },
            None => {
                assert(s@ =~= s@ + Seq::<char>::empty());
            },
        }
        s
    }
}

/// How a plot is to be shown.
#[derive(Debug, Clone, Copy, PartialEq, Eq, Structural)]
pub struct ViewPlan {
    /// The bounds of both axes are set to be found by themselves, or not to be.
    pub set_auto: Option<bool>,
    /// Whether all points are drawn, rather than those of the rolling window.
    pub use_full: bool,
    /// Whether the user took hold of the view since the last picture.
    pub froze: bool,
}

/// How a plot is to be shown: `following` and `force_follow` are the window's,
/// `auto_x` tells whether the plot finds the bounds of its time axis itself.
pub fn apply_view(following: bool, force_follow: bool, auto_x: bool) -> (r: ViewPlan)
    ensures
        r == if force_follow {
            ViewPlan { set_auto: Some(true), use_full: false, froze: false }
        } else if following && !auto_x {
            ViewPlan { set_auto: Some(false), use_full: true, froze: true }
        } else {
            ViewPlan { set_auto: None, use_full: !following, froze: false }
        },
{
    if force_follow {
        ViewPlan { set_auto: Some(true), use_full: false, froze: false }
    } else if following && !auto_x {
        ViewPlan { set_auto: Some(false), use_full: true, froze: true }
    } else {
        ViewPlan { set_auto: None, use_full: !following, froze: false }
    }
}

// ---------------------------------------------------------------------------
// Laws of the time axis
// ---------------------------------------------------------------------------

/// A pause takes no time on the axis: while it lasts the clock of the window
/// stands still, and afterwards it goes on from there.
pub proof fn law_pause_takes_no_time(app: PlotApp, began: u64, ended: u64, during: u64)
    requires
        app.time_ok(),
        !app.paused,
        app.clock <= began <= during <= ended,
    ensures
        ({
            let paused = app.after_pause(true, began);
            let resumed = paused.after_pause(false, ended);
            &&& paused.time_ok()
            &&& resumed.time_ok()
            &&& paused.wall(during) == app.wall(began)
            &&& resumed.wall(ended) == app.wall(began)
            &&& resumed.pending_gap
            &&& resumed.drop_next_batch
        }),
{
}

/// Outside of a pause a sample that is taken now lands at the present moment of
/// the window's clock, however many pauses there were, and never before zero.
pub proof fn law_samples_land_on_the_clock(app: PlotApp, s: Sample, i: int)
    requires
        app.time_ok(),
        !app.paused,
        s.t >= app.clock,
    ensures
        sample_point(s, i, app.t_offset as int).0 == app.wall(s.t as u64),
        sample_point(s, i, app.t_offset as int).0 >= 0,
{
}

/// Whether the times of points do not go back, and none is before `from`.
pub open spec fn forward(h: Seq<Point>, from: int) -> bool {
    &&& forall|k: int| 0 <= k < h.len() ==> (#[trigger] h[k]).0 >= from
    &&& forall|a: int, b: int| 0 <= a <= b < h.len() ==> (#[trigger] h[a]).0 <= (#[trigger] h[b]).0
}

/// Whether the times of samples do not go back, and none is before `from`.
pub open spec fn samples_forward(batch: Seq<Sample>, from: int) -> bool {
    &&& forall|k: int| 0 <= k < batch.len() ==> (#[trigger] batch[k]).t >= from
    &&& forall|a: int, b: int|
        0 <= a <= b < batch.len() ==> (#[trigger] batch[a]).t <= (#[trigger] batch[b]).t
}

/// Whether no point is behind the moment `now`.
pub open spec fn reached(h: Seq<Point>, now: int) -> bool {
    forall|k: int| 0 <= k < h.len() ==> (#[trigger] h[k]).0 <= now
}

/// Where a curve has not passed the moment `now` of the window's clock, samples
/// that are taken from that moment on, and not after `end`, keep it going forward.
proof fn lemma_forward(
    app: PlotApp,
    h: Seq<Point>,
    batch: Seq<Sample>,
    i: int,
    now: int,
    end: int,
)
    requires
        app.time_ok(),
        0 <= now <= end,
        forward(h, 0),
        reached(h, now),
        samples_forward(batch, now + app.paused_total),
        forall|k: int| 0 <= k < batch.len() ==> (#[trigger] batch[k]).t <= end + app.paused_total,
    ensures
        reached(
            last_points(
                h + added_points(batch, i, app.pending_gap, app.t_offset as int),
                app.max_history as nat,
            ),
            end,
        ),
        forward(
            last_points(
                h + added_points(batch, i, app.pending_gap, app.t_offset as int),
                app.max_history as nat,
            ),
            0,
        ),
{
    let offset = app.t_offset as int;
    let more = added_points(batch, i, app.pending_gap, offset);
    let shift: int = if app.pending_gap && batch.len() > 0 {
        1
    } else {
        0
    };
    assert forall|k: int| 0 <= k < more.len() implies (#[trigger] more[k]).0 == batch[if k < shift {
        0
    } else {
        k - shift
    }].t + offset by {}
    let all = h + more;
    assert forall|k: int| 0 <= k < all.len() implies 0 <= (#[trigger] all[k]).0 <= end by {
        if k >= h.len() {
            assert(all[k] == more[k - h.len()]);
        } else {
            assert(all[k] == h[k]);
        }
    }
    assert forall|a: int, b: int| 0 <= a <= b < all.len() implies (#[trigger] all[a]).0 <= (
    #[trigger] all[b]).0 by {
        if a >= h.len() {
            assert(all[a] == more[a - h.len()]);
            assert(all[b] == more[b - h.len()]);
        } else if b >= h.len() {
            assert(all[b] == more[b - h.len()]);
            assert(all[a] == h[a]);
        } else {
            assert(all[a] == h[a] && all[b] == h[b]);
        }
    }
    let kept = last_points(all, app.max_history as nat);
    assert forall|k: int| 0 <= k < kept.len() implies 0 <= (#[trigger] kept[k]).0 <= end by {
        assert(kept[k] == all[k + all.len() - kept.len()]);
    }
    assert forall|a: int, b: int| 0 <= a <= b < kept.len() implies (#[trigger] kept[a]).0 <= (
    #[trigger] kept[b]).0 by {
        assert(kept[a] == all[a + all.len() - kept.len()]);
        assert(kept[b] == all[b + all.len() - kept.len()]);
    }
}

/// What happens to a window.
pub enum PlotEvent {
    /// A pause begins or ends.
    Pause(bool),
    /// A key is pressed.
    Key(PlotKey),
    /// The source delivers what it took since it was last asked.
    Poll(Seq<Sample>),
    /// Samples are put behind the curves that were taken since the window was last
    /// heard of.
    Append(Seq<Sample>),
}

/// Whether `after` is the window `before` once `event` has happened, when
/// `elapsed` had passed.
pub open spec fn happened(
    before: PlotApp,
    event: PlotEvent,
    elapsed: u64,
    after: PlotApp,
) -> bool {
    match event {
        PlotEvent::Pause(p) => after == before.after_pause(p, elapsed),
        PlotEvent::Key(key) => after == before.after_key(key, elapsed),
        PlotEvent::Poll(batch) => before.polled(batch, after),
        PlotEvent::Append(batch) => before.appended(batch, after),
    }
}

/// Whether samples were taken one after the other, from `from` until `elapsed`.
pub open spec fn taken_between(batch: Seq<Sample>, from: int, elapsed: u64) -> bool {
    &&& samples_forward(batch, from)
    &&& forall|k: int| 0 <= k < batch.len() ==> (#[trigger] batch[k]).t <= elapsed
}

/// Whether `event` can happen when `elapsed` has passed, to a window that was last
/// heard of at `now` and whose source was last asked at `asked`: time does not go
/// back, what a source delivers was taken since it was last asked, and nothing
/// else is put behind the curves during a pause.
pub open spec fn timely(
    app: PlotApp,
    event: PlotEvent,
    elapsed: u64,
    now: u64,
    asked: int,
) -> bool {
    &&& now <= elapsed
    &&& match event {
        PlotEvent::Poll(batch) => taken_between(batch, asked, elapsed),
        PlotEvent::Append(batch) => !app.paused && taken_between(batch, now as int, elapsed),
        _ => true,
    }
}

/// When the source was last asked, after `event`.
pub open spec fn asked_after(event: PlotEvent, elapsed: u64, asked: int) -> int {
    match event {
        PlotEvent::Poll(_) | PlotEvent::Append(_) => elapsed as int,
        _ => asked,
    }
}

/// Whether the curves of a window that was last heard of at `now`, and whose
/// source was last asked at `asked`, go forward from zero up to the present
/// moment of its clock at the most.
pub open spec fn on_time(app: PlotApp, now: u64, asked: int) -> bool {
    &&& app.wf()
    &&& app.clock <= now
    &&& 0 <= asked <= now
    &&& forall|i: int|
        0 <= i < app.histories@.len() ==> {
            &&& forward((#[trigger] app.histories@[i])@, 0)
            &&& reached(app.histories@[i]@, app.wall(now))
        }
    &&& !app.paused && !app.drop_next_batch ==> {
        &&& app.clock <= asked
        &&& forall|i: int|
            0 <= i < app.histories@.len() ==> reached(
                (#[trigger] app.histories@[i])@,
                asked - app.paused_total,
            )
    }
}

/// The times of all curves never go back, are never negative and are never ahead
/// of the clock, in whichever order pauses, keys and batches of samples follow
/// each other, and however fast. What reaches a curve was taken after the last
/// pause.
pub proof fn law_times_never_go_back(
    before: PlotApp,
    now: u64,
    asked: int,
    event: PlotEvent,
    elapsed: u64,
    after: PlotApp,
)
    requires
        on_time(before, now, asked),
        timely(before, event, elapsed, now, asked),
        happened(before, event, elapsed, after),
    ensures
        on_time(after, elapsed, asked_after(event, elapsed, asked)),
        event matches PlotEvent::Poll(batch) ==> {
            &&& !after.drop_next_batch
            &&& after.histories == before.histories || (!before.paused && forall|k: int|
                0 <= k < batch.len() ==> (#[trigger] batch[k]).t >= before.clock)
        },
{
    match event {
        PlotEvent::Pause(_) | PlotEvent::Key(_) => {
            assert forall|i: int| 0 <= i < after.histories@.len() implies reached(
                (#[trigger] after.histories@[i])@,
                after.wall(elapsed),
            ) by {
                assert(after.histories@[i] == before.histories@[i]);
                assert(after.wall(elapsed) >= before.wall(now));
            }
        },
        PlotEvent::Append(batch) => {
            assert forall|i: int| 0 <= i < after.histories@.len() implies {
                &&& forward((#[trigger] after.histories@[i])@, 0)
                &&& reached(after.histories@[i]@, elapsed - after.paused_total)
                &&& after.histories@[i]@.len() <= after.max_history
            } by {
                lemma_forward(
                    before,
                    before.histories@[i]@,
                    batch,
                    i,
                    now - before.paused_total,
                    elapsed - before.paused_total,
                );
            }
        },
        PlotEvent::Poll(batch) => {
            if before.paused || before.drop_next_batch {
                assert(after.wall(elapsed) >= before.wall(now));
                assert(!before.paused ==> before.wall(now) <= elapsed - after.paused_total);
            } else {
                assert forall|i: int| 0 <= i < after.histories@.len() implies {
                    &&& forward((#[trigger] after.histories@[i])@, 0)
                    &&& reached(after.histories@[i]@, elapsed - after.paused_total)
                    &&& after.histories@[i]@.len() <= after.max_history
                } by {
                    lemma_forward(
                        before,
                        before.histories@[i]@,
                        batch,
                        i,
                        asked - before.paused_total,
                        elapsed - before.paused_total,
                    );
                }
            }
        },
    }
}

/// The same of any number of events, one after the other, from the opening of a
/// window on.
pub proof fn law_curves_go_forward(
    apps: Seq<PlotApp>,
    events: Seq<(PlotEvent, u64)>,
    asked: Seq<int>,
    n: nat,
)
    requires
        apps.len() == events.len() + 1,
        asked.len() == events.len() + 1,
        n <= events.len(),
        apps[0].wf(),
        !apps[0].paused && !apps[0].drop_next_batch,
        apps[0].clock == 0 && asked[0] == 0,
        forall|i: int|
            0 <= i < apps[0].histories@.len() ==> (#[trigger] apps[0].histories@[i])@.len() == 0,
        forall|k: int|
            #![trigger events[k]]
            0 <= k < events.len() ==> {
                let (event, elapsed) = events[k];
                &&& timely(apps[k], event, elapsed, heard(events, k), asked[k])
                &&& happened(apps[k], event, elapsed, apps[k + 1])
                &&& asked[k + 1] == asked_after(event, elapsed, asked[k])
            },
    ensures
        on_time(apps[n as int], heard(events, n as int), asked[n as int]),
    decreases n,
{
    if n > 0 {
        law_curves_go_forward(apps, events, asked, (n - 1) as nat);
        let (event, elapsed) = events[n - 1];
        law_times_never_go_back(
            apps[n - 1],
            heard(events, n - 1),
            asked[n - 1],
            event,
            elapsed,
            apps[n as int],
        );
    }
}

/// When a window was last heard of, after the first `n` events.
pub open spec fn heard(events: Seq<(PlotEvent, u64)>, n: int) -> u64 {
    if n <= 0 {
        0
    } else {
        events[n - 1].1
    }
}

/// A pause is cut out of the curves: what comes behind it is moved back by as
/// long as it lasted, behind a missing value that breaks the curve, and the clock
/// goes on from where it stopped. `ready` is the window right after the pause, or
/// when the batch of the pause was dropped; `after` is the one with the samples of
/// `batch` behind its curves.
pub proof fn law_pauses_are_cut_out(
    app: PlotApp,
    began: u64,
    ended: u64,
    dropped: Seq<Sample>,
    ready: PlotApp,
    batch: Seq<Sample>,
    after: PlotApp,
)
    requires
        app.wf(),
        !app.paused,
        app.clock <= began <= ended,
        ({
            let resumed = app.after_pause(true, began).after_pause(false, ended);
            ready == resumed || resumed.polled(dropped, ready)
        }),
        ready.appended(batch, after),
        batch.len() > 0,
    ensures
        ready.wall(ended) == app.wall(began),
        ready.histories == app.histories,
        forall|i: int|
            0 <= i < app.histories@.len() ==> {
                let moved = app.t_offset - (ended - began);
                (#[trigger] after.histories@[i])@ == last_points(
                    app.histories@[i]@ + (seq![((batch[0].t + moved) as i128, missing())]
                        + batch.map_values(|s: Sample| sample_point(s, i, moved))),
                    app.max_history as nat,
                )
            },
        !after.pending_gap,
{
    let moved = app.t_offset - (ended - began);
    assert(ready.t_offset == moved);
    assert(ready.pending_gap && !ready.paused);
}

/// One sample behind a pause adds two points to a curve that has room for them:
/// the break and the value, both at the time of the sample without the pause.
pub proof fn law_one_sample_behind_a_pause(
    app: PlotApp,
    began: u64,
    ended: u64,
    s: Sample,
    after: PlotApp,
    i: int,
)
    requires
        app.wf(),
        !app.paused,
        app.clock <= began <= ended,
        app.after_pause(true, began).after_pause(false, ended).appended(seq![s], after),
        0 <= i < app.histories@.len(),
        app.histories@[i]@.len() + 2 <= app.max_history,
    ensures
        ({
            let p = sample_point(s, i, app.t_offset - (ended - began));
            after.histories@[i]@ == app.histories@[i]@.push((p.0, missing())).push(p)
        }),
{
    let resumed = app.after_pause(true, began).after_pause(false, ended);
    let moved = app.t_offset - (ended - began);
    let h = app.histories@[i]@;
    law_pauses_are_cut_out(app, began, ended, Seq::empty(), resumed, seq![s], after);
    let p = sample_point(s, i, moved);
    assert(after.histories@[i]@ =~= h.push((p.0, missing())).push(p));
}

/// However many samples come in, a curve keeps no more points than it may, and
/// those that it keeps are the newest.
pub proof fn law_history_is_bounded(h: Seq<Point>, more: Seq<Point>, max: nat)
    ensures
        last_points(h + more, max).len() <= max,
        more.len() <= max ==> more =~= last_points(h + more, max).skip(
            last_points(h + more, max).len() - more.len(),
        ),
{
}

/// A sample puts its value for a channel on the curve of that channel, at its own
/// time less the pauses; a value that it does not have breaks the curve.
pub proof fn law_samples_keep_their_values(batch: Seq<Sample>, i: int, offset: i64, k: int)
    requires
        0 <= k < batch.len(),
        0 <= i,
    ensures
        added_points(batch, i, false, offset as int).len() == batch.len(),
        ({
            let p = added_points(batch, i, false, offset as int)[k];
            &&& p.0 == batch[k].t + offset
            &&& i < batch[k].values@.len() ==> p.1 == batch[k].values@[i]
            &&& i >= batch[k].values@.len() ==> p.1.nan()
        }),
        added_points(batch, i, true, offset as int).len() == batch.len() + 1,
        added_points(batch, i, true, offset as int)[k + 1] == added_points(
            batch,
            i,
            false,
            offset as int,
        )[k],
        added_points(batch, i, true, offset as int)[0].0 == batch[0].t + offset,
        added_points(batch, i, true, offset as int)[0].1.nan(),
{
}

/// The keys: the space key pauses a window and lets it go on, plus and minus make
/// the rolling window half a second wider and narrower, from half a second up to
/// two minutes, and the last one lets it roll again.
pub proof fn law_keys_of_a_window(app: PlotApp, elapsed: u64)
    requires
        app.wf(),
        app.clock <= elapsed,
    ensures
        app.after_key(PlotKey::Space, elapsed).paused == (app.paused != !app.external_pause),
        app.after_key(PlotKey::Plus, elapsed).window == if app.window + 500_000_000
            > 120_000_000_000 {
            120_000_000_000
        } else {
            app.window + 500_000_000
        },
        app.after_key(PlotKey::Minus, elapsed).window == if app.window - 500_000_000
            < 500_000_000 {
            500_000_000
        } else {
            app.window - 500_000_000
        },
        app.after_key(PlotKey::Roll, elapsed).follow,
        app.after_key(PlotKey::Roll, elapsed).force_follow,
        app.after_key(PlotKey::Plus, elapsed).histories == app.histories,
        app.after_key(PlotKey::Space, elapsed).histories == app.histories,
{
}

/// The eight colours of the palette are all different, and channels take them in
/// turn. The title tells apart a paused, a rolling and a frozen window.
pub proof fn law_channels_are_told_apart(i: int, j: int, a: PlotApp, b: PlotApp)
    requires
        0 <= i < j < 8,
    ensures
        palette(i) != palette(j),
        a.paused && !b.paused && b.follow ==> a.mode_text() != b.mode_text(),
        !a.paused && !b.paused && a.follow && !b.follow ==> a.mode_text() != b.mode_text(),
{
    reveal_strlit("⏸ 内核已暂停（跟随调试器）");
    reveal_strlit("⏸ 已暂停（空格继续）");
    reveal_strlit("▶ 内核运行中");
    reveal_strlit("▶ 滚动中");
    reveal_strlit("⏸ 视图已冻结（双击/r 恢复滚动）");
    assert("⏸ 内核已暂停（跟随调试器）"@[0] == '⏸');
    assert("⏸ 已暂停（空格继续）"@[0] == '⏸');
    assert("⏸ 视图已冻结（双击/r 恢复滚动）"@[0] == '⏸');
    assert("▶ 内核运行中"@[0] == '▶');
    assert("▶ 滚动中"@[0] == '▶');
}

}
