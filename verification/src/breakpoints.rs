//! The breakpoints of a debugging session and what is done to the probe for
//! them: they outlive running, halting and resets, until the session ends.
use vstd::prelude::*;
use crate::number::{
    dec, dec_text, digit_char, hex, hex_text, law_numeral_read_back, lemma_dec_digits,
    lemma_digits_are_plain, read_usize, unsigned_value,
};
use crate::text::{chars_of, mentions, same_text};

verus! {

/// How long a halt may take, in milliseconds.
pub const HALT_TIMEOUT_MS: u64 = 1000;

/// How long the core may run before the wait for a halt is given up, in seconds.
pub const WAIT_SECONDS: u64 = 10;

/// What is asked of the probe.
#[derive(Debug, Clone, Copy, PartialEq, Eq, Structural)]
pub enum ProbeAction {
    /// A hardware breakpoint at an address.
    SetBreakpoint(u64),
    /// No hardware breakpoint at an address.
    ClearBreakpoint(u64),
    /// The core runs on.
    Run,
    /// The core stops.
    Halt,
    /// The core starts anew and stops before its first instruction.
    ResetAndHalt,
}

/// The addresses that the hardware stops at after an action. A reset empties
/// the breakpoint unit.
pub open spec fn armed_after(armed: Set<u64>, action: ProbeAction) -> Set<u64> {
    match action {
        ProbeAction::SetBreakpoint(a) => armed.insert(a),
        ProbeAction::ClearBreakpoint(a) => armed.remove(a),
        ProbeAction::ResetAndHalt => Set::empty(),
        _ => armed,
    }
}

/// The addresses that the hardware stops at after several actions.
pub open spec fn armed_after_all(armed: Set<u64>, actions: Seq<ProbeAction>) -> Set<u64>
    decreases actions.len(),
{
    if actions.len() == 0 {
        armed
    } else {
        armed_after(armed_after_all(armed, actions.drop_last()), actions.last())
    }
}

/// A breakpoint: where it is, and how its place was written.
#[derive(Debug)]
pub struct Breakpoint<T> {
    /// The address.
    pub addr: u64,
    /// The place as it was written.
    pub desc: T,
}

impl View for Breakpoint<String> {
    type V = Breakpoint<Seq<char>>;

    open spec fn view(&self) -> Breakpoint<Seq<char>> {
        Breakpoint { addr: self.addr, desc: self.desc@ }
    }
}

/// Whether no two breakpoints share an address.
pub open spec fn distinct(list: Seq<Breakpoint<Seq<char>>>) -> bool {
    forall|i: int, j: int|
        0 <= i < j < list.len() ==> (#[trigger] list[i]).addr != (#[trigger] list[j]).addr
}

/// The addresses of breakpoints.
pub open spec fn addresses(list: Seq<Breakpoint<Seq<char>>>) -> Set<u64> {
    Set::new(|a: u64| exists|i: int| 0 <= i < list.len() && (#[trigger] list[i]).addr == a)
}

/// The number of the first breakpoint from `i` on at an address.
pub open spec fn first_at(list: Seq<Breakpoint<Seq<char>>>, addr: u64, i: int) -> Option<int>
    decreases list.len() - i,
{
    if i < 0 || i >= list.len() {
        None
    } else if list[i].addr == addr {
        Some(i)
    } else {
        first_at(list, addr, i + 1)
    }
}

/// Where `first_at` finds a breakpoint there is one, and where it finds none
/// there is none.
proof fn lemma_first_at(list: Seq<Breakpoint<Seq<char>>>, addr: u64, i: int)
    requires
        0 <= i,
    ensures
        match first_at(list, addr, i) {
            Some(k) => i <= k < list.len() && list[k].addr == addr,
            None => forall|k: int| i <= k < list.len() ==> (#[trigger] list[k]).addr != addr,
        },
    decreases list.len() - i,
{
    if i < list.len() && list[i].addr != addr {
        lemma_first_at(list, addr, i + 1);
    }
}

/// The breakpoints of a session, in the order in which they were set.
#[derive(Debug)]
pub struct Breakpoints {
    entries: Vec<Breakpoint<String>>,
}

/// The views of stored breakpoints.
spec fn entry_views(v: Seq<Breakpoint<String>>) -> Seq<Breakpoint<Seq<char>>> {
    v.map_values(|b: Breakpoint<String>| b@)
}

impl View for Breakpoints {
    type V = Seq<Breakpoint<Seq<char>>>;

    closed spec fn view(&self) -> Seq<Breakpoint<Seq<char>>> {
        entry_views(self.entries@)
    }
}

/// What `bc` clears.
#[derive(Debug, Clone, Copy, PartialEq, Eq, Structural)]
pub enum ClearTarget {
    /// All breakpoints.
    All,
    /// The one with this number, counted from one.
    One(usize),
}

/// What the argument of `bc` means where there are `n` breakpoints.
pub open spec fn clear_target(which: Seq<char>, n: nat) -> Option<ClearTarget> {
    if which == "all"@ {
        Some(ClearTarget::All)
    } else {
        match unsigned_value(which, 10, usize::MAX as nat) {
            Ok(k) => if 1 <= k <= n {
                Some(ClearTarget::One(k as usize))
            } else {
                None
            },
            Err(_) => None,
        }
    }
}

/// The breakpoints that are left when a target is cleared.
pub open spec fn cleared(
    list: Seq<Breakpoint<Seq<char>>>,
    target: ClearTarget,
) -> Seq<Breakpoint<Seq<char>>> {
    match target {
        ClearTarget::All => Seq::empty(),
        ClearTarget::One(k) => if 1 <= k <= list.len() {
            list.remove(k - 1)
        } else {
            list
        },
    }
}

/// What is asked of the probe to clear a target.
pub open spec fn clear_actions(
    list: Seq<Breakpoint<Seq<char>>>,
    target: ClearTarget,
) -> Seq<ProbeAction> {
    match target {
        ClearTarget::All => list.map_values(
            |b: Breakpoint<Seq<char>>| ProbeAction::ClearBreakpoint(b.addr),
        ),
        ClearTarget::One(k) => if 1 <= k <= list.len() {
            seq![ProbeAction::ClearBreakpoint(list[k - 1].addr)]
        } else {
            Seq::empty()
        },
    }
}

/// What is asked of the probe to set all breakpoints.
pub open spec fn set_actions(list: Seq<Breakpoint<Seq<char>>>) -> Seq<ProbeAction> {
    list.map_values(|b: Breakpoint<Seq<char>>| ProbeAction::SetBreakpoint(b.addr))
}

/// The text ` @ 0x…` of an address.
pub open spec fn at_text(addr: u64) -> Seq<char> {
    " @ 0x"@ + hex(addr as nat, 8)
}

fn push_at(s: &mut String, addr: u64)
    ensures
        final(s)@ == old(s)@ + at_text(addr),
{
    let ghost start = s@;
    s.append(" @ 0x");
    s.append(hex_text(addr, 8).as_str());
    assert(s@ =~= start + at_text(addr));
}

/// What is said of an address that has a breakpoint already.
pub open spec fn present_text(addr: u64, desc: Seq<char>) -> Seq<char> {
    "0x"@ + hex(addr as nat, 8) + " 已有断点（"@ + desc + "）"@
}

/// What is said of a new breakpoint, by its number.
pub open spec fn added_text(number: nat, desc: Seq<char>, addr: u64) -> Seq<char> {
    "断点 "@ + dec(number) + "："@ + desc + at_text(addr)
}

/// What is said where the hardware has no breakpoint left.
pub open spec fn full_text(units: nat) -> Seq<char> {
    "硬件断点已满（共 "@ + dec(units)
        + " 个）：先用 bc 删除再添加（本工具只支持硬件断点）"@
}

/// The next step of setting a breakpoint. `T` is the form in which text is held.
#[derive(Debug, PartialEq, Eq)]
pub enum AddStep<T> {
    /// The address has a breakpoint already: this is said, and nothing is done.
    Present(T),
    /// Ask the probe how many breakpoints the hardware has.
    AskUnits,
    /// The hardware has no breakpoint left: the command fails with this.
    Full(T),
    /// Halt the core, set the hardware breakpoint and take it in.
    Arm,
}

impl View for AddStep<String> {
    type V = AddStep<Seq<char>>;

    open spec fn view(&self) -> AddStep<Seq<char>> {
        match self {
            AddStep::Present(t) => AddStep::Present(t@),
            AddStep::AskUnits => AddStep::AskUnits,
            AddStep::Full(t) => AddStep::Full(t@),
            AddStep::Arm => AddStep::Arm,
        }
    }
}

/// The next step of setting a breakpoint at an address. `units` is how many the
/// hardware has, once that was asked. An address that has a breakpoint is told of
/// before the hardware is looked at.
pub open spec fn add_step(
    list: Seq<Breakpoint<Seq<char>>>,
    addr: u64,
    units: Option<u32>,
) -> AddStep<Seq<char>> {
    match (first_at(list, addr, 0), units) {
        (Some(k), _) => AddStep::Present(present_text(addr, list[k].desc)),
        (None, None) => AddStep::AskUnits,
        (None, Some(n)) => if list.len() >= n {
            AddStep::Full(full_text(n as nat))
        } else {
            AddStep::Arm
        },
    }
}

/// What is said of a number that no breakpoint has.
pub open spec fn bad_number_text(which: Seq<char>, n: nat) -> Seq<char> {
    "无效的断点编号 "@ + which + "（当前共 "@ + dec(n) + " 个，用 bl 查看）"@
}

/// What is said of cleared breakpoints.
pub open spec fn cleared_text(
    list: Seq<Breakpoint<Seq<char>>>,
    target: ClearTarget,
) -> Seq<char> {
    match target {
        ClearTarget::All => "已删除全部 "@ + dec(list.len()) + " 个断点"@,
        ClearTarget::One(k) => "已删除断点 "@ + dec(k as nat) + "（"@ + list[k - 1].desc
            + "）"@,
    }
}

/// The line of the list for one breakpoint.
pub open spec fn list_line(number: nat, b: Breakpoint<Seq<char>>) -> Seq<char> {
    "  "@ + dec(number) + "："@ + b.desc + at_text(b.addr)
}

/// The lines of the list where there are breakpoints: how many of the hardware's
/// are in use, and one line for each.
pub open spec fn list_lines(list: Seq<Breakpoint<Seq<char>>>, units: nat) -> Seq<Seq<char>> {
    seq![
        "断点列表（"@ + dec(list.len()) + " / "@ + dec(units) + " 个硬件断点）："@,
    ] + Seq::new(list.len(), |i: int| list_line((i + 1) as nat, list[i]))
}

impl Breakpoints {
    #[verifier::type_invariant]
    spec fn wf(self) -> bool {
        distinct(self@)
    }

    /// No breakpoints.
    pub fn new() -> (r: Breakpoints)
        ensures
            r@ == Seq::<Breakpoint<Seq<char>>>::empty(),
    {
        let r: Breakpoints = Breakpoints { entries: Vec::new() };
        assert(r@ =~= Seq::empty());
        r
    }

    /// How many breakpoints there are. No two of them share an address.
    pub fn len(&self) -> (r: usize)
        ensures
            r == self@.len(),
            distinct(self@),
    {
        proof {
            use_type_invariant(self);
        }
        self.entries.len()
    }

    /// Which breakpoint is at an address, counted from zero.
    pub fn find(&self, addr: u64) -> (r: Option<usize>)
        ensures
            match r {
                Some(i) => first_at(self@, addr, 0) == Some(i as int) && i < self@.len(),
                None => first_at(self@, addr, 0) is None,
            },
    {
        let mut i: usize = 0;
        while i < self.entries.len()
            invariant
                i <= self.entries@.len(),
                self@ == entry_views(self.entries@),
                first_at(self@, addr, 0) == first_at(self@, addr, i as int),
            decreases self.entries@.len() - i,
        {
            assert(self@[i as int].addr == self.entries@[i as int].addr);
            if self.entries[i].addr == addr {
                return Some(i);
            }
            i += 1;
        }
        None
    }

    /// What to say of an address that has a breakpoint already, if it has.
    pub fn present(&self, addr: u64) -> (r: Option<String>)
        ensures
            match r {
                Some(t) => first_at(self@, addr, 0) matches Some(i) && t@ == present_text(
                    addr,
                    self@[i].desc,
                ),
                None => first_at(self@, addr, 0) is None,
            },
    {
        match self.find(addr) {
            Some(i) => {
                let mut s: String = String::from_str("0x");
                s.append(hex_text(addr, 8).as_str());
                s.append(" 已有断点（");
                s.append(self.entries[i].desc.as_str());
                s.append("）");
                Some(s)
            },
            None => None,
        }
    }

    /// What to say where the hardware, with so many breakpoints, has none left.
    pub fn full(&self, units: u32) -> (r: Option<String>)
        ensures
            match r {
                Some(t) => self@.len() >= units && t@ == full_text(units as nat),
                None => self@.len() < units,
            },
    {
        if self.entries.len() as u64 >= units as u64 {
            let mut s: String = String::from_str("硬件断点已满（共 ");
            s.append(dec_text(units as u64).as_str());
            s.append(" 个）：先用 bc 删除再添加（本工具只支持硬件断点）");
            Some(s)
        } else {
            None
        }
    }

    /// The next step of setting a breakpoint at an address. `units` is how many
    /// the hardware has, once that was asked.
    pub fn add_step(&self, addr: u64, units: Option<u32>) -> (r: AddStep<String>)
        ensures
            r@ == add_step(self@, addr, units),
    {
        match self.present(addr) {
            Some(t) => AddStep::Present(t),
            None => match units {
                None => AddStep::AskUnits,
                Some(n) => match self.full(n) {
                    Some(t) => AddStep::Full(t),
                    None => AddStep::Arm,
                },
            },
        }
    }

    /// Takes a breakpoint in that the probe has set, and says so. An address
    /// that has one already keeps it, and nothing changes.
    pub fn add_set(&mut self, addr: u64, desc: &str) -> (r: String)
        ensures
            distinct(final(self)@),
            match first_at(old(self)@, addr, 0) {
                Some(i) => final(self)@ == old(self)@ && r@ == present_text(
                    addr,
                    old(self)@[i].desc,
                ),
                None => final(self)@ == old(self)@.push(Breakpoint { addr, desc: desc@ }) && r@
                    == added_text(old(self)@.len() + 1, desc@, addr),
            },
    {
        proof {
            use_type_invariant(&*self);
            lemma_first_at(self@, addr, 0);
        }
        match self.present(addr) {
            Some(t) => t,
            None => {
                let n: u64 = self.entries.len() as u64;
                let mut s: String = String::from_str("断点 ");
                s.append(crate::number::dec_wide_text(n as u128 + 1).as_str());
                s.append("：");
                s.append(desc);
                push_at(&mut s, addr);
                let ghost before = self@;
                let mut entries: Vec<Breakpoint<String>> = Vec::new();
                std::mem::swap(&mut entries, &mut self.entries);
                entries.push(Breakpoint { addr, desc: String::from_str(desc) });
                proof {
                    let after = entry_views(entries@);
                    assert(after =~= before.push(Breakpoint { addr, desc: desc@ }));
                    assert forall|i: int, j: int| 0 <= i < j < after.len() implies (
                    #[trigger] after[i]).addr != (#[trigger] after[j]).addr by {
                        if j < before.len() {
                            assert(before[i].addr != before[j].addr);
                        } else {
                            assert(before[i].addr != addr);
                        }
                    }
                }
                self.entries = entries;
                s
            },
        }
    }

    /// The lines of the list. `units` is how many breakpoints the hardware has.
    pub fn list(&self, units: u32) -> (r: Vec<String>)
        ensures
            self@.len() == 0 ==> r@.len() == 1 && r@[0]@ == "（没有断点）"@,
            self@.len() > 0 ==> crate::text::views(r@) == list_lines(self@, units as nat),
    {
        let mut r: Vec<String> = Vec::new();
        if self.entries.len() == 0 {
            r.push(String::from_str("（没有断点）"));
            return r;
        }
        let mut head: String = String::from_str("断点列表（");
        head.append(dec_text(self.entries.len() as u64).as_str());
        head.append(" / ");
        head.append(dec_text(units as u64).as_str());
        head.append(" 个硬件断点）：");
        let ghost lines = list_lines(self@, units as nat);
        r.push(head);
        let mut i: usize = 0;
        while i < self.entries.len()
            invariant
                i <= self.entries@.len(),
                self@ == entry_views(self.entries@),
                lines == list_lines(self@, units as nat),
                r@.len() == i + 1,
                forall|j: int| 0 <= j <= i ==> (#[trigger] r@[j])@ == lines[j],
            decreases self.entries@.len() - i,
        {
            let b: &Breakpoint<String> = &self.entries[i];
            let mut s: String = String::from_str("  ");
            s.append(crate::number::dec_wide_text(i as u128 + 1).as_str());
            s.append("：");
            s.append(b.desc.as_str());
            push_at(&mut s, b.addr);
            assert(self@[i as int] == b@);
            assert(lines[i + 1] == list_line((i + 1) as nat, self@[i as int]));
            r.push(s);
            i += 1;
        }
        assert(crate::text::views(r@) =~= lines);
        r
    }

    /// Reads the argument of `bc`.
    pub fn clear_target(&self, which: &str) -> (r: Result<ClearTarget, String>)
        ensures
            match r {
                Ok(t) => clear_target(which@, self@.len()) == Some(t),
                Err(t) => clear_target(which@, self@.len()) is None && t@ == bad_number_text(
                    which@,
                    self@.len(),
                ),
            },
    {
        if same_text(which, "all") {
            return Ok(ClearTarget::All);
        }
        let n: usize = self.entries.len();
        let digits: Vec<char> = chars_of(which);
        match read_usize(digits.as_slice()) {
            Ok(k) => {
                if 1 <= k && k <= n {
                    return Ok(ClearTarget::One(k));
                }
            },
            Err(_) => {},
        }
        let mut s: String = String::from_str("无效的断点编号 ");
        s.append(which);
        s.append("（当前共 ");
        s.append(dec_text(n as u64).as_str());
        s.append(" 个，用 bl 查看）");
        Err(s)
    }

    /// What to ask of the probe to clear a target.
    pub fn clear_actions(&self, target: ClearTarget) -> (r: Vec<ProbeAction>)
        ensures
            r@ == clear_actions(self@, target),
    {
        let mut r: Vec<ProbeAction> = Vec::new();
        match target {
            ClearTarget::All => {
                let mut i: usize = 0;
                while i < self.entries.len()
                    invariant
                        i <= self.entries@.len(),
                        self@ == entry_views(self.entries@),
                        r@.len() == i,
                        forall|j: int|
                            0 <= j < i ==> #[trigger] r@[j] == ProbeAction::ClearBreakpoint(
                                self@[j].addr,
                            ),
                    decreases self.entries@.len() - i,
                {
                    r.push(ProbeAction::ClearBreakpoint(self.entries[i].addr));
                    assert(self@[i as int].addr == self.entries@[i as int].addr);
                    i += 1;
                }
                assert(r@ =~= clear_actions(self@, target));
            },
            ClearTarget::One(k) => {
                if 1 <= k && k <= self.entries.len() {
                    assert(self@[k - 1].addr == self.entries@[k - 1].addr);
                    r.push(ProbeAction::ClearBreakpoint(self.entries[k - 1].addr));
                }
                assert(r@ =~= clear_actions(self@, target));
            },
        }
        r
    }

    /// Forgets what the probe has cleared, and says so.
    pub fn clear(&mut self, target: ClearTarget) -> (r: String)
        requires
            target matches ClearTarget::One(k) ==> 1 <= k <= old(self)@.len(),
        ensures
            final(self)@ == cleared(old(self)@, target),
            distinct(final(self)@),
            r@ == cleared_text(old(self)@, target),
    {
        proof {
            use_type_invariant(&*self);
        }
        let ghost before = self@;
        let mut entries: Vec<Breakpoint<String>> = Vec::new();
        std::mem::swap(&mut entries, &mut self.entries);
        match target {
            ClearTarget::All => {
                let mut s: String = String::from_str("已删除全部 ");
                s.append(dec_text(entries.len() as u64).as_str());
                s.append(" 个断点");
                assert(self@ =~= Seq::empty());
                s
            },
            ClearTarget::One(k) => {
                let mut s: String = String::from_str("已删除断点 ");
                s.append(dec_text(k as u64).as_str());
                s.append("（");
                s.append(entries[k - 1].desc.as_str());
                s.append("）");
                assert(before[k - 1] == entries@[k - 1]@);
                entries.remove(k - 1);
                proof {
                    let after = entry_views(entries@);
                    assert(after =~= before.remove(k - 1));
                    lemma_remove_distinct(before, k - 1);
                }
                self.entries = entries;
                s
            },
        }
    }

    /// What to ask of the probe to set all breakpoints again.
    pub fn set_actions(&self) -> (r: Vec<ProbeAction>)
        ensures
            r@ == set_actions(self@),
    {
        let mut r: Vec<ProbeAction> = Vec::new();
        let mut i: usize = 0;
        while i < self.entries.len()
            invariant
                i <= self.entries@.len(),
                self@ == entry_views(self.entries@),
                r@.len() == i,
                forall|j: int|
                    0 <= j < i ==> #[trigger] r@[j] == ProbeAction::SetBreakpoint(self@[j].addr),
            decreases self.entries@.len() - i,
        {
            r.push(ProbeAction::SetBreakpoint(self.entries[i].addr));
            assert(self@[i as int].addr == self.entries@[i as int].addr);
            i += 1;
        }
        assert(r@ =~= set_actions(self@));
        r
    }

    /// What the report of a stop at `pc` starts with: the breakpoint there, or
    /// that the core stopped elsewhere.
    pub fn stop_text(&self, pc: u64) -> (r: String)
        ensures
            r@ == stop_text(self@, pc),
    {
        match self.find(pc) {
            Some(i) => {
                let mut s: String = String::from_str("断点 ");
                s.append(crate::number::dec_wide_text(i as u128 + 1).as_str());
                s.append("（");
                s.append(self.entries[i].desc.as_str());
                s.append("）命中：");
                s
            },
            None => String::from_str("内核已暂停："),
        }
    }
}

/// What the report of a stop at `pc` starts with.
pub open spec fn stop_text(list: Seq<Breakpoint<Seq<char>>>, pc: u64) -> Seq<char> {
    match first_at(list, pc, 0) {
        Some(i) => "断点 "@ + dec((i + 1) as nat) + "（"@ + list[i].desc + "）命中："@,
        None => "内核已暂停："@,
    }
}

/// Taking a breakpoint out keeps the others apart.
proof fn lemma_remove_distinct(list: Seq<Breakpoint<Seq<char>>>, k: int)
    requires
        distinct(list),
        0 <= k < list.len(),
    ensures
        distinct(list.remove(k)),
{
    let after = list.remove(k);
    assert forall|i: int, j: int| 0 <= i < j < after.len() implies (#[trigger] after[i]).addr != (
    #[trigger] after[j]).addr by {
        let p = if i < k {
            i
        } else {
            i + 1
        };
        let q = if j < k {
            j
        } else {
            j + 1
        };
        assert(after[i] == list[p]);
        assert(after[j] == list[q]);
    }
}

// ---------------------------------------------------------------------------
// Running to an address
// ---------------------------------------------------------------------------

/// What is asked of the probe to run to an address from a halt, before the wait
/// for the next halt.
pub open spec fn run_to_start(addr: u64) -> Seq<ProbeAction> {
    seq![ProbeAction::SetBreakpoint(addr), ProbeAction::Run]
}

/// What is asked of the probe to be halted after a wait. `hit` is whether the
/// core halted in time.
pub open spec fn halt_late(hit: bool) -> Seq<ProbeAction> {
    if hit {
        Seq::empty()
    } else {
        seq![ProbeAction::Halt]
    }
}

/// What is asked of the probe after that wait. A breakpoint that the session has
/// at the address stays.
pub open spec fn run_to_end(
    list: Seq<Breakpoint<Seq<char>>>,
    addr: u64,
    hit: bool,
) -> Seq<ProbeAction> {
    if addresses(list).contains(addr) {
        halt_late(hit)
    } else {
        halt_late(hit).push(ProbeAction::ClearBreakpoint(addr))
    }
}

/// What is asked of the probe for a reset that stops at an address, before the
/// wait for the halt there.
pub open spec fn reset_start(addr: u64) -> Seq<ProbeAction> {
    seq![ProbeAction::ResetAndHalt] + run_to_start(addr)
}

/// What is asked of the probe after that wait: the reset has emptied the
/// breakpoint unit, so the breakpoints of the session are set again.
pub open spec fn reset_end(
    list: Seq<Breakpoint<Seq<char>>>,
    addr: u64,
    hit: bool,
) -> Seq<ProbeAction> {
    halt_late(hit).push(ProbeAction::ClearBreakpoint(addr)) + set_actions(list)
}

/// What to ask of the probe before the wait, to run to an address.
pub fn run_to_begin(addr: u64) -> (r: Vec<ProbeAction>)
    ensures
        r@ == run_to_start(addr),
{
    let mut r: Vec<ProbeAction> = Vec::new();
    r.push(ProbeAction::SetBreakpoint(addr));
    r.push(ProbeAction::Run);
    assert(r@ =~= run_to_start(addr));
    r
}

fn halted(hit: bool) -> (r: Vec<ProbeAction>)
    ensures
        r@ == halt_late(hit),
{
    let mut r: Vec<ProbeAction> = Vec::new();
    if !hit {
        r.push(ProbeAction::Halt);
    }
    assert(r@ =~= halt_late(hit));
    r
}

/// What to ask of the probe before the wait, to reset and run to an address.
pub fn reset_begin(addr: u64) -> (r: Vec<ProbeAction>)
    ensures
        r@ == reset_start(addr),
{
    let mut r: Vec<ProbeAction> = Vec::new();
    r.push(ProbeAction::ResetAndHalt);
    let mut rest: Vec<ProbeAction> = run_to_begin(addr);
    r.append(&mut rest);
    assert(r@ =~= reset_start(addr));
    r
}

/// What an action is part of.
#[derive(Debug, Clone, Copy, PartialEq, Eq, Structural)]
pub enum Purpose {
    /// A command on the breakpoints of the session.
    Session,
    /// Running to where a function returns.
    Finish,
    /// Running to a function after a reset.
    Reset,
    /// Setting the breakpoints of the session again.
    Restore,
}

/// What is said of an action that failed.
pub open spec fn action_failure(action: ProbeAction, purpose: Purpose) -> Seq<char> {
    match action {
        ProbeAction::SetBreakpoint(a) => (match purpose {
            Purpose::Finish => "设置临时断点"@,
            Purpose::Restore => "重新应用断点"@,
            _ => "设置断点"@,
        }) + at_text(a) + " 失败"@,
        ProbeAction::ClearBreakpoint(a) => (match purpose {
            Purpose::Finish => "清除临时断点"@,
            _ => "清除断点"@,
        }) + at_text(a) + " 失败"@,
        ProbeAction::Run => "继续运行失败"@,
        ProbeAction::Halt => match purpose {
            Purpose::Session => "暂停失败（超时？接线/供电？）"@,
            _ => "暂停失败"@,
        },
        ProbeAction::ResetAndHalt => "复位并暂停失败（接线/供电？）"@,
    }
}

/// Writes what is said of an action that failed.
pub fn action_failure_text(action: ProbeAction, purpose: Purpose) -> (r: String)
    ensures
        r@ == action_failure(action, purpose),
{
    match action {
        ProbeAction::SetBreakpoint(a) => {
            let mut s: String = String::from_str(
                match purpose {
                    Purpose::Finish => "设置临时断点",
                    Purpose::Restore => "重新应用断点",
                    _ => "设置断点",
                },
            );
            push_at(&mut s, a);
            s.append(" 失败");
            s
        },
        ProbeAction::ClearBreakpoint(a) => {
            let mut s: String = String::from_str(
                match purpose {
                    Purpose::Finish => "清除临时断点",
                    _ => "清除断点",
                },
            );
            push_at(&mut s, a);
            s.append(" 失败");
            s
        },
        ProbeAction::Run => String::from_str("继续运行失败"),
        ProbeAction::Halt => match purpose {
            Purpose::Session => String::from_str("暂停失败（超时？接线/供电？）"),
            _ => String::from_str("暂停失败"),
        },
        ProbeAction::ResetAndHalt => String::from_str("复位并暂停失败（接线/供电？）"),
    }
}

/// What is said of breakpoints that were set again.
pub open spec fn restored_text(n: nat) -> Option<Seq<char>> {
    if n == 0 {
        None
    } else {
        Some(
            "已自动恢复 "@ + dec(n)
                + " 个断点（芯片复位会清空硬件断点，tscope 已重新写入，无需重新 bp）"@,
        )
    }
}

impl Breakpoints {
    /// What to say when the breakpoints were set again: nothing where there are
    /// none.
    pub fn restored(&self) -> (r: Option<String>)
        ensures
            match r {
                Some(t) => restored_text(self@.len()) == Some(t@),
                None => restored_text(self@.len()) is None,
            },
    {
        if self.entries.len() == 0 {
            return None;
        }
        let mut s: String = String::from_str("已自动恢复 ");
        s.append(dec_text(self.entries.len() as u64).as_str());
        s.append(
            " 个断点（芯片复位会清空硬件断点，tscope 已重新写入，无需重新 bp）",
        );
        Some(s)
    }

    /// What to ask of the probe after the wait for an address.
    pub fn run_to_finish(&self, addr: u64, hit: bool) -> (r: Vec<ProbeAction>)
        ensures
            r@ == run_to_end(self@, addr, hit),
    {
        let mut r: Vec<ProbeAction> = halted(hit);
        proof {
            lemma_first_at(self@, addr, 0);
            if first_at(self@, addr, 0) is None && addresses(self@).contains(addr) {
                let i = choose|i: int| 0 <= i < self@.len() && (#[trigger] self@[i]).addr == addr;
                assert(self@[i].addr != addr);
            }
        }
        if self.find(addr).is_none() {
            r.push(ProbeAction::ClearBreakpoint(addr));
        }
        r
    }

    /// What to ask of the probe after the wait that follows a reset.
    pub fn reset_finish(&self, addr: u64, hit: bool) -> (r: Vec<ProbeAction>)
        ensures
            r@ == reset_end(self@, addr, hit),
    {
        let mut r: Vec<ProbeAction> = halted(hit);
        r.push(ProbeAction::ClearBreakpoint(addr));
        let mut rest: Vec<ProbeAction> = self.set_actions();
        r.append(&mut rest);
        r
    }
}

// ---------------------------------------------------------------------------
// Laws
// ---------------------------------------------------------------------------

/// Actions one after the other.
proof fn lemma_armed_append(armed: Set<u64>, a: Seq<ProbeAction>, b: Seq<ProbeAction>)
    ensures
        armed_after_all(armed, a + b) == armed_after_all(armed_after_all(armed, a), b),
    decreases b.len(),
{
    if b.len() == 0 {
        assert(a + b =~= a);
    } else {
        assert((a + b).drop_last() =~= a + b.drop_last());
        lemma_armed_append(armed, a, b.drop_last());
    }
}

/// Setting all breakpoints adds their addresses.
proof fn lemma_set_all(armed: Set<u64>, list: Seq<Breakpoint<Seq<char>>>)
    ensures
        armed_after_all(armed, set_actions(list)) =~= armed.union(addresses(list)),
    decreases list.len(),
{
    if list.len() > 0 {
        let front = list.drop_last();
        assert(set_actions(list).drop_last() =~= set_actions(front));
        lemma_set_all(armed, front);
        assert forall|a: u64| #[trigger]
            addresses(list).contains(a) == (addresses(front).contains(a) || a
                == list.last().addr) by {
            if addresses(front).contains(a) {
                let i = choose|i: int| 0 <= i < front.len() && (#[trigger] front[i]).addr == a;
                assert(list[i].addr == a);
            }
            if a == list.last().addr {
                assert(list[list.len() - 1].addr == a);
            }
            if addresses(list).contains(a) && a != list.last().addr {
                let i = choose|i: int| 0 <= i < list.len() && (#[trigger] list[i]).addr == a;
                assert(front[i].addr == a);
            }
        }
    }
}

/// Clearing all breakpoints takes their addresses away.
proof fn lemma_clear_all(armed: Set<u64>, list: Seq<Breakpoint<Seq<char>>>)
    ensures
        armed_after_all(armed, clear_actions(list, ClearTarget::All)) =~= armed.difference(
            addresses(list),
        ),
    decreases list.len(),
{
    if list.len() > 0 {
        let front = list.drop_last();
        assert(clear_actions(list, ClearTarget::All).drop_last() =~= clear_actions(
            front,
            ClearTarget::All,
        ));
        lemma_clear_all(armed, front);
        assert forall|a: u64| #[trigger]
            addresses(list).contains(a) == (addresses(front).contains(a) || a
                == list.last().addr) by {
            if addresses(front).contains(a) {
                let i = choose|i: int| 0 <= i < front.len() && (#[trigger] front[i]).addr == a;
                assert(list[i].addr == a);
            }
            if a == list.last().addr {
                assert(list[list.len() - 1].addr == a);
            }
            if addresses(list).contains(a) && a != list.last().addr {
                let i = choose|i: int| 0 <= i < list.len() && (#[trigger] list[i]).addr == a;
                assert(front[i].addr == a);
            }
        }
    }
}

/// Setting a new breakpoint keeps the hardware and the session in step: the
/// hardware stops at the addresses of the session's breakpoints and nowhere
/// else.
pub proof fn law_adding_keeps_step(list: Seq<Breakpoint<Seq<char>>>, b: Breakpoint<Seq<char>>)
    ensures
        armed_after(addresses(list), ProbeAction::SetBreakpoint(b.addr)) == addresses(
            list.push(b),
        ),
{
    let all = list.push(b);
    assert forall|a: u64| #[trigger]
        addresses(all).contains(a) == addresses(list).insert(b.addr).contains(a) by {
        if addresses(list).contains(a) {
            let i = choose|i: int| 0 <= i < list.len() && (#[trigger] list[i]).addr == a;
            assert(all[i].addr == a);
        }
        if a == b.addr {
            assert(all[list.len() as int].addr == a);
        }
        if addresses(all).contains(a) && a != b.addr {
            let i = choose|i: int| 0 <= i < all.len() && (#[trigger] all[i]).addr == a;
            assert(list[i].addr == a);
        }
    }
    assert(addresses(all) =~= addresses(list).insert(b.addr));
}

/// Clearing breakpoints keeps the hardware and the session in step.
pub proof fn law_clearing_keeps_step(list: Seq<Breakpoint<Seq<char>>>, target: ClearTarget)
    requires
        distinct(list),
    ensures
        armed_after_all(addresses(list), clear_actions(list, target)) == addresses(
            cleared(list, target),
        ),
{
    match target {
        ClearTarget::All => {
            lemma_clear_all(addresses(list), list);
            let none = Seq::<Breakpoint<Seq<char>>>::empty();
            assert(addresses(list).difference(addresses(list)) =~= addresses(none));
        },
        ClearTarget::One(k) => {
            if 1 <= k <= list.len() {
                let gone = list[k - 1];
                let left = list.remove(k - 1);
                let actions = clear_actions(list, target);
                assert(actions.drop_last() =~= Seq::empty());
                assert(actions.last() == ProbeAction::ClearBreakpoint(gone.addr));
                assert(armed_after_all(addresses(list), actions.drop_last()) == addresses(list));
                assert forall|a: u64| #[trigger]
                    addresses(left).contains(a) == addresses(list).remove(gone.addr).contains(
                    a,
                ) by {
                    if addresses(left).contains(a) {
                        let i = choose|i: int|
                            0 <= i < left.len() && (#[trigger] left[i]).addr == a;
                        let p = if i < k - 1 {
                            i
                        } else {
                            i + 1
                        };
                        assert(left[i] == list[p]);
                        assert(list[p].addr == a);
                        assert(list[k - 1].addr != list[p].addr);
                    }
                    if addresses(list).contains(a) && a != gone.addr {
                        let i = choose|i: int|
                            0 <= i < list.len() && (#[trigger] list[i]).addr == a;
                        let p = if i < k - 1 {
                            i
                        } else {
                            i - 1
                        };
                        assert(left[p] == list[i]);
                        assert(left[p].addr == a);
                    }
                }
                assert(addresses(left) =~= addresses(list).remove(gone.addr));
            } else {
                assert(clear_actions(list, target) =~= Seq::empty());
            }
        },
    }
}

/// A reset loses no breakpoint of the session: whatever the hardware held
/// before, afterwards it stops at the session's breakpoints and nowhere else,
/// whether or not the function was reached.
pub proof fn law_breakpoints_survive_reset(
    armed: Set<u64>,
    list: Seq<Breakpoint<Seq<char>>>,
    addr: u64,
    hit: bool,
)
    ensures
        armed_after_all(armed, reset_start(addr) + reset_end(list, addr, hit)) == addresses(list),
{
    reveal_with_fuel(armed_after_all, 4);
    let start = reset_start(addr);
    lemma_armed_append(armed, start, reset_end(list, addr, hit));
    assert(start.drop_last() =~= seq![
        ProbeAction::ResetAndHalt,
        ProbeAction::SetBreakpoint(addr),
    ]);
    assert(start.drop_last().drop_last() =~= seq![ProbeAction::ResetAndHalt]);
    assert(start.drop_last().drop_last().drop_last() =~= Seq::empty());
    let one = armed_after_all(armed, start);
    assert(one =~= Set::<u64>::empty().insert(addr));
    let end = halt_late(hit).push(ProbeAction::ClearBreakpoint(addr));
    lemma_armed_append(one, end, set_actions(list));
    if hit {
        assert(end.drop_last() =~= Seq::empty());
    } else {
        assert(end.drop_last() =~= seq![ProbeAction::Halt]);
        assert(end.drop_last().drop_last() =~= Seq::empty());
    }
    let two = armed_after_all(one, end);
    assert(two =~= Set::<u64>::empty());
    lemma_set_all(two, list);
    assert(two.union(addresses(list)) =~= addresses(list));
}

/// Running to where a function returns leaves the breakpoints of the session as
/// they were, also one at that very address.
pub proof fn law_breakpoints_survive_finish(
    list: Seq<Breakpoint<Seq<char>>>,
    addr: u64,
    hit: bool,
)
    ensures
        armed_after_all(addresses(list), run_to_start(addr) + run_to_end(list, addr, hit))
            == addresses(list),
{
    reveal_with_fuel(armed_after_all, 3);
    let start = run_to_start(addr);
    let end = run_to_end(list, addr, hit);
    lemma_armed_append(addresses(list), start, end);
    assert(start.drop_last() =~= seq![ProbeAction::SetBreakpoint(addr)]);
    assert(start.drop_last().drop_last() =~= Seq::empty());
    let one = armed_after_all(addresses(list), start);
    assert(one =~= addresses(list).insert(addr));
    let late = halt_late(hit);
    assert(late.len() > 0 ==> late.drop_last() =~= Seq::empty());
    assert(armed_after_all(one, late) == one);
    if addresses(list).contains(addr) {
        assert(one =~= addresses(list));
    } else {
        assert(end.drop_last() =~= late);
        assert(one.remove(addr) =~= addresses(list));
    }
}

/// A breakpoint goes by one number: the one that it is told to have when it is
/// set, that the list shows, that a stop at it names and that clears it. Clearing
/// it takes that one out and leaves the others in order.
pub proof fn law_numbers_of_breakpoints_agree(
    list: Seq<Breakpoint<Seq<char>>>,
    units: nat,
    k: int,
    j: int,
)
    requires
        distinct(list),
        1 <= k <= list.len() <= usize::MAX,
    ensures
        list_lines(list, units)[k] == "  "@ + dec(k as nat) + "："@ + list[k - 1].desc + " @ 0x"@
            + hex(list[k - 1].addr as nat, 8),
        list_lines(list, units).len() == list.len() + 1,
        stop_text(list, list[k - 1].addr) == "断点 "@ + dec(k as nat) + "（"@ + list[k - 1].desc
            + "）命中："@,
        clear_target(dec(k as nat), list.len()) == Some(ClearTarget::One(k as usize)),
        cleared(list, ClearTarget::One(k as usize)).len() == list.len() - 1,
        0 <= j < list.len() - 1 ==> cleared(list, ClearTarget::One(k as usize))[j] == list[if j
            < k - 1 {
            j
        } else {
            j + 1
        }],
        clear_target("all"@, list.len()) == Some(ClearTarget::All),
        cleared(list, ClearTarget::All).len() == 0,
{
    reveal_strlit("all");
    law_numeral_read_back(k as nat, 10, usize::MAX as nat);
    lemma_dec_digits(k as nat);
    lemma_digits_are_plain(dec(k as nat));
    if dec(k as nat) == "all"@ {
        let d = choose|d: nat| d < 16 && #[trigger] dec(k as nat)[1] == digit_char(d);
        assert("all"@[1] == 'l');
        assert(digit_char(d) != 'l');
    }
    lemma_first_at(list, list[k - 1].addr, 0);
    let i = first_at(list, list[k - 1].addr, 0)->0;
    if i != k - 1 {
        if i < k - 1 {
            assert(list[i].addr != list[k - 1].addr);
        } else {
            assert(list[k - 1].addr != list[i].addr);
        }
    }
    let line = list_line(k as nat, list[k - 1]);
    assert(line =~= "  "@ + dec(k as nat) + "："@ + list[k - 1].desc + " @ 0x"@ + hex(
        list[k - 1].addr as nat,
        8,
    ));
}

/// A breakpoint is set where there is none at the address and the hardware has one
/// left; else nothing is done to the hardware.
pub proof fn law_breakpoints_are_set_where_there_is_room(
    list: Seq<Breakpoint<Seq<char>>>,
    addr: u64,
    units: u32,
)
    ensures
        addresses(list).contains(addr) ==> add_step(list, addr, None) is Present && add_step(
            list,
            addr,
            Some(units),
        ) is Present,
        !addresses(list).contains(addr) && list.len() >= units ==> add_step(
            list,
            addr,
            Some(units),
        ) is Full,
        !addresses(list).contains(addr) && list.len() < units ==> add_step(list, addr, Some(units))
            is Arm,
        !addresses(list).contains(addr) ==> add_step(list, addr, None) is AskUnits,
{
    lemma_first_at(list, addr, 0);
    if addresses(list).contains(addr) {
        let i = choose|i: int| 0 <= i < list.len() && (#[trigger] list[i]).addr == addr;
        if first_at(list, addr, 0) is None {
            assert(list[i].addr != addr);
        }
    } else if first_at(list, addr, 0) is Some {
        let i = first_at(list, addr, 0)->0;
        assert(list[i].addr == addr);
    }
}

/// Where the core is let go to an address, the hardware stops there: the
/// temporary breakpoint is set before the core runs, and the core stands when the
/// wait was in vain.
pub proof fn law_temporary_breakpoints_stop_the_core(
    list: Seq<Breakpoint<Seq<char>>>,
    armed: Set<u64>,
    addr: u64,
)
    ensures
        run_to_start(addr).len() == 2,
        run_to_start(addr)[1] == ProbeAction::Run,
        armed_after_all(armed, run_to_start(addr).take(1)).contains(addr),
        reset_start(addr)[0] == ProbeAction::ResetAndHalt,
        reset_start(addr).last() == ProbeAction::Run,
        armed_after_all(armed, reset_start(addr).take(2)).contains(addr),
        run_to_end(list, addr, false).contains(ProbeAction::Halt),
        reset_end(list, addr, false).contains(ProbeAction::Halt),
{
    reveal_with_fuel(armed_after_all, 3);
    let one = run_to_start(addr).take(1);
    assert(one.drop_last() =~= Seq::empty());
    assert(one.last() == ProbeAction::SetBreakpoint(addr));
    let two = reset_start(addr).take(2);
    assert(two.drop_last() =~= seq![ProbeAction::ResetAndHalt]);
    assert(two.last() == ProbeAction::SetBreakpoint(addr));
    assert(run_to_end(list, addr, false)[0] == ProbeAction::Halt);
    assert(reset_end(list, addr, false)[0] == ProbeAction::Halt);
}

/// What is said of a breakpoint tells its number and its address, and how many
/// there are where a number is wrong or all are gone. Breakpoints that were set
/// again are reported with their number, and not at all where there are none.
pub proof fn law_reports_of_breakpoints(
    list: Seq<Breakpoint<Seq<char>>>,
    k: usize,
    which: Seq<char>,
    b: Breakpoint<Seq<char>>,
)
    requires
        1 <= k <= list.len(),
    ensures
        mentions(added_text(k as nat, b.desc, b.addr), dec(k as nat)),
        mentions(added_text(k as nat, b.desc, b.addr), b.desc),
        mentions(added_text(k as nat, b.desc, b.addr), seq!['0', 'x'] + hex(b.addr as nat, 8)),
        mentions(bad_number_text(which, list.len()), which),
        mentions(bad_number_text(which, list.len()), dec(list.len())),
        mentions(cleared_text(list, ClearTarget::All), dec(list.len())),
        mentions(cleared_text(list, ClearTarget::One(k)), dec(k as nat)),
        mentions(cleared_text(list, ClearTarget::One(k)), list[k - 1].desc),
        restored_text(0) is None,
        restored_text(list.len()) matches Some(t) && mentions(t, dec(list.len())),
        mentions(present_text(b.addr, b.desc), b.desc),
        mentions(full_text(k as nat), dec(k as nat)),
{
    reveal_strlit(" @ 0x");
    reveal_strlit(" @ ");
    let none = Seq::<char>::empty();
    let n = dec(k as nat);
    let all = dec(list.len());
    let h = seq!['0', 'x'] + hex(b.addr as nat, 8);
    let added = added_text(k as nat, b.desc, b.addr);
    assert(added =~= "断点 "@ + n + ("："@ + b.desc + at_text(b.addr)));
    assert(added =~= ("断点 "@ + n + "："@) + b.desc + at_text(b.addr));
    assert(at_text(b.addr) =~= " @ "@ + h);
    assert(added =~= ("断点 "@ + n + "："@ + b.desc + " @ "@) + h + none);
    let bad = bad_number_text(which, list.len());
    assert(bad =~= "无效的断点编号 "@ + which + ("（当前共 "@ + all
        + " 个，用 bl 查看）"@));
    assert(bad =~= ("无效的断点编号 "@ + which + "（当前共 "@) + all
        + " 个，用 bl 查看）"@);
    assert(cleared_text(list, ClearTarget::All) =~= "已删除全部 "@ + all + " 个断点"@);
    let gone = cleared_text(list, ClearTarget::One(k));
    assert(gone =~= "已删除断点 "@ + n + ("（"@ + list[k - 1].desc + "）"@));
    assert(gone =~= ("已删除断点 "@ + n + "（"@) + list[k - 1].desc + "）"@);
    let back = restored_text(list.len())->0;
    assert(back =~= "已自动恢复 "@ + all
        + " 个断点（芯片复位会清空硬件断点，tscope 已重新写入，无需重新 bp）"@);
    let there = present_text(b.addr, b.desc);
    assert(there =~= ("0x"@ + hex(b.addr as nat, 8) + " 已有断点（"@) + b.desc + "）"@);
    assert(full_text(k as nat) =~= "硬件断点已满（共 "@ + n
        + " 个）：先用 bc 删除再添加（本工具只支持硬件断点）"@);
}

}
