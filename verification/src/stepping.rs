//! Letting the core go and finding out where it stopped: running, stepping by
//! source lines, walking out of functions, and the reports of a stop.
use vstd::prelude::*;
use crate::backtrace::{exc_return, is_exc_return, without_thumb};
use crate::breakpoints::WAIT_SECONDS;
use crate::number::{dec, dec_text, hex, hex_text, pad_left, pad_left_text, pad_right, pad_right_text};
use crate::text::{mentions, same_text};

verus! {

/// What is known of the code at an address. `T` is the form in which text is
/// held.
#[derive(Debug)]
pub struct Spot<T> {
    /// The function.
    pub function: Option<T>,
    /// The source file and the line in it.
    pub place: Option<(T, u64)>,
}

impl View for Spot<String> {
    type V = Spot<Seq<char>>;

    open spec fn view(&self) -> Spot<Seq<char>> {
        Spot {
            function: match self.function {
                Some(f) => Some(f@),
                None => None,
            },
            place: match self.place {
                Some(p) => Some((p.0@, p.1)),
                None => None,
            },
        }
    }
}

fn same_function(a: &Spot<String>, b: &Spot<String>) -> (r: bool)
    ensures
        r == (a@.function == b@.function),
{
    match (&a.function, &b.function) {
        (Some(x), Some(y)) => same_text(x.as_str(), y.as_str()),
        (None, None) => true,
        _ => false,
    }
}

fn same_place(a: &Spot<String>, b: &Spot<String>) -> (r: bool)
    ensures
        r == (a@.place == b@.place),
{
    match (&a.place, &b.place) {
        (Some(x), Some(y)) => same_text(x.0.as_str(), y.0.as_str()) && x.1 == y.1,
        (None, None) => true,
        _ => false,
    }
}

// ---------------------------------------------------------------------------
// Stepping
// ---------------------------------------------------------------------------

/// How far single steps are repeated.
#[derive(Debug, Clone, Copy, PartialEq, Eq, Structural)]
pub enum Goal {
    /// To another source line, or out of the function.
    NextLine,
    /// Out of a function that handles an exception.
    LeaveHandler,
}

/// What follows a single step.
#[derive(Debug, Clone, Copy, PartialEq, Eq, Structural)]
pub enum Verdict {
    /// Another one.
    Again,
    /// The report: the goal is reached.
    Arrived,
    /// The report that the goal was not reached.
    GaveUp,
}

impl Goal {
    /// The largest number of steps.
    pub open spec fn limit(self) -> nat {
        match self {
            Goal::NextLine => 200,
            Goal::LeaveHandler => 64,
        }
    }

    /// Whether a core that started at `start` has reached the goal at `here`.
    /// Code without line information has no next line: one step is all there is.
    pub open spec fn reached(self, start: Spot<Seq<char>>, here: Spot<Seq<char>>) -> bool {
        match self {
            Goal::NextLine => {
                ||| start.place is None
                ||| here.function != start.function
                ||| here.place is Some && here.place != start.place
            },
            Goal::LeaveHandler => here.function != start.function,
        }
    }

    /// What follows step number `taken`, which led to `here`.
    pub open spec fn verdict(
        self,
        start: Spot<Seq<char>>,
        taken: nat,
        here: Spot<Seq<char>>,
    ) -> Verdict {
        if self.reached(start, here) {
            Verdict::Arrived
        } else if taken < self.limit() {
            Verdict::Again
        } else {
            Verdict::GaveUp
        }
    }

    /// What is said when the goal was not reached.
    pub open spec fn surrender(self) -> Seq<char> {
        match self {
            Goal::NextLine => "（单步 200 条指令仍未走到下一行，可能在长循环中）"@,
            Goal::LeaveHandler => "（单步 64 次仍未离开当前函数，可能仍在中断上下文中）"@,
        }
    }

    /// What to say when the goal was not reached.
    pub fn surrender_text(&self) -> (r: &'static str)
        ensures
            r@ == self.surrender(),
    {
        match self {
            Goal::NextLine => "（单步 200 条指令仍未走到下一行，可能在长循环中）",
            Goal::LeaveHandler => "（单步 64 次仍未离开当前函数，可能仍在中断上下文中）",
        }
    }
}

/// A walk in single steps.
#[derive(Debug)]
pub struct Walk {
    /// How far it goes.
    pub goal: Goal,
    /// Where it started.
    pub start: Spot<String>,
    /// The number of steps so far.
    pub taken: u32,
}

impl Walk {
    /// A walk before its first step.
    pub fn begin(goal: Goal, start: Spot<String>) -> (r: Walk)
        ensures
            r == (Walk { goal, start, taken: 0 }),
    {
        Walk { goal, start, taken: 0 }
    }

    /// Counts a step that led to `here`, and decides what follows.
    pub fn after_step(&mut self, here: &Spot<String>) -> (r: Verdict)
        requires
            old(self).taken < old(self).goal.limit(),
        ensures
            final(self).goal == old(self).goal,
            final(self).start == old(self).start,
            final(self).taken == old(self).taken + 1,
            r == old(self).goal.verdict(old(self).start@, old(self).taken as nat + 1, here@),
            r == Verdict::Again ==> final(self).taken < final(self).goal.limit(),
            old(self).goal == Goal::NextLine ==> (match (old(self).start@.place, here@.place) {
                (Some(from), Some(to)) => from.0 != to.0 || from.1 != to.1 ==> r
                    == Verdict::Arrived,
                (None, _) => r == Verdict::Arrived,
                (Some(_), None) => true,
            }),
            old(self).start@.function != here@.function ==> r == Verdict::Arrived,
            r == Verdict::Arrived ==> {
                ||| old(self).start@.function != here@.function
                ||| old(self).goal == Goal::NextLine && old(self).start@.place is None
                ||| old(self).goal == Goal::NextLine && here@.place is Some
                    && old(self).start@.place != here@.place
            },
            r == Verdict::GaveUp ==> old(self).taken + 1 == if old(self).goal == Goal::NextLine {
                200int
            } else {
                64
            },
            r == Verdict::Again ==> old(self).taken + 1 < if old(self).goal == Goal::NextLine {
                200int
            } else {
                64
            },
    {
        self.taken = self.taken + 1;
        let reached: bool = match self.goal {
            Goal::NextLine => self.start.place.is_none() || !same_function(here, &self.start) || (
            here.place.is_some() && !same_place(here, &self.start)),
            Goal::LeaveHandler => !same_function(here, &self.start),
        };
        let limit: u32 = match self.goal {
            Goal::NextLine => 200,
            Goal::LeaveHandler => 64,
        };
        if reached {
            Verdict::Arrived
        } else if self.taken < limit {
            Verdict::Again
        } else {
            Verdict::GaveUp
        }
    }
}

/// How a walk ends where the code that step number `k` leads to is `trace(k)`:
/// the number of steps and the last verdict.
pub open spec fn walk_end(
    goal: Goal,
    start: Spot<Seq<char>>,
    trace: spec_fn(nat) -> Spot<Seq<char>>,
    taken: nat,
) -> (nat, Verdict)
    decreases goal.limit() - taken,
{
    let n = taken + 1;
    let v = goal.verdict(start, n, trace(n));
    if v == Verdict::Again && taken < goal.limit() {
        walk_end(goal, start, trace, n)
    } else {
        (n, v)
    }
}

/// A walk makes at least one step and at most as many as its limit. It stops at
/// the first step that reaches the goal, and gives up only if none did.
pub proof fn law_walks_end(
    goal: Goal,
    start: Spot<Seq<char>>,
    trace: spec_fn(nat) -> Spot<Seq<char>>,
)
    ensures
        1 <= walk_end(goal, start, trace, 0).0 <= goal.limit(),
        walk_end(goal, start, trace, 0).1 != Verdict::Again,
        forall|k: nat|
            1 <= k < walk_end(goal, start, trace, 0).0 ==> !goal.reached(
                start,
                #[trigger] trace(k),
            ),
        goal.reached(start, trace(walk_end(goal, start, trace, 0).0)) == (walk_end(
            goal,
            start,
            trace,
            0,
        ).1 == Verdict::Arrived),
        walk_end(goal, start, trace, 0).1 == Verdict::GaveUp ==> walk_end(goal, start, trace, 0).0
            == goal.limit(),
{
    lemma_walk_end(goal, start, trace, 0);
}

proof fn lemma_walk_end(
    goal: Goal,
    start: Spot<Seq<char>>,
    trace: spec_fn(nat) -> Spot<Seq<char>>,
    taken: nat,
)
    requires
        taken < goal.limit(),
    ensures
        taken < walk_end(goal, start, trace, taken).0 <= goal.limit(),
        walk_end(goal, start, trace, taken).1 != Verdict::Again,
        forall|k: nat|
            taken < k < walk_end(goal, start, trace, taken).0 ==> !goal.reached(
                start,
                #[trigger] trace(k),
            ),
        goal.reached(start, trace(walk_end(goal, start, trace, taken).0)) == (walk_end(
            goal,
            start,
            trace,
            taken,
        ).1 == Verdict::Arrived),
        walk_end(goal, start, trace, taken).1 == Verdict::GaveUp ==> walk_end(
            goal,
            start,
            trace,
            taken,
        ).0 == goal.limit(),
    decreases goal.limit() - taken,
{
    let n = taken + 1;
    if goal.verdict(start, n, trace(n)) == Verdict::Again {
        lemma_walk_end(goal, start, trace, n);
    }
}

/// A step by source lines ends at the first instruction of another line, whether
/// its number is higher or lower, or of another file; it ends outside the function
/// too, and nowhere else before its limit. Code without lines is left after one
/// instruction.
pub proof fn law_steps_end_at_another_line(
    start: Spot<Seq<char>>,
    here: Spot<Seq<char>>,
    taken: nat,
)
    requires
        taken < 200,
    ensures
        ({
            let v = Goal::NextLine.verdict(start, taken, here);
            &&& here.function != start.function ==> v == Verdict::Arrived
            &&& start.place is None ==> v == Verdict::Arrived
            &&& match (start.place, here.place) {
                (Some(from), Some(to)) => {
                    &&& to.1 < from.1 ==> v == Verdict::Arrived
                    &&& to.1 > from.1 ==> v == Verdict::Arrived
                    &&& to.0 != from.0 ==> v == Verdict::Arrived
                    &&& here.function == start.function && to.0 == from.0 && to.1 == from.1 ==> v
                        == Verdict::Again
                },
                (Some(_), None) => here.function == start.function ==> v == Verdict::Again,
                _ => true,
            }
        }),
{
}

/// A walk out of a handler ends in another function, and nowhere else before its
/// limit.
pub proof fn law_handlers_are_left(start: Spot<Seq<char>>, here: Spot<Seq<char>>, taken: nat)
    requires
        taken < 64,
    ensures
        Goal::LeaveHandler.verdict(start, taken, here) == if here.function == start.function {
            Verdict::Again
        } else {
            Verdict::Arrived
        },
{
}

/// How a function is left.
#[derive(Debug, Clone, Copy, PartialEq, Eq, Structural)]
pub enum WayOut {
    /// In single steps, through the return from an exception.
    Walk,
    /// By running to the address that it returns to.
    RunTo(u64),
    /// Nothing is known of the frame: by a single step.
    StepOnce,
}

/// How a function with the given return address is left.
pub open spec fn way_out(return_address: Option<u64>) -> WayOut {
    match return_address {
        Some(ra) => if exc_return(ra) {
            WayOut::Walk
        } else {
            WayOut::RunTo(without_thumb(ra))
        },
        None => WayOut::StepOnce,
    }
}

/// Decides how a function is left.
pub fn run_out_of_function(return_address: Option<u64>) -> (r: WayOut)
    ensures
        r == way_out(return_address),
        match (return_address, r) {
            (None, WayOut::StepOnce) => true,
            (Some(ra), WayOut::Walk) => ra % 0x1_0000_0000 >= 0xFFFF_FF00,
            (Some(ra), WayOut::RunTo(a)) => ra % 0x1_0000_0000 < 0xFFFF_FF00 && a == ra - ra % 2,
            _ => false,
        },
{
    match return_address {
        Some(ra) => {
            if is_exc_return(ra) {
                WayOut::Walk
            } else {
                WayOut::RunTo(clear_thumb(ra))
            }
        },
        None => WayOut::StepOnce,
    }
}

/// The address of an instruction without the Thumb bit.
pub fn clear_thumb(address: u64) -> (r: u64)
    ensures
        r == without_thumb(address),
{
    address / 2 * 2
}

// ---------------------------------------------------------------------------
// Running
// ---------------------------------------------------------------------------

/// What the command to run does.
#[derive(Debug, Clone, Copy, PartialEq, Eq, Structural)]
pub enum RunStep {
    /// Nothing: the core runs.
    AlreadyRunning,
    /// It lets the core go.
    Release,
    /// It lets the core go and waits for a breakpoint.
    ReleaseAndWait,
}

/// Decides what the command to run does.
pub fn run_step(halted: bool, breakpoints: usize) -> (r: RunStep)
    ensures
        r == if !halted {
            RunStep::AlreadyRunning
        } else if breakpoints == 0 {
            RunStep::Release
        } else {
            RunStep::ReleaseAndWait
        },
{
    if !halted {
        RunStep::AlreadyRunning
    } else if breakpoints == 0 {
        RunStep::Release
    } else {
        RunStep::ReleaseAndWait
    }
}

impl RunStep {
    /// What is said of each step.
    pub open spec fn text(self) -> Seq<char> {
        match self {
            RunStep::AlreadyRunning => "内核正在运行（未暂停）。若需要从头启动固件，请用 rst（内部先复位并运行到 main）"@,
            RunStep::Release => "已继续运行"@,
            RunStep::ReleaseAndWait => "已继续运行，等待断点命中（"@ + dec(WAIT_SECONDS as nat)
                + " 秒超时）…"@,
        }
    }

    /// What to say of this step.
    pub fn message(&self) -> (r: String)
        ensures
            r@ == self.text(),
    {
        match self {
            RunStep::AlreadyRunning => String::from_str(
                "内核正在运行（未暂停）。若需要从头启动固件，请用 rst（内部先复位并运行到 main）",
            ),
            RunStep::Release => String::from_str("已继续运行"),
            RunStep::ReleaseAndWait => {
                let mut s: String = String::from_str("已继续运行，等待断点命中（");
                s.append(dec_text(WAIT_SECONDS).as_str());
                s.append(" 秒超时）…");
                s
            },
        }
    }
}

/// What is said where no breakpoint was reached in time.
pub open spec fn not_hit() -> Seq<char> {
    dec(WAIT_SECONDS as nat) + " 秒内未命中断点（内核仍在运行；halt 可暂停查看）"@
}

/// What to say where no breakpoint was reached in time.
pub fn not_hit_text() -> (r: String)
    ensures
        r@ == not_hit(),
{
    let mut s: String = dec_text(WAIT_SECONDS);
    s.append(" 秒内未命中断点（内核仍在运行；halt 可暂停查看）");
    s
}

/// What is said where a function was not left in time.
pub const NOT_RETURNED: &'static str = "（未运行到返回地址，已暂停在当前处）";

/// What is said when a running core was halted for a command.
pub const HALTED_FIRST: &'static str = "（内核在运行，已自动暂停）";

/// What happens next in the wait for a halt.
#[derive(Debug, Clone, Copy, PartialEq, Eq, Structural)]
pub enum WaitStep {
    /// The core has halted.
    Halted,
    /// The time is over.
    TimedOut,
    /// Another look, after so many milliseconds.
    Sleep(u64),
}

/// When the wait for a halt that starts now is given up, in nanoseconds.
pub fn wait_deadline(now: u64) -> (r: u128)
    ensures
        r == now + WAIT_SECONDS * 1_000_000_000,
{
    now as u128 + 10_000_000_000
}

/// Decides what happens next in the wait for a halt. A core that has halted
/// counts as halted in time, however late it is looked at.
pub fn wait_step(halted: bool, now: u64, deadline: u128) -> (r: WaitStep)
    ensures
        r == if halted {
            WaitStep::Halted
        } else if now >= deadline {
            WaitStep::TimedOut
        } else {
            WaitStep::Sleep(10)
        },
{
    if halted {
        WaitStep::Halted
    } else if now as u128 >= deadline {
        WaitStep::TimedOut
    } else {
        WaitStep::Sleep(10)
    }
}

/// What is said of a reset before it is done.
pub open spec fn reset_announcement(target: Seq<char>, addr: u64) -> Seq<char> {
    "复位并运行到 "@ + target + " 开头（0x"@ + hex(addr as nat, 8) + "）…"@
}

/// Writes what is said of a reset before it is done.
pub fn reset_announcement_text(target: &str, addr: u64) -> (r: String)
    ensures
        r@ == reset_announcement(target@, addr),
{
    let mut s: String = String::from_str("复位并运行到 ");
    s.append(target);
    s.append(" 开头（0x");
    s.append(hex_text(addr, 8).as_str());
    s.append("）…");
    s
}

/// What is said after the wait that follows a reset. Where the function was
/// reached, the place follows.
pub open spec fn reset_outcome(target: Seq<char>, hit: bool) -> Seq<char> {
    if hit {
        "已暂停在 "@ + target + " 开头："@
    } else {
        dec(WAIT_SECONDS as nat) + " 秒内未运行到 "@ + target
            + "（bootloader 未跳转？函数名不对？）"@
    }
}

/// Writes what is said after the wait that follows a reset.
pub fn reset_outcome_text(target: &str, hit: bool) -> (r: String)
    ensures
        r@ == reset_outcome(target@, hit),
{
    if hit {
        let mut s: String = String::from_str("已暂停在 ");
        s.append(target);
        s.append(" 开头：");
        s
    } else {
        let mut s: String = dec_text(WAIT_SECONDS);
        s.append(" 秒内未运行到 ");
        s.append(target);
        s.append("（bootloader 未跳转？函数名不对？）");
        s
    }
}

// ---------------------------------------------------------------------------
// Reports
// ---------------------------------------------------------------------------

/// `file:line`.
pub open spec fn place_text(p: (Seq<char>, u64)) -> Seq<char> {
    p.0 + ":"@ + dec(p.1 as nat)
}

fn push_place(s: &mut String, p: &(String, u64))
    ensures
        final(s)@ == old(s)@ + place_text((p.0@, p.1)),
{
    let ghost start = s@;
    s.append(p.0.as_str());
    s.append(":");
    s.append(dec_text(p.1).as_str());
    assert(s@ =~= start + place_text((p.0@, p.1)));
}

/// The report of where the core stands.
pub open spec fn pc_report(pc: u64, spot: Spot<Seq<char>>) -> Seq<char> {
    let head = "PC = 0x"@ + hex(pc as nat, 8);
    match (spot.place, spot.function) {
        (Some(p), Some(f)) => head + "（"@ + place_text(p) + "，"@ + f + "）"@,
        (Some(p), None) => head + "（"@ + place_text(p) + "）"@,
        (None, Some(f)) => head + "（"@ + f + "）"@,
        (None, None) => head,
    }
}

/// Writes where the core stands.
pub fn pc_report_text(pc: u64, spot: &Spot<String>) -> (r: String)
    ensures
        r@ == pc_report(pc, spot@),
{
    let mut s: String = String::from_str("PC = 0x");
    s.append(hex_text(pc, 8).as_str());
    match (&spot.place, &spot.function) {
        (Some(p), Some(f)) => {
            s.append("（");
            push_place(&mut s, p);
            s.append("，");
            s.append(f.as_str());
            s.append("）");
        },
        (Some(p), None) => {
            s.append("（");
            push_place(&mut s, p);
            s.append("）");
        },
        (None, Some(f)) => {
            s.append("（");
            s.append(f.as_str());
            s.append("）");
        },
        (None, None) => {},
    }
    s
}

/// The report of a halt.
pub open spec fn halt_report(pc: u64) -> Seq<char> {
    "已暂停，PC = 0x"@ + hex(pc as nat, 8)
}

/// Writes the report of a halt.
pub fn halt_report_text(pc: u64) -> (r: String)
    ensures
        r@ == halt_report(pc),
{
    let mut s: String = String::from_str("已暂停，PC = 0x");
    s.append(hex_text(pc, 8).as_str());
    s
}

/// The first line of a call stack.
pub open spec fn stack_heading(frames: nat) -> Seq<char> {
    "调用栈（共 "@ + dec(frames) + " 帧，#0 为最内层）："@
}

/// Writes the first line of a call stack.
pub fn stack_heading_text(frames: usize) -> (r: String)
    ensures
        r@ == stack_heading(frames as nat),
{
    let mut s: String = String::from_str("调用栈（共 ");
    s.append(dec_text(frames as u64).as_str());
    s.append(" 帧，#0 为最内层）：");
    s
}

/// The line of a call stack for one frame.
pub open spec fn frame_line(i: nat, pc: u64, spot: Spot<Seq<char>>) -> Seq<char> {
    let head = "#"@ + pad_right(dec(i), 3) + " "@;
    let tail = "  0x"@ + hex(pc as nat, 8);
    match (spot.function, spot.place) {
        (Some(f), Some(p)) => head + pad_right(f, 28) + " "@ + place_text(p) + tail,
        (Some(f), None) => head + pad_right(f, 28) + " （无行号信息）"@ + tail,
        (None, _) => head + "<未知函数>                   0x"@ + hex(pc as nat, 8),
    }
}

/// Writes the line of a call stack for one frame.
pub fn frame_line_text(i: usize, pc: u64, spot: &Spot<String>) -> (r: String)
    ensures
        r@ == frame_line(i as nat, pc, spot@),
{
    let mut s: String = String::from_str("#");
    s.append(pad_right_text(dec_text(i as u64).as_str(), 3).as_str());
    s.append(" ");
    match (&spot.function, &spot.place) {
        (Some(f), Some(p)) => {
            s.append(pad_right_text(f.as_str(), 28).as_str());
            s.append(" ");
            push_place(&mut s, p);
            s.append("  0x");
        },
        (Some(f), None) => {
            s.append(pad_right_text(f.as_str(), 28).as_str());
            s.append(" （无行号信息）");
            s.append("  0x");
        },
        (None, _) => {
            s.append("<未知函数>                   0x");
        },
    }
    s.append(hex_text(pc, 8).as_str());
    assert(s@ =~= frame_line(i as nat, pc, spot@));
    s
}

/// The line for a register. One that cannot be read says so.
pub open spec fn register_line(name: Seq<char>, value: Option<u32>) -> Seq<char> {
    pad_left(name, 12, ' ') + match value {
        Some(v) => " = 0x"@ + hex(v as nat, 8),
        None => " = （不可读）"@,
    }
}

/// Writes the line for a register.
pub fn register_line_text(name: &str, value: Option<u32>) -> (r: String)
    ensures
        r@ == register_line(name@, value),
{
    let mut s: String = pad_left_text(name, 12, ' ');
    match value {
        Some(v) => {
            s.append(" = 0x");
            s.append(hex_text(v as u64, 8).as_str());
        },
        None => {
            s.append(" = （不可读）");
        },
    }
    assert(s@ =~= register_line(name@, value));
    s
}

/// A register that the report of the position names by its use.
#[derive(Debug, Clone, Copy, PartialEq, Eq, Structural)]
pub enum RegisterRole {
    /// The stack pointer.
    StackPointer,
    /// The link register.
    LinkRegister,
}

impl RegisterRole {
    /// How the report calls it.
    pub open spec fn label(self) -> Seq<char> {
        match self {
            RegisterRole::StackPointer => "SP"@,
            RegisterRole::LinkRegister => "LR"@,
        }
    }

    /// How register tables call it, the preferred name first.
    pub open spec fn names(self) -> Seq<Seq<char>> {
        match self {
            RegisterRole::StackPointer => seq!["R13"@, "SP"@],
            RegisterRole::LinkRegister => seq!["R14"@, "LR"@, "RA"@],
        }
    }
}

/// The number of the first register from `i` on that has a name.
pub open spec fn named(table: Seq<Seq<char>>, name: Seq<char>, i: nat) -> Option<nat>
    decreases table.len() - i,
{
    if i >= table.len() {
        None
    } else if table[i as int] == name {
        Some(i)
    } else {
        named(table, name, i + 1)
    }
}

/// The register that has the first of the names that any register has.
pub open spec fn named_any(table: Seq<Seq<char>>, names: Seq<Seq<char>>) -> Option<nat>
    decreases names.len(),
{
    if names.len() == 0 {
        None
    } else {
        match named(table, names[0], 0) {
            Some(i) => Some(i),
            None => named_any(table, names.drop_first()),
        }
    }
}

fn find_named(table: &[String], name: &str) -> (r: Option<usize>)
    ensures
        match r {
            Some(i) => named(crate::text::views(table@), name@, 0) == Some(i as nat) && i
                < table@.len(),
            None => named(crate::text::views(table@), name@, 0) is None,
        },
{
    let ghost all = crate::text::views(table@);
    let mut i: usize = 0;
    while i < table.len()
        invariant
            i <= table@.len(),
            all == crate::text::views(table@),
            named(all, name@, 0) == named(all, name@, i as nat),
        decreases table@.len() - i,
    {
        assert(all[i as int] == table@[i as int]@);
        if same_text(table[i].as_str(), name) {
            return Some(i);
        }
        i += 1;
    }
    None
}

/// Finds the register for a role in a table of register names.
pub fn find_register(table: &[String], role: RegisterRole) -> (r: Option<usize>)
    ensures
        match r {
            Some(i) => named_any(crate::text::views(table@), role.names()) == Some(i as nat) && i
                < table@.len(),
            None => named_any(crate::text::views(table@), role.names()) is None,
        },
{
    proof {
        reveal_with_fuel(named_any, 4);
    }
    match role {
        RegisterRole::StackPointer => {
            assert(role.names().drop_first() =~= seq!["SP"@]);
            assert(seq!["SP"@].drop_first() =~= Seq::<Seq<char>>::empty());
            match find_named(table, "R13") {
                Some(i) => Some(i),
                None => find_named(table, "SP"),
            }
        },
        RegisterRole::LinkRegister => {
            assert(role.names().drop_first() =~= seq!["LR"@, "RA"@]);
            assert(seq!["LR"@, "RA"@].drop_first() =~= seq!["RA"@]);
            assert(seq!["RA"@].drop_first() =~= Seq::<Seq<char>>::empty());
            match find_named(table, "R14") {
                Some(i) => Some(i),
                None => match find_named(table, "LR") {
                    Some(i) => Some(i),
                    None => find_named(table, "RA"),
                },
            }
        },
    }
}

/// What became of reading a register by its role. `T` is the form in which text
/// is held.
#[derive(Debug)]
pub enum RoleReading<T> {
    /// Its value.
    Value(u32),
    /// Why it could not be read.
    Failed(T),
    /// The table has no such register.
    Absent,
}

impl View for RoleReading<String> {
    type V = RoleReading<Seq<char>>;

    open spec fn view(&self) -> RoleReading<Seq<char>> {
        match *self {
            RoleReading::Value(v) => RoleReading::Value(v),
            RoleReading::Failed(e) => RoleReading::Failed(e@),
            RoleReading::Absent => RoleReading::Absent,
        }
    }
}

/// The line of the position report for a register.
pub open spec fn role_line(role: RegisterRole, reading: RoleReading<Seq<char>>) -> Seq<char> {
    role.label() + match reading {
        RoleReading::Value(v) => " = 0x"@ + hex(v as nat, 8),
        RoleReading::Failed(e) => " = 读取失败："@ + e,
        RoleReading::Absent => " = （寄存器表里没有）"@,
    }
}

/// Writes the line of the position report for a register.
pub fn role_line_text(role: RegisterRole, reading: &RoleReading<String>) -> (r: String)
    ensures
        r@ == role_line(role, reading@),
{
    let mut s: String = match role {
        RegisterRole::StackPointer => String::from_str("SP"),
        RegisterRole::LinkRegister => String::from_str("LR"),
    };
    match reading {
        RoleReading::Value(v) => {
            s.append(" = 0x");
            s.append(hex_text(*v as u64, 8).as_str());
        },
        RoleReading::Failed(e) => {
            s.append(" = 读取失败：");
            s.append(e.as_str());
        },
        RoleReading::Absent => {
            s.append(" = （寄存器表里没有）");
        },
    }
    assert(s@ =~= role_line(role, reading@));
    s
}

/// The report of a stop tells the address, and as far as they are known the file,
/// the line and the function. So does the line of a frame in a call stack, which
/// starts with the number of the frame.
pub proof fn law_reports_tell_the_place(pc: u64, spot: Spot<Seq<char>>, i: nat)
    ensures
        mentions(pc_report(pc, spot), seq!['0', 'x'] + hex(pc as nat, 8)),
        mentions(frame_line(i, pc, spot), hex(pc as nat, 8)),
        frame_line(i, pc, spot)[0] == '#',
        frame_line(i, pc, spot).subrange(1, 1 + dec(i).len() as int) == dec(i),
        spot.place matches Some(p) ==> mentions(
            pc_report(pc, spot),
            p.0 + seq![':'] + dec(p.1 as nat),
        ),
        spot.function matches Some(f) ==> mentions(pc_report(pc, spot), f) && mentions(
            frame_line(i, pc, spot),
            f,
        ) && (spot.place matches Some(p) ==> mentions(
            frame_line(i, pc, spot),
            p.0 + seq![':'] + dec(p.1 as nat),
        )),
{
    reveal_strlit("PC = 0x");
    reveal_strlit("#");
    reveal_strlit(":");
    let none = Seq::<char>::empty();
    let h = hex(pc as nat, 8);
    let r = pc_report(pc, spot);
    let head = "PC = "@;
    reveal_strlit("PC = ");
    let tail = r.skip("PC = 0x"@.len() + h.len() as int);
    assert(r =~= head + (seq!['0', 'x'] + h) + tail);
    let l = frame_line(i, pc, spot);
    assert(l =~= l.take(l.len() - h.len()) + h + none);
    assert(l.subrange(1, 1 + dec(i).len() as int) =~= dec(i));
    if let Some(p) = spot.place {
        let place = p.0 + seq![':'] + dec(p.1 as nat);
        assert(place_text(p) =~= place);
        let start = "PC = 0x"@ + h + "（"@;
        assert(r =~= start + place + r.skip((start.len() + place.len()) as int));
        if spot.function is Some {
            let f = spot.function->0;
            let front = "#"@ + pad_right(dec(i), 3) + " "@ + pad_right(f, 28) + " "@;
            assert(l =~= front + place + l.skip((front.len() + place.len()) as int));
        }
    }
    if let Some(f) = spot.function {
        let front = "#"@ + pad_right(dec(i), 3) + " "@;
        assert(l =~= front + f + l.skip((front.len() + f.len()) as int));
        let start = match spot.place {
            Some(p) => "PC = 0x"@ + h + "（"@ + place_text(p) + "，"@,
            None => "PC = 0x"@ + h + "（"@,
        };
        assert(r =~= start + f + r.skip((start.len() + f.len()) as int));
    }
}

/// A register is found by the first of its names that the table has, at the first
/// place where it stands.
pub proof fn law_registers_are_found_by_name(
    table: Seq<Seq<char>>,
    names: Seq<Seq<char>>,
    j: int,
    i: int,
)
    requires
        0 <= j < names.len(),
        0 <= i < table.len(),
        table[i] == names[j],
        forall|k: int| 0 <= k < i ==> #[trigger] table[k] != names[j],
        forall|n: int| 0 <= n < j ==> !table.contains(#[trigger] names[n]),
    ensures
        named_any(table, names) == Some(i as nat),
        RegisterRole::StackPointer.names() == seq!["R13"@, "SP"@],
        RegisterRole::LinkRegister.names() == seq!["R14"@, "LR"@, "RA"@],
    decreases j,
{
    if j == 0 {
        lemma_named(table, names[0], 0, i as nat);
    } else {
        assert(!table.contains(names[0]));
        lemma_absent_name(table, names[0], 0);
        let rest = names.drop_first();
        assert(rest[j - 1] == names[j]);
        assert forall|n: int| 0 <= n < j - 1 implies !table.contains(#[trigger] rest[n]) by {
            assert(rest[n] == names[n + 1]);
        }
        law_registers_are_found_by_name(table, rest, j - 1, i);
    }
}

proof fn lemma_named(table: Seq<Seq<char>>, name: Seq<char>, from: nat, i: nat)
    requires
        from <= i < table.len(),
        table[i as int] == name,
        forall|k: int| 0 <= k < i ==> #[trigger] table[k] != name,
    ensures
        named(table, name, from) == Some(i),
    decreases i - from,
{
    if from < i {
        assert(table[from as int] != name);
        lemma_named(table, name, from + 1, i);
    }
}

proof fn lemma_absent_name(table: Seq<Seq<char>>, name: Seq<char>, from: nat)
    requires
        !table.contains(name),
    ensures
        named(table, name, from) is None,
    decreases table.len() - from,
{
    if from < table.len() {
        assert(table.contains(table[from as int]));
        lemma_absent_name(table, name, from + 1);
    }
}

/// A register is shown by its name and its value in eight digits.
pub proof fn law_registers_show_their_value(name: Seq<char>, v: u32, role: RegisterRole)
    ensures
        mentions(register_line(name, Some(v)), name),
        mentions(register_line(name, Some(v)), seq!['0', 'x'] + hex(v as nat, 8)),
        mentions(register_line(name, None), name),
        role_line(role, RoleReading::Value(v)) == role.label() + (seq![' ', '=', ' ', '0', 'x']
            + hex(v as nat, 8)),
        role == RegisterRole::StackPointer ==> role.label() == "SP"@,
        role == RegisterRole::LinkRegister ==> role.label() == "LR"@,
        mentions(halt_report(v as u64), seq!['0', 'x'] + hex(v as nat, 8)),
{
    reveal_strlit(" = 0x");
    reveal_strlit(" = ");
    reveal_strlit("已暂停，PC = 0x");
    reveal_strlit("已暂停，PC = ");
    let none = Seq::<char>::empty();
    let h = seq!['0', 'x'] + hex(v as nat, 8);
    let left = pad_left(name, 12, ' ');
    let spaces = left.take(left.len() - name.len());
    let line = register_line(name, Some(v));
    assert(left =~= spaces + name);
    assert(line =~= (left + " = "@) + h + none);
    assert(line =~= spaces + name + (" = "@ + h));
    assert(register_line(name, None) =~= spaces + name + " = （不可读）"@);
    assert(" = 0x"@ =~= seq![' ', '=', ' ', '0', 'x']);
    assert(halt_report(v as u64) =~= "已暂停，PC = "@ + h + none);
}

}
