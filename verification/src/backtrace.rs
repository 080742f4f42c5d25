//! Call stacks from the unwind information in `.debug_frame`.
//!
//! A frame is left by its unwind row: the rule for the frame address gives the
//! caller's stack pointer, the rules for the registers give the caller's
//! registers, and the rule for the link register gives the return address. The
//! walk ends at a return address of zero, where unwind information is missing,
//! at the initial top of the stack, or at an interrupt handler, whose entry in
//! the vector table is then added. All of this holds for every Cortex-M core.
use vstd::prelude::*;
use gimli::CfaRule::RegisterAndOffset;
use gimli::RegisterRule::{Offset, Register as InRegister, SameValue, Undefined};
use gimli::RunTimeEndian::{Big, Little};
use gimli::{BaseAddresses, DebugFrame, Register, UnwindContext, UnwindSection};
use crate::dwarf::{elf_endianness, elf_little_endian, load_section, section_or_empty};
use crate::number::{dec, numeral};
use crate::text::same_text;

verus! {

/// A frame of a call stack.
#[derive(Debug, Clone, Copy, PartialEq, Eq, Structural)]
pub struct Frame {
    /// The address of the instruction in the frame, with the Thumb bit cleared.
    pub pc: u64,
}

/// The registers that the walk knows: R0 to R12, SP, LR and PC.
pub const REGISTERS: u16 = 16;

/// The size of an address on the target.
pub const ADDRESS_SIZE: u8 = 4;

/// The vector table offset register.
pub const VTOR: u64 = 0xE000_ED08;

/// The interrupt control and state register.
pub const ICSR: u64 = 0xE000_ED04;

/// Whether the low word of a return address marks the return from an
/// exception: its upper three bytes are all ones.
pub open spec fn exc_return(lr: u64) -> bool {
    lr % 0x1_0000_0000 >= 0xFFFF_FF00
}

/// Whether a return address marks the return from an exception.
pub fn is_exc_return(lr: u64) -> (r: bool)
    ensures
        r == exc_return(lr),
{
    assert((lr & 0xFFFF_FF00 == 0xFFFF_FF00) == (lr % 0x1_0000_0000 >= 0xFFFF_FF00))
        by (bit_vector);
    lr & 0xFFFF_FF00 == 0xFFFF_FF00
}

/// The address of an instruction without the Thumb bit.
pub open spec fn without_thumb(address: u64) -> u64 {
    (address / 2 * 2) as u64
}

/// The number that unwind information gives to a register of that name.
pub open spec fn register_number(name: Seq<char>) -> Option<u16> {
    if name == "R0"@ {
        Some(0)
    } else if name == "R1"@ {
        Some(1)
    } else if name == "R2"@ {
        Some(2)
    } else if name == "R3"@ {
        Some(3)
    } else if name == "R4"@ {
        Some(4)
    } else if name == "R5"@ {
        Some(5)
    } else if name == "R6"@ {
        Some(6)
    } else if name == "R7"@ {
        Some(7)
    } else if name == "R8"@ {
        Some(8)
    } else if name == "R9"@ {
        Some(9)
    } else if name == "R10"@ {
        Some(10)
    } else if name == "R11"@ {
        Some(11)
    } else if name == "R12"@ {
        Some(12)
    } else if name == "R13"@ || name == "SP"@ {
        Some(13)
    } else if name == "R14"@ || name == "LR"@ || name == "RA"@ {
        Some(14)
    } else if name == "R15"@ || name == "PC"@ {
        Some(15)
    } else {
        None
    }
}

/// The number that unwind information gives to a register of that name.
pub fn dwarf_register(name: &str) -> (r: Option<u16>)
    ensures
        r == register_number(name@),
{
    if same_text(name, "R0") {
        Some(0)
    } else if same_text(name, "R1") {
        Some(1)
    } else if same_text(name, "R2") {
        Some(2)
    } else if same_text(name, "R3") {
        Some(3)
    } else if same_text(name, "R4") {
        Some(4)
    } else if same_text(name, "R5") {
        Some(5)
    } else if same_text(name, "R6") {
        Some(6)
    } else if same_text(name, "R7") {
        Some(7)
    } else if same_text(name, "R8") {
        Some(8)
    } else if same_text(name, "R9") {
        Some(9)
    } else if same_text(name, "R10") {
        Some(10)
    } else if same_text(name, "R11") {
        Some(11)
    } else if same_text(name, "R12") {
        Some(12)
    } else if same_text(name, "R13") || same_text(name, "SP") {
        Some(13)
    } else if same_text(name, "R14") || same_text(name, "LR") || same_text(name, "RA") {
        Some(14)
    } else if same_text(name, "R15") || same_text(name, "PC") {
        Some(15)
    } else {
        None
    }
}

// ---------------------------------------------------------------------------
// Unwind rows
// ---------------------------------------------------------------------------

/// How a register of the caller is found.
#[derive(Debug, Clone, Copy, PartialEq, Eq, Structural)]
pub enum Rule {
    /// It cannot be found.
    Undefined,
    /// It has not changed.
    Same,
    /// Nothing is said; it has not changed.
    Unspecified,
    /// It stands in memory, at this distance from the frame address.
    Offset(i64),
    /// It stands in another register.
    Register(u16),
    /// In a way that the walk does not follow.
    Other,
}

/// How the caller of a frame is found.
#[derive(Debug)]
pub struct UnwindRow {
    /// The register and the distance that make the frame address, where it is
    /// made of these.
    pub cfa: Option<(u16, i64)>,
    /// The rule of each register.
    pub rules: Vec<Rule>,
}

/// What an [`UnwindRow`] holds.
pub struct RowData {
    pub cfa: Option<(u16, i64)>,
    pub rules: Seq<Rule>,
}

impl View for UnwindRow {
    type V = RowData;

    open spec fn view(&self) -> RowData {
        RowData { cfa: self.cfa, rules: self.rules@ }
    }
}

/// How `gimli` finds the frame address at an instruction: the register and the
/// distance, where there is a row and it is made of these.
pub uninterp spec fn cfa_rule_at(
    frame: Seq<u8>,
    little: bool,
    address_size: u8,
    pc: u64,
) -> Option<Option<(u16, i64)>>;

/// The rule that `gimli` finds for a register at an instruction.
pub uninterp spec fn register_rule_at(
    frame: Seq<u8>,
    little: bool,
    address_size: u8,
    pc: u64,
    register: u16,
) -> Option<Rule>;

/// `gimli::UnwindTableRow::cfa` of the row that `fde_for_address` and
/// `unwind_info_for_address` find for the instruction at `pc` in the bytes of a
/// `.debug_frame` section; none where there is no row or it cannot be decoded.
/// Claimed is that the outcome depends on the arguments alone. The size of an
/// address is that of the target: `gimli` makes a mask of it, which overflows for
/// no bytes and for more than eight.
#[verifier::external_body]
fn cfa_rule(frame: &[u8], little: bool, address_size: u8, pc: u64) -> (r: Option<
    Option<(u16, i64)>,
>)
    requires
        address_size == ADDRESS_SIZE,
    ensures
        r == cfa_rule_at(frame@, little, address_size, pc),
{
    let mut section = DebugFrame::new(frame, if little { Little } else { Big });
    section.set_address_size(address_size);
    let bases = BaseAddresses::default();
    let fde = section.fde_for_address(&bases, pc, DebugFrame::cie_from_offset).ok()?;
    let mut context = UnwindContext::new();
    let row = fde.unwind_info_for_address(&section, &bases, &mut context, pc).ok()?;
    Some(match row.cfa() {
        RegisterAndOffset { register, offset } => Some((register.0, *offset)),
        _ => None,
    })
}

/// `gimli::UnwindTableRow::register` of the row that `fde_for_address` and
/// `unwind_info_for_address` find for the instruction at `pc` in the bytes of a
/// `.debug_frame` section; none where there is no row or it cannot be decoded.
/// Claimed is that the outcome depends on the arguments alone. The size of an
/// address is that of the target: `gimli` makes a mask of it, which overflows for
/// no bytes and for more than eight.
#[verifier::external_body]
fn register_rule(frame: &[u8], little: bool, address_size: u8, pc: u64, register: u16) -> (r:
    Option<Rule>)
    requires
        address_size == ADDRESS_SIZE,
    ensures
        r == register_rule_at(frame@, little, address_size, pc, register),
{
    let mut section = DebugFrame::new(frame, if little { Little } else { Big });
    section.set_address_size(address_size);
    let bases = BaseAddresses::default();
    let fde = section.fde_for_address(&bases, pc, DebugFrame::cie_from_offset).ok()?;
    let mut context = UnwindContext::new();
    let row = fde.unwind_info_for_address(&section, &bases, &mut context, pc).ok()?;
    Some(match row.register(Register(register)) {
        Some(Undefined) => Rule::Undefined,
        Some(SameValue) => Rule::Same,
        None => Rule::Unspecified,
        Some(Offset(o)) => Rule::Offset(o),
        Some(InRegister(r)) => Rule::Register(r.0),
        Some(_) => Rule::Other,
    })
}

/// The unwind information of a program.
#[derive(Debug)]
pub struct FrameInfo {
    /// Whether the target is little endian.
    pub little: bool,
    /// The bytes of the `.debug_frame` section.
    pub bytes: Vec<u8>,
}

/// What a [`FrameInfo`] holds.
pub struct FrameData {
    pub little: bool,
    pub bytes: Seq<u8>,
}

impl View for FrameInfo {
    type V = FrameData;

    open spec fn view(&self) -> FrameData {
        FrameData { little: self.little, bytes: self.bytes@ }
    }
}

/// The rule of a register at an instruction.
pub open spec fn rule_of(f: FrameData, pc: u64, n: int) -> Rule {
    match register_rule_at(f.bytes, f.little, ADDRESS_SIZE, pc, n as u16) {
        Some(rule) => rule,
        None => Rule::Other,
    }
}

/// The unwind row of an instruction.
pub open spec fn row_of(f: FrameData, pc: u64) -> Option<RowData> {
    match cfa_rule_at(f.bytes, f.little, ADDRESS_SIZE, pc) {
        None => None,
        Some(cfa) => Some(
            RowData { cfa, rules: Seq::new(REGISTERS as nat, |n: int| rule_of(f, pc, n)) },
        ),
    }
}

impl FrameInfo {
    /// Loads the unwind information of an ELF file; a file without any has an
    /// empty section.
    pub fn load(data: &[u8]) -> (r: Result<FrameInfo, String>)
        ensures
            match r {
                Ok(f) => elf_endianness(data@) == Ok::<bool, Seq<char>>(f.little) && f.bytes@
                    == section_or_empty(data@, ".debug_frame"@),
                Err(e) => elf_endianness(data@) == Err::<bool, Seq<char>>(e@),
            },
    {
        match elf_little_endian(data) {
            Err(e) => Err(e),
            Ok(little) => Ok(FrameInfo { little, bytes: load_section(data, ".debug_frame") }),
        }
    }

    /// The unwind row of the instruction at `pc`.
    pub fn row(&self, pc: u64) -> (r: Option<UnwindRow>)
        ensures
            match r {
                Some(row) => row_of(self@, pc) == Some(row@),
                None => row_of(self@, pc) is None,
            },
    {
        let frame: &[u8] = self.bytes.as_slice();
        match cfa_rule(frame, self.little, ADDRESS_SIZE, pc) {
            None => None,
            Some(cfa) => {
                let mut rules: Vec<Rule> = Vec::new();
                let mut n: u16 = 0;
                while n < REGISTERS
                    invariant
                        n <= REGISTERS,
                        frame@ == self.bytes@,
                        rules@ == Seq::new(n as nat, |k: int| rule_of(self@, pc, k)),
                    decreases REGISTERS - n,
                {
                    let rule: Rule = match register_rule(frame, self.little, ADDRESS_SIZE, pc, n) {
                        Some(rule) => rule,
                        None => Rule::Other,
                    };
                    rules.push(rule);
                    n += 1;
                    assert(rules@ =~= Seq::new(n as nat, |k: int| rule_of(self@, pc, k)));
                }
                Some(UnwindRow { cfa, rules })
            },
        }
    }
}

// ---------------------------------------------------------------------------
// One step up
// ---------------------------------------------------------------------------

/// The registers of a frame, by number; none where the value is not known.
pub open spec fn register(regs: Seq<Option<u64>>, n: int) -> Option<u64> {
    if 0 <= n < regs.len() {
        regs[n]
    } else {
        None
    }
}

/// `base` moved by `offset`, around the end of the address space.
pub open spec fn moved(base: u64, offset: i64) -> u64 {
    base.wrapping_add_signed(offset)
}

/// Whether a reader of words answers as the memory `mem` does. An address that
/// cannot be read has no word.
pub open spec fn answers<M: Fn(u64) -> Option<u32>>(
    read: M,
    mem: spec_fn(u64) -> Option<u32>,
) -> bool {
    forall|a: u64, r: Option<u32>| call_ensures(read, (a,), r) ==> r == mem(a)
}

/// Whether a reader of words can be asked for any address.
pub open spec fn readable<M: Fn(u64) -> Option<u32>>(read: M) -> bool {
    forall|a: u64| call_requires(read, (a,))
}

/// A word as an address.
pub open spec fn widened(w: Option<u32>) -> Option<u64> {
    match w {
        Some(v) => Some(v as u64),
        None => None,
    }
}

/// A register of the caller, by its rule. `own` is its value in the frame.
pub open spec fn recovered(
    rule: Rule,
    own: Option<u64>,
    regs: Seq<Option<u64>>,
    cfa: u64,
    mem: spec_fn(u64) -> Option<u32>,
) -> Option<u64> {
    match rule {
        Rule::Undefined => None,
        Rule::Same => own,
        Rule::Unspecified => own,
        Rule::Offset(o) => widened(mem(moved(cfa, o))),
        Rule::Register(r) => register(regs, r as int),
        Rule::Other => None,
    }
}

fn read_word<M: Fn(u64) -> Option<u32>>(read: &M, address: u64) -> (r: Option<u64>)
    requires
        readable(*read),
    ensures
        forall|mem: spec_fn(u64) -> Option<u32>| #[trigger]
            answers(*read, mem) ==> r == widened(mem(address)),
{
    match read(address) {
        Some(w) => Some(w as u64),
        None => None,
    }
}

fn known(regs: &Vec<Option<u64>>, n: u16) -> (r: Option<u64>)
    ensures
        r == register(regs@, n as int),
{
    if (n as usize) < regs.len() {
        regs[n as usize]
    } else {
        None
    }
}

/// Finds a register of the caller by its rule.
pub fn recover<M: Fn(u64) -> Option<u32>>(
    rule: Rule,
    own: Option<u64>,
    regs: &Vec<Option<u64>>,
    cfa: u64,
    read: &M,
) -> (r: Option<u64>)
    requires
        readable(*read),
    ensures
        forall|mem: spec_fn(u64) -> Option<u32>| #[trigger]
            answers(*read, mem) ==> r == recovered(rule, own, regs@, cfa, mem),
{
    match rule {
        Rule::Undefined => None,
        Rule::Same => own,
        Rule::Unspecified => own,
        Rule::Offset(o) => read_word(read, cfa.wrapping_add_signed(o)),
        Rule::Register(n) => known(regs, n),
        Rule::Other => None,
    }
}

/// Where a walk stands.
pub struct WalkState {
    pub regs: Seq<Option<u64>>,
    pub pc: u64,
    pub lr: u64,
}

/// How a step up ends.
pub enum Step<S> {
    /// At the caller.
    Up(S),
    /// Nowhere: the frame is the outermost one that can be known.
    Stop,
    /// At the hardware: the frame was entered by an exception.
    Exception,
}

/// The frame address of a row: the caller's stack pointer.
pub open spec fn frame_address(regs: Seq<Option<u64>>, cfa: (u16, i64)) -> u64 {
    moved(
        match register(regs, cfa.0 as int) {
            Some(v) => v,
            None => 0,
        },
        cfa.1,
    )
}

/// The registers of the caller that is resumed at `ra`.
pub open spec fn caller_registers(
    row: RowData,
    regs: Seq<Option<u64>>,
    cfa: u64,
    ra: u64,
    mem: spec_fn(u64) -> Option<u32>,
) -> Seq<Option<u64>> {
    Seq::new(
        REGISTERS as nat,
        |n: int|
            if n == 13 {
                Some(cfa)
            } else if n == 14 {
                Some(ra)
            } else if n == 15 {
                Some((without_thumb(ra) + 1) as u64)
            } else if regs[n] is Some {
                recovered(row.rules[n], regs[n], regs, cfa, mem)
            } else {
                None
            },
    )
}

/// One step up, with the unwind row of the frame at hand.
pub open spec fn step_by_row(
    row: Option<RowData>,
    st: WalkState,
    top: Option<u64>,
    mem: spec_fn(u64) -> Option<u32>,
) -> Step<WalkState> {
    match row {
        None => Step::Stop,
        Some(row) => match row.cfa {
            None => Step::Stop,
            Some(rule) => {
                let cfa = frame_address(st.regs, rule);
                if top is Some && cfa >= top->0 {
                    Step::Stop
                } else {
                    match recovered(row.rules[14], Some(st.lr), st.regs, cfa, mem) {
                        None => Step::Stop,
                        Some(ra) => if exc_return(ra) {
                            Step::Exception
                        } else if ra == 0 || without_thumb(ra) == st.pc {
                            Step::Stop
                        } else {
                            Step::Up(
                                WalkState {
                                    regs: caller_registers(row, st.regs, cfa, ra, mem),
                                    pc: without_thumb(ra),
                                    lr: ra,
                                },
                            )
                        },
                    }
                }
            },
        },
    }
}

/// The registers of a frame, where it stands and where it returns to.
#[derive(Debug)]
pub struct Walk {
    pub regs: Vec<Option<u64>>,
    pub pc: u64,
    pub lr: u64,
}

impl View for Walk {
    type V = WalkState;

    open spec fn view(&self) -> WalkState {
        WalkState { regs: self.regs@, pc: self.pc, lr: self.lr }
    }
}

/// The view of a step.
pub open spec fn step_view(s: Step<Walk>) -> Step<WalkState> {
    match s {
        Step::Up(w) => Step::Up(w@),
        Step::Stop => Step::Stop,
        Step::Exception => Step::Exception,
    }
}

/// The value of a register, zero where it is not known.
pub open spec fn base_value(regs: Seq<Option<u64>>, n: u16) -> int {
    if n < regs.len() && regs[n as int] is Some {
        regs[n as int]->0 as int
    } else {
        0
    }
}

/// Whether two numbers are the same address, around the end of the address space.
pub open spec fn around(a: int, b: int) -> bool {
    a == b || a == b + 0x1_0000_0000_0000_0000 || a == b - 0x1_0000_0000_0000_0000
}

/// Steps up from a frame whose unwind row is at hand.
pub fn step_up<M: Fn(u64) -> Option<u32>>(
    row: &Option<UnwindRow>,
    at: &Walk,
    top: Option<u64>,
    read: &M,
) -> (r: Step<Walk>)
    requires
        readable(*read),
        at.regs@.len() == REGISTERS,
        row matches Some(x) ==> x.rules@.len() == REGISTERS,
    ensures
        forall|mem: spec_fn(u64) -> Option<u32>| #[trigger]
            answers(*read, mem) ==> step_view(r) == step_by_row(
                match *row {
                    Some(x) => Some(x@),
                    None => None,
                },
                at@,
                top,
                mem,
            ),
        r matches Step::Up(w) ==> w.regs@.len() == REGISTERS && w.pc % 2 == 0 && w.pc != at.pc,
        r matches Step::Up(w) ==> {
            &&& row matches Some(x)
            &&& x.cfa matches Some((reg, offset))
            &&& w.regs@[13] matches Some(cfa)
            &&& around(cfa as int, base_value(at.regs@, reg) + offset)
            &&& w.regs@[14] == Some(w.lr)
            &&& w.regs@[15] == Some((w.pc + 1) as u64)
            &&& w.lr == w.pc || w.lr == w.pc + 1
        },
{
    let row: &UnwindRow = match row {
        None => {
            return Step::Stop;
        },
        Some(row) => row,
    };
    let (reg, offset): (u16, i64) = match row.cfa {
        None => {
            return Step::Stop;
        },
        Some(rule) => rule,
    };
    let base: u64 = match known(&at.regs, reg) {
        Some(v) => v,
        None => 0,
    };
    let cfa: u64 = base.wrapping_add_signed(offset);
    if let Some(top) = top {
        if cfa >= top {
            return Step::Stop;
        }
    }
    let ra: u64 = match recover(row.rules[14], Some(at.lr), &at.regs, cfa, read) {
        None => {
            return Step::Stop;
        },
        Some(ra) => ra,
    };
    if is_exc_return(ra) {
        return Step::Exception;
    }
    let pc: u64 = ra / 2 * 2;
    if ra == 0 || pc == at.pc {
        return Step::Stop;
    }
    let mut regs: Vec<Option<u64>> = Vec::new();
    let mut n: usize = 0;
    while n < 16
        invariant
            n <= 16,
            readable(*read),
            at.regs@.len() == 16,
            row.rules@.len() == 16,
            pc == without_thumb(ra),
            regs@.len() == n,
            n > 13 ==> regs@[13] == Some(cfa),
            n > 14 ==> regs@[14] == Some(ra),
            n > 15 ==> regs@[15] == Some((pc + 1) as u64),
            forall|mem: spec_fn(u64) -> Option<u32>, k: int|
                #![trigger answers(*read, mem), regs@[k]]
                answers(*read, mem) && 0 <= k < n ==> regs@[k] == caller_registers(
                    row@,
                    at.regs@,
                    cfa,
                    ra,
                    mem,
                )[k],
        decreases 16 - n,
    {
        let value: Option<u64> = if n == 13 {
            Some(cfa)
        } else if n == 14 {
            Some(ra)
        } else if n == 15 {
            Some(pc + 1)
        } else if at.regs[n].is_some() {
            recover(row.rules[n], at.regs[n], &at.regs, cfa, read)
        } else {
            None
        };
        regs.push(value);
        n += 1;
    }
    assert forall|mem: spec_fn(u64) -> Option<u32>| #[trigger] answers(*read, mem) implies regs@
        == caller_registers(row@, at.regs@, cfa, ra, mem) by {
        assert(regs@ =~= caller_registers(row@, at.regs@, cfa, ra, mem));
    }
    Step::Up(Walk { regs, pc, lr: ra })
}

// ---------------------------------------------------------------------------
// The walk
// ---------------------------------------------------------------------------

/// The addresses of at most `n` frames from `st` on, and whether the walk ended
/// at an exception.
pub open spec fn trace(
    f: FrameData,
    st: WalkState,
    top: Option<u64>,
    mem: spec_fn(u64) -> Option<u32>,
    n: nat,
) -> (Seq<u64>, bool)
    decreases n,
{
    if n == 0 || st.pc == 0 {
        (Seq::empty(), false)
    } else {
        match step_by_row(row_of(f, st.pc), st, top, mem) {
            Step::Stop => (seq![st.pc], false),
            Step::Exception => (seq![st.pc], true),
            Step::Up(next) => {
                let above = trace(f, next, top, mem, (n - 1) as nat);
                (seq![st.pc] + above.0, above.1)
            },
        }
    }
}

/// The initial top of the stack: the first word of the vector table.
pub open spec fn stack_top(mem: spec_fn(u64) -> Option<u32>) -> Option<u64> {
    match mem(VTOR) {
        Some(vtor) => widened(mem(vtor as u64)),
        None => None,
    }
}

/// The entry of the active exception in the vector table. There is none outside
/// an exception, and none for the reset.
pub open spec fn active_handler(mem: spec_fn(u64) -> Option<u32>) -> Option<u64> {
    match mem(ICSR) {
        None => None,
        Some(icsr) => {
            let active = icsr % 512;
            if active < 2 {
                None
            } else {
                match mem(VTOR) {
                    None => None,
                    Some(vtor) => match mem((vtor + active * 4) as u64) {
                        None => None,
                        Some(entry) => if entry == 0 {
                            None
                        } else {
                            Some(without_thumb(entry as u64))
                        },
                    },
                }
            }
        },
    }
}

/// Finds the entry of the active exception in the vector table.
pub fn active_vector_handler<M: Fn(u64) -> Option<u32>>(read: &M) -> (r: Option<u64>)
    requires
        readable(*read),
    ensures
        forall|mem: spec_fn(u64) -> Option<u32>| #[trigger]
            answers(*read, mem) ==> r == active_handler(mem),
        r matches Some(h) ==> h % 2 == 0,
{
    let icsr: u64 = match read_word(read, ICSR) {
        None => {
            return None;
        },
        Some(v) => v,
    };
    let active: u64 = icsr % 512;
    if active < 2 {
        return None;
    }
    let vtor: u64 = match read(VTOR) {
        None => {
            return None;
        },
        Some(v) => v as u64,
    };
    match read(vtor + active * 4) {
        None => None,
        Some(entry) => if entry == 0 {
            None
        } else {
            Some(entry as u64 / 2 * 2)
        },
    }
}

/// Why there is no call stack.
#[derive(Debug, Clone, Copy, PartialEq, Eq, Structural)]
pub enum BacktraceError {
    /// The program counter cannot be had.
    NoPc,
    /// There is not one frame.
    NoFrames,
}

impl BacktraceError {
    /// The wording of each failure.
    pub open spec fn text(self) -> Seq<char> {
        match self {
            BacktraceError::NoPc => "读 PC 失败（内核是否已暂停？）"@,
            BacktraceError::NoFrames => "回溯失败：没有取到任何帧（PC 无展开信息？内核未暂停？）"@,
        }
    }

    /// The wording of this failure.
    pub fn message(&self) -> (r: &'static str)
        ensures
            r@ == self.text(),
    {
        match self {
            BacktraceError::NoPc => "读 PC 失败（内核是否已暂停？）",
            BacktraceError::NoFrames => "回溯失败：没有取到任何帧（PC 无展开信息？内核未暂停？）",
        }
    }
}

/// The state that a walk starts in.
pub open spec fn walk_start(regs: Seq<Option<u64>>, pc: u64) -> WalkState {
    WalkState {
        regs,
        pc: without_thumb(pc),
        lr: match regs[14] {
            Some(v) => v,
            None => 0,
        },
    }
}

/// The addresses of a call stack. Where the walk ended at an exception, the
/// entry of the handler is added, unless the walk ended in it or there are as
/// many frames as asked for.
pub open spec fn call_stack(
    f: FrameData,
    regs: Seq<Option<u64>>,
    mem: spec_fn(u64) -> Option<u32>,
    max_frames: nat,
) -> Result<Seq<u64>, BacktraceError> {
    match regs[15] {
        None => Err(BacktraceError::NoPc),
        Some(pc) => {
            let (walked, exception) = trace(
                f,
                walk_start(regs, pc),
                stack_top(mem),
                mem,
                max_frames,
            );
            let all = match active_handler(mem) {
                Some(h) => if exception && walked.len() < max_frames && (walked.len() == 0
                    || walked.last() != h) {
                    walked.push(h)
                } else {
                    walked
                },
                None => walked,
            };
            if all.len() == 0 {
                Err(BacktraceError::NoFrames)
            } else {
                Ok(all)
            }
        },
    }
}

/// The addresses of frames.
pub open spec fn addresses(frames: Seq<Frame>) -> Seq<u64> {
    frames.map_values(|f: Frame| f.pc)
}

/// The view of a call stack.
pub open spec fn stack_view(r: Result<Vec<Frame>, BacktraceError>) -> Result<
    Seq<u64>,
    BacktraceError,
> {
    match r {
        Ok(v) => Ok(addresses(v@)),
        Err(e) => Err(e),
    }
}

/// The call stack of a halted core, at most `max_frames` frames. `regs` are the
/// registers of the core by number, and `read` gives the word of memory at an
/// address, where it can be read.
pub fn backtrace<M: Fn(u64) -> Option<u32>>(
    info: &FrameInfo,
    regs: Vec<Option<u64>>,
    read: &M,
    max_frames: usize,
) -> (r: Result<Vec<Frame>, BacktraceError>)
    requires
        readable(*read),
        regs@.len() == REGISTERS,
    ensures
        forall|mem: spec_fn(u64) -> Option<u32>| #[trigger]
            answers(*read, mem) ==> stack_view(r) == call_stack(
                info@,
                regs@,
                mem,
                max_frames as nat,
            ),
        r matches Ok(v) ==> 1 <= v@.len() <= max_frames && forall|i: int|
            0 <= i < v@.len() ==> (#[trigger] v@[i]).pc % 2 == 0,
{
    let ghost start = regs@;
    let pc: u64 = match regs[15] {
        None => {
            return Err(BacktraceError::NoPc);
        },
        Some(v) => v / 2 * 2,
    };
    let lr: u64 = match regs[14] {
        Some(v) => v,
        None => 0,
    };
    let top: Option<u64> = match read(VTOR) {
        None => None,
        Some(vtor) => read_word(read, vtor as u64),
    };
    let mut at: Walk = Walk { regs, pc, lr };
    let ghost first = at@;
    let mut frames: Vec<Frame> = Vec::new();
    let mut exception: bool = false;
    let mut left: usize = max_frames;
    assert(addresses(frames@) =~= Seq::empty());
    assert forall|mem: spec_fn(u64) -> Option<u32>| #[trigger] answers(*read, mem) implies trace(
        info@,
        first,
        top,
        mem,
        max_frames as nat,
    ) == (addresses(frames@) + trace(info@, at@, top, mem, left as nat).0, trace(
        info@,
        at@,
        top,
        mem,
        left as nat,
    ).1) by {
        let t = trace(info@, at@, top, mem, left as nat);
        assert(addresses(frames@) + t.0 =~= t.0);
    }
    while left > 0 && at.pc != 0
        invariant_except_break
            !exception,
            forall|mem: spec_fn(u64) -> Option<u32>| #[trigger]
                answers(*read, mem) ==> trace(info@, first, top, mem, max_frames as nat) == (
                    addresses(frames@) + trace(info@, at@, top, mem, left as nat).0,
                    trace(info@, at@, top, mem, left as nat).1,
                ),
        invariant
            readable(*read),
            at.regs@.len() == REGISTERS,
            at.pc % 2 == 0,
            left <= max_frames,
            frames@.len() + left <= max_frames,
            forall|i: int| 0 <= i < frames@.len() ==> (#[trigger] frames@[i]).pc % 2 == 0,
        ensures
            forall|mem: spec_fn(u64) -> Option<u32>| #[trigger]
                answers(*read, mem) ==> trace(info@, first, top, mem, max_frames as nat) == (
                    addresses(frames@),
                    exception,
                ),
        decreases left,
    {
        let ghost before = addresses(frames@);
        frames.push(Frame { pc: at.pc });
        assert(addresses(frames@) =~= before.push(at.pc));
        let row: Option<UnwindRow> = info.row(at.pc);
        let step: Step<Walk> = step_up(&row, &at, top, read);
        left -= 1;
        match step {
            Step::Stop => {
                assert(addresses(frames@) =~= before + seq![at.pc]);
                break ;
            },
            Step::Exception => {
                assert(addresses(frames@) =~= before + seq![at.pc]);
                exception = true;
                break ;
            },
            Step::Up(next) => {
                assert forall|mem: spec_fn(u64) -> Option<u32>| #[trigger]
                    answers(*read, mem) implies trace(
                    info@,
                    first,
                    top,
                    mem,
                    max_frames as nat,
                ) == (addresses(frames@) + trace(info@, next@, top, mem, left as nat).0, trace(
                    info@,
                    next@,
                    top,
                    mem,
                    left as nat,
                ).1) by {
                    let above = trace(info@, next@, top, mem, left as nat);
                    assert(step_by_row(row_of(info@, at.pc), at@, top, mem) == Step::Up(next@));
                    assert(before + (seq![at.pc] + above.0) =~= addresses(frames@) + above.0);
                }
                at = next;
            },
        }
    }
    let ghost walked = addresses(frames@);
    if exception {
        if let Some(handler) = active_vector_handler(read) {
            let repeated: bool = frames.len() > 0 && frames[frames.len() - 1].pc == handler;
            if !repeated && frames.len() < max_frames {
                frames.push(Frame { pc: handler });
                assert(addresses(frames@) =~= walked.push(handler));
            }
        }
    }
    assert forall|mem: spec_fn(u64) -> Option<u32>| #[trigger] answers(*read, mem) implies {
        frames@.len() > 0 ==> call_stack(info@, start, mem, max_frames as nat) == Ok::<
            _,
            BacktraceError,
        >(addresses(frames@))
    } by {
        assert(first == walk_start(start, start[15]->0));
        assert(top == stack_top(mem));
    }
    if frames.len() == 0 {
        return Err(BacktraceError::NoFrames);
    }
    Ok(frames)
}

/// The return address of the innermost frame, by the rule of the link register.
pub open spec fn return_address(
    f: FrameData,
    regs: Seq<Option<u64>>,
    mem: spec_fn(u64) -> Option<u32>,
) -> Option<u64> {
    match regs[15] {
        None => None,
        Some(pc) => match row_of(f, without_thumb(pc)) {
            None => None,
            Some(row) => match row.cfa {
                None => None,
                Some(rule) => recovered(
                    row.rules[14],
                    Some(walk_start(regs, pc).lr),
                    regs,
                    frame_address(regs, rule),
                    mem,
                ),
            },
        },
    }
}

/// The return address of the innermost frame of a halted core. In an interrupt
/// handler that is the mark of the return from an exception.
pub fn frame_return_address<M: Fn(u64) -> Option<u32>>(
    info: &FrameInfo,
    regs: &Vec<Option<u64>>,
    read: &M,
) -> (r: Option<u64>)
    requires
        readable(*read),
        regs@.len() == REGISTERS,
    ensures
        forall|mem: spec_fn(u64) -> Option<u32>| #[trigger]
            answers(*read, mem) ==> r == return_address(info@, regs@, mem),
{
    let pc: u64 = match regs[15] {
        None => {
            return None;
        },
        Some(v) => v / 2 * 2,
    };
    let lr: u64 = match regs[14] {
        Some(v) => v,
        None => 0,
    };
    match info.row(pc) {
        None => None,
        Some(row) => match row.cfa {
            None => None,
            Some((reg, offset)) => {
                let base: u64 = match known(regs, reg) {
                    Some(v) => v,
                    None => 0,
                };
                let cfa: u64 = base.wrapping_add_signed(offset);
                recover(row.rules[14], Some(lr), regs, cfa, read)
            },
        },
    }
}

/// A walk never gives more frames than asked for, each frame is at an even
/// address other than zero, and no frame is at the address of the one below it.
pub proof fn law_trace_shape(
    f: FrameData,
    st: WalkState,
    top: Option<u64>,
    mem: spec_fn(u64) -> Option<u32>,
    n: nat,
)
    requires
        st.pc % 2 == 0,
    ensures
        trace(f, st, top, mem, n).0.len() <= n,
        n > 0 && st.pc != 0 ==> trace(f, st, top, mem, n).0.len() > 0 && trace(
            f,
            st,
            top,
            mem,
            n,
        ).0[0] == st.pc,
        forall|i: int|
            0 <= i < trace(f, st, top, mem, n).0.len() ==> {
                &&& #[trigger] trace(f, st, top, mem, n).0[i] != 0
                &&& trace(f, st, top, mem, n).0[i] % 2 == 0
            },
        forall|i: int, j: int|
            0 <= i && j == i + 1 && j < trace(f, st, top, mem, n).0.len() ==> #[trigger] trace(
                f,
                st,
                top,
                mem,
                n,
            ).0[i] != #[trigger] trace(f, st, top, mem, n).0[j],
    decreases n,
{
    if n > 0 && st.pc != 0 {
        match step_by_row(row_of(f, st.pc), st, top, mem) {
            Step::Up(next) => {
                law_trace_shape(f, next, top, mem, (n - 1) as nat);
                let above = trace(f, next, top, mem, (n - 1) as nat).0;
                let all = trace(f, st, top, mem, n).0;
                assert(all == seq![st.pc] + above);
                assert forall|i: int| 0 <= i < all.len() implies #[trigger] all[i] != 0 && all[i]
                    % 2 == 0 by {
                    if i > 0 {
                        assert(all[i] == above[i - 1]);
                    }
                }
                assert forall|i: int, j: int|
                    0 <= i && j == i + 1 && j < all.len() implies #[trigger] all[i]
                    != #[trigger] all[j] by {
                    assert(all[j] == above[i]);
                    if i > 0 {
                        assert(all[i] == above[i - 1]);
                    }
                }
            },
            _ => {},
        }
    }
}

// ---------------------------------------------------------------------------
// Stacks of any depth
// ---------------------------------------------------------------------------

/// A frame that keeps its return address on the stack: where it stands, where its
/// caller's stack pointer was, the rules that lead there, and the word that was
/// pushed there.
pub struct StackFrame {
    pub pc: u64,
    /// The frame address: the stack pointer of the caller.
    pub base: u64,
    /// How far the frame address is from the stack pointer in the frame.
    pub size: i64,
    /// How far the return address is from the frame address.
    pub saved: i64,
    /// The return address.
    pub word: u32,
}

/// Whether unwind information and memory hold a frame whose stack pointer is `sp`.
/// The program counter has number 15, the link register 14, the stack pointer 13.
pub open spec fn frame_there(
    f: FrameData,
    mem: spec_fn(u64) -> Option<u32>,
    sp: int,
    x: StackFrame,
) -> bool {
    &&& x.pc != 0
    &&& cfa_rule_at(f.bytes, f.little, 4, x.pc) == Some(Some((13u16, x.size)))
    &&& register_rule_at(f.bytes, f.little, 4, x.pc, 14) == Some(Rule::Offset(x.saved))
    &&& x.base == sp + x.size
    &&& 0 <= x.base + x.saved <= u64::MAX
    &&& mem((x.base + x.saved) as u64) == Some(x.word)
}

/// Whether `frames` stand on top of each other: each is there, and each but the
/// last returns into the next, whose stack pointer is the frame address of the one
/// before. All lie below the top of the stack, where that is known.
pub open spec fn stacked(
    f: FrameData,
    mem: spec_fn(u64) -> Option<u32>,
    top: Option<u64>,
    sp: int,
    frames: Seq<StackFrame>,
) -> bool {
    &&& frames.len() > 0
    &&& frame_there(f, mem, sp, frames[0])
    &&& forall|j: int|
        #![trigger frames[j]]
        0 < j < frames.len() ==> frame_there(f, mem, frames[j - 1].base as int, frames[j])
    &&& forall|j: int|
        #![trigger frames[j]]
        0 < j < frames.len() ==> {
            &&& frames[j - 1].word < 0xFFFF_FF00
            &&& frames[j - 1].word - frames[j - 1].word % 2 == frames[j].pc
            &&& frames[j].pc != frames[j - 1].pc
        }
    &&& forall|j: int|
        0 <= j < frames.len() ==> (top matches Some(t) ==> (#[trigger] frames[j]).base < t)
}

/// The top of the stack by the vector table: the word that its offset register
/// points at.
pub open spec fn top_of_stack(mem: spec_fn(u64) -> Option<u32>, top: Option<u64>) -> bool {
    match mem(0xE000_ED08) {
        None => top is None,
        Some(table) => match mem(table as u64) {
            None => top is None,
            Some(word) => top == Some(word as u64),
        },
    }
}

/// The addresses of frames.
pub open spec fn frame_addresses(frames: Seq<StackFrame>) -> Seq<u64> {
    frames.map_values(|x: StackFrame| x.pc)
}

proof fn lemma_frame_left(
    f: FrameData,
    mem: spec_fn(u64) -> Option<u32>,
    top: Option<u64>,
    sp: int,
    x: StackFrame,
    st: WalkState,
)
    requires
        frame_there(f, mem, sp, x),
        top matches Some(t) ==> x.base < t,
        st.regs.len() == 16,
        st.regs[13] matches Some(v) && v == sp,
        st.pc == x.pc,
    ensures
        match step_by_row(row_of(f, st.pc), st, top, mem) {
            Step::Up(next) => {
                &&& 0 < x.word < 0xFFFF_FF00
                &&& next.pc == x.word - x.word % 2
                &&& next.regs.len() == 16
                &&& next.regs[13] == Some(x.base)
            },
            Step::Stop => x.word == 0 || x.word - x.word % 2 == x.pc,
            Step::Exception => x.word >= 0xFFFF_FF00,
        },
        x.word >= 0xFFFF_FF00 ==> step_by_row(row_of(f, st.pc), st, top, mem) is Exception,
{
    let row = row_of(f, x.pc)->0;
    let cfa = frame_address(st.regs, (13u16, x.size));
    assert(row.cfa == Some((13u16, x.size)));
    assert(row.rules[14] == Rule::Offset(x.saved));
    assert(cfa == x.base);
    assert(moved(cfa, x.saved) == x.base + x.saved);
    assert(recovered(row.rules[14], Some(st.lr), st.regs, cfa, mem) == Some(x.word as u64));
}

proof fn lemma_stack_walk(
    f: FrameData,
    mem: spec_fn(u64) -> Option<u32>,
    top: Option<u64>,
    sp: int,
    frames: Seq<StackFrame>,
    st: WalkState,
    n: nat,
)
    requires
        stacked(f, mem, top, sp, frames),
        st.regs.len() == 16,
        st.regs[13] matches Some(v) && v == sp,
        st.pc == frames[0].pc,
        n >= frames.len(),
        frames.last().word == 0 || frames.last().word >= 0xFFFF_FF00,
    ensures
        trace(f, st, top, mem, n) == (frame_addresses(frames), frames.last().word != 0),
    decreases frames.len(),
{
    let x = frames[0];
    lemma_frame_left(f, mem, top, sp, x, st);
    let all = frame_addresses(frames);
    if frames.len() == 1 {
        assert(all =~= seq![x.pc]);
    } else {
        let rest = frames.drop_first();
        assert(frames[1].pc == x.word - x.word % 2);
        let next = step_by_row(row_of(f, st.pc), st, top, mem)->Up_0;
        assert forall|j: int|
            #![trigger rest[j]]
            0 < j < rest.len() implies frame_there(f, mem, rest[j - 1].base as int, rest[j]) by {
            assert(rest[j] == frames[j + 1] && rest[j - 1] == frames[j]);
        }
        assert forall|j: int|
            #![trigger rest[j]]
            0 < j < rest.len() implies {
            &&& rest[j - 1].word < 0xFFFF_FF00
            &&& rest[j - 1].word - rest[j - 1].word % 2 == rest[j].pc
            &&& rest[j].pc != rest[j - 1].pc
        } by {
            assert(rest[j] == frames[j + 1] && rest[j - 1] == frames[j]);
        }
        assert forall|j: int| 0 <= j < rest.len() implies (top matches Some(t) ==> (
        #[trigger] rest[j]).base < t) by {
            assert(rest[j] == frames[j + 1]);
        }
        assert(frame_there(f, mem, x.base as int, rest[0]));
        lemma_stack_walk(f, mem, top, x.base as int, rest, next, (n - 1) as nat);
        assert(all =~= seq![x.pc] + frame_addresses(rest));
    }
}

/// A stack is unwound to its last frame, however deep it is: each frame is read
/// where the one below it ends, and a return address of zero ends the walk.
pub proof fn law_stacks_unwind_to_the_end(
    f: FrameData,
    regs: Seq<Option<u64>>,
    mem: spec_fn(u64) -> Option<u32>,
    top: Option<u64>,
    frames: Seq<StackFrame>,
    max_frames: nat,
)
    requires
        regs.len() == 16,
        regs[13] matches Some(sp) && stacked(f, mem, top, sp as int, frames),
        regs[15] matches Some(pc) && pc - pc % 2 == frames[0].pc,
        top_of_stack(mem, top),
        max_frames >= frames.len(),
        frames.last().word == 0,
    ensures
        call_stack(f, regs, mem, max_frames) == Ok::<_, BacktraceError>(frame_addresses(frames)),
{
    let st = walk_start(regs, regs[15]->0);
    lemma_stack_walk(f, mem, top, regs[13]->0 as int, frames, st, max_frames);
}

/// A stack that ends in an exception is unwound to the function that handles it,
/// and the entry of the vector table for the active exception follows, as far as
/// there is room and the function is another one.
pub proof fn law_stacks_of_exceptions_end_in_the_handler(
    f: FrameData,
    regs: Seq<Option<u64>>,
    mem: spec_fn(u64) -> Option<u32>,
    top: Option<u64>,
    frames: Seq<StackFrame>,
    max_frames: nat,
    status: u32,
    table: u32,
    entry: u32,
)
    requires
        regs.len() == 16,
        regs[13] matches Some(sp) && stacked(f, mem, top, sp as int, frames),
        regs[15] matches Some(pc) && pc - pc % 2 == frames[0].pc,
        top_of_stack(mem, top),
        max_frames >= frames.len(),
        frames.last().word >= 0xFFFF_FF00,
        mem(0xE000_ED04) == Some(status),
        status % 512 >= 2,
        mem(0xE000_ED08) == Some(table),
        table + status % 512 * 4 <= u32::MAX,
        mem((table + status % 512 * 4) as u64) == Some(entry),
        entry != 0,
    ensures
        call_stack(f, regs, mem, max_frames) == Ok::<_, BacktraceError>(
            if max_frames > frames.len() && frames.last().pc != entry - entry % 2 {
                frame_addresses(frames).push((entry - entry % 2) as u64)
            } else {
                frame_addresses(frames)
            },
        ),
{
    let st = walk_start(regs, regs[15]->0);
    lemma_stack_walk(f, mem, top, regs[13]->0 as int, frames, st, max_frames);
    assert(frame_addresses(frames).last() == frames.last().pc);
}

/// The registers of a caller: one that was pushed is read from the stack frame,
/// one that was not touched keeps its value, and one that unwind information gives
/// up is not known. The same holds of the return address.
pub proof fn law_pushed_registers_are_restored(
    f: FrameData,
    st: WalkState,
    mem: spec_fn(u64) -> Option<u32>,
    top: Option<u64>,
    reg: u16,
    size: i64,
    saved: i64,
    n: int,
    next: WalkState,
)
    requires
        st.regs.len() == 16,
        reg < 16,
        cfa_rule_at(f.bytes, f.little, 4, st.pc) == Some(Some((reg, size))),
        st.regs[reg as int] matches Some(base) && 0 <= base + size <= u64::MAX && 0 <= base + size
            + saved <= u64::MAX,
        0 <= n < 13,
        st.regs[n] is Some,
        step_by_row(row_of(f, st.pc), st, top, mem) == Step::Up(next),
    ensures
        ({
            let base = st.regs[reg as int]->0 + size;
            let rule = register_rule_at(f.bytes, f.little, 4, st.pc, n as u16);
            &&& next.regs[13] == Some(base as u64)
            &&& rule == Some(Rule::Offset(saved)) ==> next.regs[n] == (match mem(
                (base + saved) as u64,
            ) {
                Some(w) => Some(w as u64),
                None => None,
            })
            &&& rule == Some(Rule::Same) || rule == Some(Rule::Unspecified) ==> next.regs[n]
                == st.regs[n]
            &&& rule == Some(Rule::Undefined) ==> next.regs[n] is None
        }),
{
    let row = row_of(f, st.pc)->0;
    assert(row.cfa == Some((reg, size)));
    assert(row.rules[n] == rule_of(f, st.pc, n));
    assert(frame_address(st.regs, (reg, size)) == st.regs[reg as int]->0 + size);
}

/// Where a function returns to: to the word that it pushed, or to what the link
/// register holds, if it did not push it.
pub proof fn law_functions_return_to_their_callers(
    f: FrameData,
    regs: Seq<Option<u64>>,
    mem: spec_fn(u64) -> Option<u32>,
    reg: u16,
    size: i64,
    saved: i64,
)
    requires
        regs.len() == 16,
        reg < 16,
        regs[15] matches Some(pc) && cfa_rule_at(f.bytes, f.little, 4, (pc - pc % 2) as u64)
            == Some(Some((reg, size))),
        regs[reg as int] matches Some(base) && 0 <= base + size <= u64::MAX && 0 <= base + size
            + saved <= u64::MAX,
    ensures
        ({
            let pc = (regs[15]->0 - regs[15]->0 % 2) as u64;
            let rule = register_rule_at(f.bytes, f.little, 4, pc, 14);
            &&& rule == Some(Rule::Offset(saved)) ==> return_address(f, regs, mem) == (match mem(
                (regs[reg as int]->0 + size + saved) as u64,
            ) {
                Some(w) => Some(w as u64),
                None => None,
            })
            &&& (rule == Some(Rule::Same) || rule == Some(Rule::Unspecified)) && regs[14] is Some
                ==> return_address(f, regs, mem) == regs[14]
            &&& rule == Some(Rule::Undefined) ==> return_address(f, regs, mem) is None
        }),
{
    let pc = without_thumb(regs[15]->0);
    assert(pc == regs[15]->0 - regs[15]->0 % 2);
    let row = row_of(f, pc)->0;
    assert(row.rules[14] == rule_of(f, pc, 14));
    assert(frame_address(regs, (reg, size)) == regs[reg as int]->0 + size);
}

/// What tells the names of registers apart: the length, and the first, the second
/// and the last character.
spec fn outline(t: Seq<char>) -> (nat, char, char, char) {
    (t.len(), t[0], t[1], t.last())
}

/// Register `R` with a number has that number; the stack pointer, the link
/// register and the program counter go by their own names too.
pub proof fn law_registers_have_their_numbers(n: nat)
    requires
        n < 16,
    ensures
        register_number(seq!['R'] + dec(n)) == Some(n as u16),
        register_number("SP"@) == Some(13u16),
        register_number("LR"@) == Some(14u16),
        register_number("RA"@) == Some(14u16),
        register_number("PC"@) == Some(15u16),
{
    reveal_strlit("R0");
    reveal_strlit("R1");
    reveal_strlit("R2");
    reveal_strlit("R3");
    reveal_strlit("R4");
    reveal_strlit("R5");
    reveal_strlit("R6");
    reveal_strlit("R7");
    reveal_strlit("R8");
    reveal_strlit("R9");
    reveal_strlit("R10");
    reveal_strlit("R11");
    reveal_strlit("R12");
    reveal_strlit("R13");
    reveal_strlit("R14");
    reveal_strlit("R15");
    reveal_strlit("SP");
    reveal_strlit("LR");
    reveal_strlit("RA");
    reveal_strlit("PC");
    assert(outline("R0"@) == (2nat, 'R', '0', '0'));
    assert(outline("R1"@) == (2nat, 'R', '1', '1'));
    assert(outline("R2"@) == (2nat, 'R', '2', '2'));
    assert(outline("R3"@) == (2nat, 'R', '3', '3'));
    assert(outline("R4"@) == (2nat, 'R', '4', '4'));
    assert(outline("R5"@) == (2nat, 'R', '5', '5'));
    assert(outline("R6"@) == (2nat, 'R', '6', '6'));
    assert(outline("R7"@) == (2nat, 'R', '7', '7'));
    assert(outline("R8"@) == (2nat, 'R', '8', '8'));
    assert(outline("R9"@) == (2nat, 'R', '9', '9'));
    assert(outline("R10"@) == (3nat, 'R', '1', '0'));
    assert(outline("R11"@) == (3nat, 'R', '1', '1'));
    assert(outline("R12"@) == (3nat, 'R', '1', '2'));
    assert(outline("R13"@) == (3nat, 'R', '1', '3'));
    assert(outline("R14"@) == (3nat, 'R', '1', '4'));
    assert(outline("R15"@) == (3nat, 'R', '1', '5'));
    assert(outline("SP"@) == (2nat, 'S', 'P', 'P'));
    assert(outline("LR"@) == (2nat, 'L', 'R', 'R'));
    assert(outline("RA"@) == (2nat, 'R', 'A', 'A'));
    assert(outline("PC"@) == (2nat, 'P', 'C', 'C'));
    reveal_with_fuel(numeral, 3);
    if n == 0 {
        assert(seq!['R'] + dec(n) =~= "R0"@);
    }
    if n == 1 {
        assert(seq!['R'] + dec(n) =~= "R1"@);
    }
    if n == 2 {
        assert(seq!['R'] + dec(n) =~= "R2"@);
    }
    if n == 3 {
        assert(seq!['R'] + dec(n) =~= "R3"@);
    }
    if n == 4 {
        assert(seq!['R'] + dec(n) =~= "R4"@);
    }
    if n == 5 {
        assert(seq!['R'] + dec(n) =~= "R5"@);
    }
    if n == 6 {
        assert(seq!['R'] + dec(n) =~= "R6"@);
    }
    if n == 7 {
        assert(seq!['R'] + dec(n) =~= "R7"@);
    }
    if n == 8 {
        assert(seq!['R'] + dec(n) =~= "R8"@);
    }
    if n == 9 {
        assert(seq!['R'] + dec(n) =~= "R9"@);
    }
    if n == 10 {
        assert(seq!['R'] + dec(n) =~= "R10"@);
    }
    if n == 11 {
        assert(seq!['R'] + dec(n) =~= "R11"@);
    }
    if n == 12 {
        assert(seq!['R'] + dec(n) =~= "R12"@);
    }
    if n == 13 {
        assert(seq!['R'] + dec(n) =~= "R13"@);
    }
    if n == 14 {
        assert(seq!['R'] + dec(n) =~= "R14"@);
    }
    if n == 15 {
        assert(seq!['R'] + dec(n) =~= "R15"@);
    }
}

/// What is stated of a call stack and of a step up is stated of all that they hand
/// out: the frames in order, the registers, the address and the link.
pub proof fn law_stacks_are_seen_whole(
    r: Result<Vec<Frame>, BacktraceError>,
    s: Step<Walk>,
    i: int,
)
    ensures
        match r {
            Ok(v) => stack_view(r) matches Ok(a) && a.len() == v@.len() && (0 <= i < v@.len()
                ==> a[i] == v@[i].pc),
            Err(e) => stack_view(r) == Err::<Seq<u64>, _>(e),
        },
        match s {
            Step::Up(w) => step_view(s) matches Step::Up(x) && x.regs == w.regs@ && x.pc == w.pc
                && x.lr == w.lr,
            Step::Stop => step_view(s) is Stop,
            Step::Exception => step_view(s) is Exception,
        },
{
}

}
