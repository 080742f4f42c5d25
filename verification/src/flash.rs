//! Writing firmware into a chip: when an erase of the whole chip must be
//! confirmed, and how the progress is shown.
use vstd::prelude::*;
use crate::text::{chars_of, mentions, same_chars, same_text, trim, trim_of};

verus! {

// ---------------------------------------------------------------------------
// Confirmation
// ---------------------------------------------------------------------------

/// What is said before an erase of the whole chip is confirmed.
pub const ERASE_WARNING: &'static str =
    "⚠️  整片擦除将永久删除芯片全部 flash 内容，包括 bootloader！
   本仓库没有 bootloader 备份，擦除后无法恢复。
   确认执行请输入 yes：";

/// What is said where the erase was not confirmed.
pub const ERASE_CANCELLED: &'static str = "已取消，未执行擦除。";

/// What is said after the firmware was written and the core halted.
pub const FLASH_HINT: &'static str =
    "提示：调试器断开后内核从复位向量继续运行，新固件自动启动（未启动则重新上电或 debug 里 rst）";

/// Whether the user must confirm first.
pub fn must_confirm(erase_all: bool, assume_yes: bool) -> (r: bool)
    ensures
        r == (erase_all && !assume_yes),
{
    erase_all && !assume_yes
}

/// Whether the firmware is written: without an erase of the whole chip always,
/// with it only if the answer is `yes` or none is asked for.
pub open spec fn goes_ahead(erase_all: bool, assume_yes: bool, answer: Seq<char>) -> bool {
    erase_all && !assume_yes ==> trim(answer) == "yes"@
}

/// Decides whether the firmware is written. The answer counts only where it must
/// be asked for.
pub fn proceeds(erase_all: bool, assume_yes: bool, answer: &str) -> (r: bool)
    ensures
        r == goes_ahead(erase_all, assume_yes, answer@),
{
    if !must_confirm(erase_all, assume_yes) {
        return true;
    }
    let v: Vec<char> = chars_of(answer);
    let yes: Vec<char> = chars_of("yes");
    same_chars(trim_of(v.as_slice()), yes.as_slice())
}

/// A whole chip is never erased without a `yes`: of the user, or given with the
/// command. The sectors that the firmware takes need none.
pub proof fn law_erase_is_confirmed(erase_all: bool, assume_yes: bool, answer: Seq<char>)
    ensures
        erase_all && goes_ahead(erase_all, assume_yes, answer) ==> assume_yes || trim(answer)
            == "yes"@,
        !erase_all ==> goes_ahead(erase_all, assume_yes, answer),
{
}

/// What is said when the writing starts.
pub open spec fn start_report(image: Seq<char>, erase_all: bool) -> Seq<char> {
    "开始烧录 "@ + image + "（"@ + (if erase_all {
        "整片擦除"@
    } else {
        "扇区擦除"@
    }) + "）…"@
}

/// Writes what is said when the writing starts.
pub fn start_report_text(image: &str, erase_all: bool) -> (r: String)
    ensures
        r@ == start_report(image@, erase_all),
{
    let mut s: String = String::from_str("开始烧录 ");
    s.append(image);
    s.append("（");
    if erase_all {
        s.append("整片擦除");
    } else {
        s.append("扇区擦除");
    }
    s.append("）…");
    s
}

/// What is said when the firmware is in the chip. `elapsed` is the time that it
/// took, in seconds.
pub open spec fn done_report(elapsed: Seq<char>) -> Seq<char> {
    "烧录完成，耗时 "@ + elapsed + " 秒；芯片已复位并停在复位向量（未执行任何指令）"@
}

/// Writes what is said when the firmware is in the chip.
pub fn done_report_text(elapsed: &str) -> (r: String)
    ensures
        r@ == done_report(elapsed@),
{
    let mut s: String = String::from_str("烧录完成，耗时 ");
    s.append(elapsed);
    s.append(" 秒；芯片已复位并停在复位向量（未执行任何指令）");
    s
}

// ---------------------------------------------------------------------------
// Progress
// ---------------------------------------------------------------------------

/// A stage of the writing.
#[derive(Debug, Clone, Copy, PartialEq, Eq, Structural)]
pub enum Stage {
    /// Reading back what an erased sector keeps.
    Fill,
    /// Erasing.
    Erase,
    /// Writing.
    Program,
    /// Reading back.
    Verify,
}

impl Stage {
    /// What the stage is called.
    pub open spec fn label(self) -> Seq<char> {
        match self {
            Stage::Fill => "恢复保留区域"@,
            Stage::Erase => "擦除扇区"@,
            Stage::Program => "写入数据"@,
            Stage::Verify => "校验"@,
        }
    }

    /// The number of the stage.
    pub open spec fn number(self) -> int {
        match self {
            Stage::Fill => 0,
            Stage::Erase => 1,
            Stage::Program => 2,
            Stage::Verify => 3,
        }
    }

    /// What the stage is called.
    pub fn operation_name(&self) -> (r: &'static str)
        ensures
            r@ == self.label(),
    {
        match self {
            Stage::Fill => "恢复保留区域",
            Stage::Erase => "擦除扇区",
            Stage::Program => "写入数据",
            Stage::Verify => "校验",
        }
    }

    /// The number of the stage.
    pub fn op_index(&self) -> (r: usize)
        ensures
            r == self.number(),
            r < 4,
    {
        match self {
            Stage::Fill => 0,
            Stage::Erase => 1,
            Stage::Program => 2,
            Stage::Verify => 3,
        }
    }
}

/// What is heard of the writing. `T` is the form in which text is held.
#[derive(Debug)]
pub enum FlashEvent<T> {
    /// It is known what will be written where.
    LayoutReady,
    /// A stage is to come, with so many bytes where that is known.
    Planned(Stage, Option<u64>),
    /// A stage has begun.
    Started(Stage),
    /// A stage has done so many further bytes.
    Progress(Stage, u64),
    /// A stage is over.
    Finished(Stage),
    /// A stage has failed.
    Failed(Stage),
    /// The code that writes has something to say.
    Message(T),
}

impl View for FlashEvent<String> {
    type V = FlashEvent<Seq<char>>;

    open spec fn view(&self) -> FlashEvent<Seq<char>> {
        match *self {
            FlashEvent::LayoutReady => FlashEvent::LayoutReady,
            FlashEvent::Planned(s, n) => FlashEvent::Planned(s, n),
            FlashEvent::Started(s) => FlashEvent::Started(s),
            FlashEvent::Progress(s, n) => FlashEvent::Progress(s, n),
            FlashEvent::Finished(s) => FlashEvent::Finished(s),
            FlashEvent::Failed(s) => FlashEvent::Failed(s),
            FlashEvent::Message(t) => FlashEvent::Message(t@),
        }
    }
}

/// Whether progress bars can be shown: on a terminal that is not a dumb one. A
/// terminal whose kind is unknown counts as dumb.
pub open spec fn bars_work(terminal: bool, kind: Option<Seq<char>>) -> bool {
    terminal && (kind matches Some(t) && t.len() > 0 && t != "dumb"@)
}

/// Decides whether progress bars can be shown.
pub fn shows_bars(terminal: bool, kind: Option<&str>) -> (r: bool)
    ensures
        r == bars_work(
            terminal,
            match kind {
                Some(t) => Some(t@),
                None => None,
            },
        ),
{
    match kind {
        Some(t) => terminal && t.unicode_len() > 0 && !same_text(t, "dumb"),
        None => false,
    }
}

/// What the code that writes says, as a line.
pub open spec fn algorithm_line(message: Seq<char>) -> Seq<char> {
    "烧写算法消息："@ + message
}

fn algorithm_text(message: &str) -> (r: String)
    ensures
        r@ == algorithm_line(message@),
{
    let mut s: String = String::from_str("烧写算法消息：");
    s.append(message);
    s
}

/// That a stage has failed, as a line.
pub open spec fn failed_line(stage: Stage) -> Seq<char> {
    stage.label() + " 失败"@
}

fn failed_text(stage: Stage) -> (r: String)
    ensures
        r@ == failed_line(stage),
{
    let mut s: String = String::from_str(stage.operation_name());
    s.append(" 失败");
    s
}

/// The line that an event gives where there are no bars.
pub open spec fn plain_line(event: FlashEvent<Seq<char>>) -> Option<Seq<char>> {
    match event {
        FlashEvent::Started(s) => Some(s.label() + "…"@),
        FlashEvent::Finished(s) => Some(s.label() + " 完成"@),
        FlashEvent::Failed(s) => Some(failed_line(s)),
        FlashEvent::Message(t) => Some(algorithm_line(t)),
        _ => None,
    }
}

/// Writes the line that an event gives where there are no bars.
pub fn plain_progress(event: &FlashEvent<String>) -> (r: Option<String>)
    ensures
        match r {
            Some(t) => plain_line(event@) == Some(t@),
            None => plain_line(event@) is None,
        },
{
    match event {
        FlashEvent::Started(s) => {
            let mut t: String = String::from_str(s.operation_name());
            t.append("…");
            Some(t)
        },
        FlashEvent::Finished(s) => {
            let mut t: String = String::from_str(s.operation_name());
            t.append(" 完成");
            Some(t)
        },
        FlashEvent::Failed(s) => Some(failed_text(*s)),
        FlashEvent::Message(t) => Some(algorithm_text(t.as_str())),
        _ => None,
    }
}

/// What is done to the bars. `T` is the form in which text is held.
#[derive(Debug)]
pub enum BarAction<T> {
    /// Nothing.
    Keep,
    /// A stage gets a bar of so many bytes; a bar that it had is dropped.
    AddSized(Stage, u64),
    /// A stage gets a bar of unknown length; a bar that it had is dropped.
    AddSpinner(Stage),
    /// The bar of a stage moves on by so many bytes.
    Advance(Stage, u64),
    /// The bar of a stage is taken off the screen.
    Clear(Stage),
    /// The bar of a stage stops with a text.
    StopWith(Stage, T),
    /// A line is written above the bars.
    Print(T),
}

impl View for BarAction<String> {
    type V = BarAction<Seq<char>>;

    open spec fn view(&self) -> BarAction<Seq<char>> {
        match *self {
            BarAction::Keep => BarAction::Keep,
            BarAction::AddSized(s, n) => BarAction::AddSized(s, n),
            BarAction::AddSpinner(s) => BarAction::AddSpinner(s),
            BarAction::Advance(s, n) => BarAction::Advance(s, n),
            BarAction::Clear(s) => BarAction::Clear(s),
            BarAction::StopWith(s, t) => BarAction::StopWith(s, t@),
            BarAction::Print(t) => BarAction::Print(t@),
        }
    }
}

/// Which stages have a bar.
#[derive(Debug)]
pub struct Bars {
    /// One entry for each stage, by its number.
    pub shown: Vec<bool>,
}

/// What an event does to the bars, where `shown` says which stages have one.
pub open spec fn bar_action(shown: Seq<bool>, event: FlashEvent<Seq<char>>) -> BarAction<
    Seq<char>,
> {
    match event {
        FlashEvent::LayoutReady => BarAction::Keep,
        FlashEvent::Planned(s, Some(n)) => BarAction::AddSized(s, n),
        FlashEvent::Planned(s, None) => BarAction::AddSpinner(s),
        FlashEvent::Started(s) => if shown[s.number()] {
            BarAction::Keep
        } else {
            BarAction::AddSpinner(s)
        },
        FlashEvent::Progress(s, n) => if shown[s.number()] {
            BarAction::Advance(s, n)
        } else {
            BarAction::Keep
        },
        FlashEvent::Finished(s) => if shown[s.number()] {
            BarAction::Clear(s)
        } else {
            BarAction::Keep
        },
        FlashEvent::Failed(s) => if shown[s.number()] {
            BarAction::StopWith(s, failed_line(s))
        } else {
            BarAction::Keep
        },
        FlashEvent::Message(t) => BarAction::Print(algorithm_line(t)),
    }
}

/// Which stages have a bar after an action.
pub open spec fn bars_after(shown: Seq<bool>, action: BarAction<Seq<char>>) -> Seq<bool> {
    match action {
        BarAction::AddSized(s, _) => shown.update(s.number(), true),
        BarAction::AddSpinner(s) => shown.update(s.number(), true),
        BarAction::Clear(s) => shown.update(s.number(), false),
        BarAction::StopWith(s, _) => shown.update(s.number(), false),
        _ => shown,
    }
}

impl Bars {
    /// There is an entry for each stage.
    pub open spec fn wf(self) -> bool {
        self.shown@.len() == 4
    }

    /// No bars.
    pub fn none() -> (r: Bars)
        ensures
            r.wf(),
            r.shown@ == seq![false, false, false, false],
    {
        let mut shown: Vec<bool> = Vec::new();
        shown.push(false);
        shown.push(false);
        shown.push(false);
        shown.push(false);
        assert(shown@ =~= seq![false, false, false, false]);
        Bars { shown }
    }

    /// Takes an event in and decides what is done to the bars.
    pub fn progress_with_bars(&mut self, event: &FlashEvent<String>) -> (r: BarAction<String>)
        requires
            old(self).wf(),
        ensures
            final(self).wf(),
            r@ == bar_action(old(self).shown@, event@),
            final(self).shown@ == bars_after(old(self).shown@, r@),
    {
        match event {
            FlashEvent::LayoutReady => BarAction::Keep,
            FlashEvent::Planned(s, total) => {
                self.shown.set(s.op_index(), true);
                match total {
                    Some(n) => BarAction::AddSized(*s, *n),
                    None => BarAction::AddSpinner(*s),
                }
            },
            FlashEvent::Started(s) => {
                let i: usize = s.op_index();
                if self.shown[i] {
                    return BarAction::Keep;
                }
                self.shown.set(i, true);
                BarAction::AddSpinner(*s)
            },
            FlashEvent::Progress(s, n) => {
                if self.shown[s.op_index()] {
                    BarAction::Advance(*s, *n)
                } else {
                    BarAction::Keep
                }
            },
            FlashEvent::Finished(s) => {
                let i: usize = s.op_index();
                if !self.shown[i] {
                    return BarAction::Keep;
                }
                self.shown.set(i, false);
                BarAction::Clear(*s)
            },
            FlashEvent::Failed(s) => {
                let i: usize = s.op_index();
                if !self.shown[i] {
                    return BarAction::Keep;
                }
                self.shown.set(i, false);
                BarAction::StopWith(*s, failed_text(*s))
            },
            FlashEvent::Message(t) => BarAction::Print(algorithm_text(t.as_str())),
        }
    }
}

/// A stage that has begun has a bar, whether or not it was planned, until it is
/// over or has failed. What happens to one stage leaves the bars of the others
/// alone.
pub proof fn law_begun_stages_have_bars(shown: Seq<bool>, stage: Stage, other: Stage, size: u64)
    requires
        shown.len() == 4,
        stage != other,
    ensures
        ({
            let started = FlashEvent::<Seq<char>>::Started(stage);
            let progress = FlashEvent::<Seq<char>>::Progress(stage, size);
            let finished = FlashEvent::<Seq<char>>::Finished(stage);
            let failed = FlashEvent::<Seq<char>>::Failed(stage);
            let begun = bars_after(shown, bar_action(shown, started));
            &&& begun[stage.number()]
            &&& bars_after(begun, bar_action(begun, progress))[stage.number()]
            &&& bar_action(begun, progress) == BarAction::<Seq<char>>::Advance(stage, size)
            &&& !bars_after(begun, bar_action(begun, finished))[stage.number()]
            &&& !bars_after(begun, bar_action(begun, failed))[stage.number()]
            &&& begun[other.number()] == shown[other.number()]
            &&& bars_after(begun, bar_action(begun, finished))[other.number()]
                == shown[other.number()]
            &&& bars_after(begun, bar_action(begun, failed))[other.number()]
                == shown[other.number()]
        }),
{
}

/// Progress moves the bar of its stage by as much as was done, and no other; a
/// bar stands from the plan or the start of its stage to its end, and a failure
/// takes it away with a word on it.
pub proof fn law_bars_follow_their_stage(shown: Seq<bool>, stage: Stage, other: Stage, n: u64)
    requires
        shown.len() == 4,
        stage != other,
    ensures
        shown[stage.number()] ==> bar_action(shown, FlashEvent::Progress(stage, n))
            == BarAction::<Seq<char>>::Advance(stage, n),
        bar_action(shown, FlashEvent::Planned(stage, Some(n))) == BarAction::<Seq<char>>::AddSized(
            stage,
            n,
        ),
        shown[stage.number()] ==> bar_action(shown, FlashEvent::Finished(stage)) == BarAction::<
            Seq<char>,
        >::Clear(stage),
        shown[stage.number()] ==> bar_action(shown, FlashEvent::Failed(stage)) is StopWith,
        stage.number() != other.number(),
        0 <= stage.number() < 4,
        forall|e: FlashEvent<Seq<char>>|
            (e == FlashEvent::<Seq<char>>::Started(stage) || e == FlashEvent::<
                Seq<char>,
            >::Finished(stage) || e == FlashEvent::<Seq<char>>::Failed(stage)) ==> bars_after(
                shown,
                #[trigger] bar_action(shown, e),
            )[other.number()] == shown[other.number()],
{
}

/// Bars are shown on a terminal of a known kind that is not a dumb one. Elsewhere
/// the start, the end and the failure of a stage have a line with its name, and so
/// has what the code that writes says.
pub proof fn law_progress_without_bars(terminal: bool, kind: Seq<char>, stage: Stage, t: Seq<char>)
    ensures
        !bars_work(false, Some(kind)),
        !bars_work(terminal, None),
        !bars_work(terminal, Some("dumb"@)),
        kind.len() > 0 && kind != "dumb"@ ==> bars_work(true, Some(kind)),
        plain_line(FlashEvent::Started(stage)) == Some(stage.label() + "…"@),
        plain_line(FlashEvent::Finished(stage)) == Some(stage.label() + " 完成"@),
        plain_line(FlashEvent::Failed(stage)) == Some(stage.label() + " 失败"@),
        plain_line(FlashEvent::Message(t)) matches Some(line) && mentions(line, t),
        Stage::Fill.label() == "恢复保留区域"@,
        Stage::Erase.label() == "擦除扇区"@,
        Stage::Program.label() == "写入数据"@,
        Stage::Verify.label() == "校验"@,
{
    let none = Seq::<char>::empty();
    let line = algorithm_line(t);
    assert(line =~= "烧写算法消息："@ + t + none);
}

/// The report of the start names the image and tells whether the whole chip is
/// erased; that of the end tells the time that it took.
pub proof fn law_reports_of_writing(image: Seq<char>, elapsed: Seq<char>)
    ensures
        mentions(start_report(image, true), image),
        mentions(start_report(image, false), image),
        mentions(start_report(image, true), "整片擦除"@),
        mentions(start_report(image, false), "扇区擦除"@),
        mentions(done_report(elapsed), elapsed),
{
    let a = "开始烧录 "@;
    let end = "）…"@;
    let whole = "（"@ + "整片擦除"@ + end;
    let sectors = "（"@ + "扇区擦除"@ + end;
    assert(start_report(image, true) =~= a + image + whole);
    assert(start_report(image, false) =~= a + image + sectors);
    assert(start_report(image, true) =~= (a + image + "（"@) + "整片擦除"@ + end);
    assert(start_report(image, false) =~= (a + image + "（"@) + "扇区擦除"@ + end);
    assert(done_report(elapsed) =~= "烧录完成，耗时 "@ + elapsed
        + " 秒；芯片已复位并停在复位向量（未执行任何指令）"@);
}

}
