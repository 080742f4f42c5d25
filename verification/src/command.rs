//! The commands of the debugging prompt: what a typed line asks for, what each
//! command needs, and how the prompt goes on afterwards.
use vstd::prelude::*;
use crate::number::{dec, law_numeral_read_back, read_usize, unsigned_value};
use crate::text::{
    chars_of, hollow, is_white_space, law_words_come_in_order, same_text, solid, views, words,
    words_of,
};

verus! {

/// How many frames a backtrace shows unless a number is given.
pub const DEFAULT_FRAMES: usize = 20;

/// The function that a reset runs to unless one is given.
pub const DEFAULT_RESET_TARGET: &'static str = "main";

/// What the prompt says before the first command.
pub const GREETING: &'static str =
    "tscope 调试会话已建立。输入 help 查看命令，q 退出。
提示：halt/step/regs/pc 会自动暂停运行中的内核（暂停后保持，run 恢复运行）；bp 命中后内核保持暂停。
行编辑：左右光标移动，↑/↓ 翻阅历史命令（跨会话保存）。
plot 曲线窗口与 watch 监视窗口异步运行：REPL 不阻塞，曲线滚动跟随内核运行状态；两者可同时打开。";

/// What the prompt says after the last command.
pub const FAREWELL: &'static str = "已退出调试会话";

/// What the prompt says to an interrupt from the keyboard.
pub const INTERRUPT_HINT: &'static str = "（Ctrl-C：输入 q 退出会话）";

/// The list of commands.
pub const HELP: &'static str = "可用命令：
  bp <目标>          添加断点：地址 / 函数名 / 文件:行号（bp foc.c:123）
  bl                 列出所有断点（含硬件断点占用情况）
  bc <编号|all>      删除断点，如 bc 1 / bc all
  run                全速运行（continue / c 同义）；有断点时命中停下并报现场
  halt               暂停内核
  step               单步一行源码（s/next/n 同义）；函数末尾自动走出，
                     中断函数末尾自动越过异常返回（回到被打断的代码）
  stepi              单步一条机器指令（si 同义；-O2 下行号会跳）
  finish             运行到当前函数返回（f / fin 同义；中断函数回到被打断处）
  reset [函数名]     复位并暂停在函数开头，默认 main（rst 同义）
  regs               导出全部内核寄存器
  pc                 打印 PC / SP / LR 及所在位置（文件:行号 + 函数）
  bt [帧数]          打印函数调用栈（backtrace 同义；默认最多 20 帧）
  list [文件:行号]   显示当前 PC 附近源码；带参数显示指定位置（l 同义）
  var <表达式>       一次性读取全局变量（与 var 子命令相同）
  watch [组名]       GUI 窗口显示监视组（w 同义；异步：不阻塞命令输入；
                      可与 plot 同时打开；不带参数列出所有组）
  plot [配置名]      GUI 窗口显示曲线（异步：不阻塞命令输入，曲线滚动跟随
                      内核运行状态；可与 watch 同时打开；不带参数列出所有配置）
  help               显示本帮助
  q                  退出调试会话（quit / exit 同义）

断点目标三种写法：0x08004200（十六进制地址）/ main（函数名）/
foc.c:123（文件:行号）。文件路径支持完整路径、后缀、文件名匹配。
函数名与行号都从 firmware.elf 解析；静态函数与局部变量不在符号表里。
断点数量上限 = 芯片硬件断点数（本芯片 8 个）；芯片复位会清空断点，
tscope 会自动恢复，无需重新 bp。";

/// A command whose argument is missing.
#[derive(Debug, Clone, Copy, PartialEq, Eq, Structural)]
pub enum Usage {
    /// `bp` without a target.
    BreakAdd,
    /// `bc` without a number.
    BreakClear,
    /// `var` without an expression.
    Variable,
}

impl Usage {
    /// How the command is written.
    pub open spec fn text(self) -> Seq<char> {
        match self {
            Usage::BreakAdd => "用法：bp <地址|函数名|文件:行号>，如 bp main / bp 0x08004200 / bp foc.c:123"@,
            Usage::BreakClear => "用法：bc <断点编号|all>，如 bc 1 / bc all"@,
            Usage::Variable => "用法：var <表达式>，如 var theta_ref 或 var ENC_1_POS_SENSOR.readAngleCmd"@,
        }
    }

    /// How the command is written.
    pub fn message(&self) -> (r: &'static str)
        ensures
            r@ == self.text(),
    {
        match self {
            Usage::BreakAdd => "用法：bp <地址|函数名|文件:行号>，如 bp main / bp 0x08004200 / bp foc.c:123",
            Usage::BreakClear => "用法：bc <断点编号|all>，如 bc 1 / bc all",
            Usage::Variable => "用法：var <表达式>，如 var theta_ref 或 var ENC_1_POS_SENSOR.readAngleCmd",
        }
    }
}

/// What a line asks for. `T` is the form in which text is held.
#[derive(Debug)]
pub enum Command<T> {
    /// Nothing: the line is blank.
    Blank,
    /// The list of commands.
    Help,
    /// The end of the session.
    Quit,
    /// Halting the core.
    Halt,
    /// Letting the core run.
    Run,
    /// A step to another source line.
    Step,
    /// A step of one instruction.
    StepInstruction,
    /// Running until the function returns.
    Finish,
    /// All core registers.
    Registers,
    /// Where the core stands.
    Position,
    /// The call stack, with at most so many frames.
    Backtrace(usize),
    /// The source around the program counter.
    ListCurrent,
    /// The source at a place.
    ListAt(T),
    /// A reset that stops at the start of a function.
    Reset(T),
    /// A new breakpoint.
    BreakAdd(T),
    /// The breakpoints.
    BreakList,
    /// The end of a breakpoint, or of all.
    BreakClear(T),
    /// The value of a variable.
    Variable(T),
    /// The names of the watch groups.
    WatchList,
    /// A window on a watch group.
    Watch(T),
    /// The names of the plots.
    PlotList,
    /// A window with a plot.
    Plot(T),
    /// A command without the argument that it needs.
    Incomplete(Usage),
    /// A word that is no command.
    Unknown(T),
}

impl View for Command<String> {
    type V = Command<Seq<char>>;

    open spec fn view(&self) -> Command<Seq<char>> {
        match *self {
            Command::Blank => Command::Blank,
            Command::Help => Command::Help,
            Command::Quit => Command::Quit,
            Command::Halt => Command::Halt,
            Command::Run => Command::Run,
            Command::Step => Command::Step,
            Command::StepInstruction => Command::StepInstruction,
            Command::Finish => Command::Finish,
            Command::Registers => Command::Registers,
            Command::Position => Command::Position,
            Command::Backtrace(n) => Command::Backtrace(n),
            Command::ListCurrent => Command::ListCurrent,
            Command::ListAt(t) => Command::ListAt(t@),
            Command::Reset(t) => Command::Reset(t@),
            Command::BreakAdd(t) => Command::BreakAdd(t@),
            Command::BreakList => Command::BreakList,
            Command::BreakClear(t) => Command::BreakClear(t@),
            Command::Variable(t) => Command::Variable(t@),
            Command::WatchList => Command::WatchList,
            Command::Watch(t) => Command::Watch(t@),
            Command::PlotList => Command::PlotList,
            Command::Plot(t) => Command::Plot(t@),
            Command::Incomplete(u) => Command::Incomplete(u),
            Command::Unknown(t) => Command::Unknown(t@),
        }
    }
}

/// The number of frames that the argument of `bt` asks for. What is no number
/// asks for the usual one.
pub open spec fn frame_limit(arg: Option<Seq<char>>) -> usize {
    match arg {
        Some(a) => match unsigned_value(a, 10, usize::MAX as nat) {
            Ok(n) => n as usize,
            Err(_) => DEFAULT_FRAMES,
        },
        None => DEFAULT_FRAMES,
    }
}

/// What a command word with its argument asks for.
pub open spec fn word_command(word: Seq<char>, arg: Option<Seq<char>>) -> Command<Seq<char>> {
    if word == "help"@ || word == "h"@ || word == "?"@ {
        Command::Help
    } else if word == "q"@ || word == "quit"@ || word == "exit"@ {
        Command::Quit
    } else if word == "halt"@ {
        Command::Halt
    } else if word == "run"@ || word == "continue"@ || word == "c"@ {
        Command::Run
    } else if word == "step"@ || word == "s"@ || word == "next"@ || word == "n"@ {
        Command::Step
    } else if word == "stepi"@ || word == "si"@ {
        Command::StepInstruction
    } else if word == "finish"@ || word == "fin"@ || word == "f"@ {
        Command::Finish
    } else if word == "regs"@ {
        Command::Registers
    } else if word == "pc"@ {
        Command::Position
    } else if word == "bt"@ || word == "backtrace"@ {
        Command::Backtrace(frame_limit(arg))
    } else if word == "list"@ || word == "l"@ {
        match arg {
            Some(a) => Command::ListAt(a),
            None => Command::ListCurrent,
        }
    } else if word == "reset"@ || word == "rst"@ {
        match arg {
            Some(a) => Command::Reset(a),
            None => Command::Reset(DEFAULT_RESET_TARGET@),
        }
    } else if word == "bp"@ {
        match arg {
            Some(a) => Command::BreakAdd(a),
            None => Command::Incomplete(Usage::BreakAdd),
        }
    } else if word == "bl"@ {
        Command::BreakList
    } else if word == "bc"@ {
        match arg {
            Some(a) => Command::BreakClear(a),
            None => Command::Incomplete(Usage::BreakClear),
        }
    } else if word == "var"@ {
        match arg {
            Some(a) => Command::Variable(a),
            None => Command::Incomplete(Usage::Variable),
        }
    } else if word == "watch"@ || word == "w"@ {
        match arg {
            Some(a) => Command::Watch(a),
            None => Command::WatchList,
        }
    } else if word == "plot"@ {
        match arg {
            Some(a) => Command::Plot(a),
            None => Command::PlotList,
        }
    } else {
        Command::Unknown(word)
    }
}

/// What a line asks for: its first word is the command, its second the
/// argument, and the rest counts for nothing.
pub open spec fn line_command(line: Seq<char>) -> Command<Seq<char>> {
    let w = words(line);
    if w.len() == 0 {
        Command::Blank
    } else {
        word_command(
            w[0],
            if w.len() > 1 {
                Some(w[1])
            } else {
                None
            },
        )
    }
}

fn copied(arg: &String) -> (r: String)
    ensures
        r@ == arg@,
{
    String::from_str(arg.as_str())
}

fn frames(arg: Option<&String>) -> (r: usize)
    ensures
        r == frame_limit(
            match arg {
                Some(a) => Some(a@),
                None => None,
            },
        ),
{
    match arg {
        Some(a) => {
            let digits: Vec<char> = chars_of(a.as_str());
            match read_usize(digits.as_slice()) {
                Ok(n) => n,
                Err(_) => DEFAULT_FRAMES,
            }
        },
        None => DEFAULT_FRAMES,
    }
}

/// Reads a line.
pub fn parse_command(line: &str) -> (r: Command<String>)
    ensures
        r@ == line_command(line@),
{
    let chars: Vec<char> = chars_of(line);
    let list: Vec<String> = words_of(chars.as_slice());
    if list.len() == 0 {
        assert(words(line@).len() == 0);
        return Command::Blank;
    }
    assert(words(line@)[0] == views(list@)[0]);
    let arg: Option<&String> = if list.len() > 1 {
        assert(words(line@)[1] == views(list@)[1]);
        Some(&list[1])
    } else {
        None
    };
    read_word(list[0].as_str(), arg)
}

fn read_word(word: &str, arg: Option<&String>) -> (r: Command<String>)
    ensures
        r@ == word_command(
            word@,
            match arg {
                Some(a) => Some(a@),
                None => None,
            },
        ),
{
    if same_text(word, "help") || same_text(word, "h") || same_text(word, "?") {
        Command::Help
    } else if same_text(word, "q") || same_text(word, "quit") || same_text(word, "exit") {
        Command::Quit
    } else if same_text(word, "halt") {
        Command::Halt
    } else if same_text(word, "run") || same_text(word, "continue") || same_text(word, "c") {
        Command::Run
    } else if same_text(word, "step") || same_text(word, "s") || same_text(word, "next")
        || same_text(word, "n") {
        Command::Step
    } else if same_text(word, "stepi") || same_text(word, "si") {
        Command::StepInstruction
    } else if same_text(word, "finish") || same_text(word, "fin") || same_text(word, "f") {
        Command::Finish
    } else if same_text(word, "regs") {
        Command::Registers
    } else if same_text(word, "pc") {
        Command::Position
    } else if same_text(word, "bt") || same_text(word, "backtrace") {
        Command::Backtrace(frames(arg))
    } else if same_text(word, "list") || same_text(word, "l") {
        match arg {
            Some(a) => Command::ListAt(copied(a)),
            None => Command::ListCurrent,
        }
    } else if same_text(word, "reset") || same_text(word, "rst") {
        match arg {
            Some(a) => Command::Reset(copied(a)),
            None => Command::Reset(String::from_str(DEFAULT_RESET_TARGET)),
        }
    } else if same_text(word, "bp") {
        match arg {
            Some(a) => Command::BreakAdd(copied(a)),
            None => Command::Incomplete(Usage::BreakAdd),
        }
    } else if same_text(word, "bl") {
        Command::BreakList
    } else if same_text(word, "bc") {
        match arg {
            Some(a) => Command::BreakClear(copied(a)),
            None => Command::Incomplete(Usage::BreakClear),
        }
    } else if same_text(word, "var") {
        match arg {
            Some(a) => Command::Variable(copied(a)),
            None => Command::Incomplete(Usage::Variable),
        }
    } else if same_text(word, "watch") || same_text(word, "w") {
        match arg {
            Some(a) => Command::Watch(copied(a)),
            None => Command::WatchList,
        }
    } else if same_text(word, "plot") {
        match arg {
            Some(a) => Command::Plot(copied(a)),
            None => Command::PlotList,
        }
    } else {
        Command::Unknown(String::from_str(word))
    }
}

// ---------------------------------------------------------------------------
// The prompt
// ---------------------------------------------------------------------------

impl Command<Seq<char>> {
    /// What a command says that cannot do without a firmware image.
    pub open spec fn image_demand(self) -> Option<Seq<char>> {
        match self {
            Command::Reset(_) => Some(
                "reset 需要固件镜像（firmware.elf / firmware.axf）来解析函数地址（复位后暂停在函数开头）"@,
            ),
            Command::Variable(_) => Some(
                "配置里没有可用的固件镜像（firmware.elf / firmware.axf），无法解析符号"@,
            ),
            Command::Finish => Some("finish 需要固件镜像（展开信息）"@),
            Command::Backtrace(_) => Some("bt 需要固件镜像（.debug_frame 栈展开表）"@),
            Command::ListCurrent => Some("list 需要固件镜像来反查当前源码位置"@),
            _ => None,
        }
    }
}

impl Command<String> {
    /// What this command says where there is no firmware image, if it cannot do
    /// without one.
    pub fn needs_image(&self) -> (r: Option<&'static str>)
        ensures
            match r {
                Some(t) => self@.image_demand() == Some(t@),
                None => self@.image_demand() is None,
            },
    {
        match self {
            Command::Reset(_) => Some(
                "reset 需要固件镜像（firmware.elf / firmware.axf）来解析函数地址（复位后暂停在函数开头）",
            ),
            Command::Variable(_) => Some(
                "配置里没有可用的固件镜像（firmware.elf / firmware.axf），无法解析符号",
            ),
            Command::Finish => Some("finish 需要固件镜像（展开信息）"),
            Command::Backtrace(_) => Some("bt 需要固件镜像（.debug_frame 栈展开表）"),
            Command::ListCurrent => Some("list 需要固件镜像来反查当前源码位置"),
            _ => None,
        }
    }
}

/// What reaches the prompt. `T` is the form in which text is held.
#[derive(Debug)]
pub enum Input<T> {
    /// A line.
    Line(T),
    /// Nothing within the time that the prompt waits.
    Silence,
    /// The end of the input.
    End,
}

impl View for Input<String> {
    type V = Input<Seq<char>>;

    open spec fn view(&self) -> Input<Seq<char>> {
        match *self {
            Input::Line(t) => Input::Line(t@),
            Input::Silence => Input::Silence,
            Input::End => Input::End,
        }
    }
}

/// What the prompt does next. `T` is the form in which text is held.
#[derive(Debug)]
pub enum Turn<T> {
    /// It ends the session.
    Leave,
    /// It looks after the open windows only.
    Idle,
    /// It asks for the next line.
    Prompt,
    /// It carries a command out, reports a failure of it, and asks for the next
    /// line.
    Execute(Command<T>),
}

impl View for Turn<String> {
    type V = Turn<Seq<char>>;

    open spec fn view(&self) -> Turn<Seq<char>> {
        match *self {
            Turn::Leave => Turn::Leave,
            Turn::Idle => Turn::Idle,
            Turn::Prompt => Turn::Prompt,
            Turn::Execute(c) => Turn::Execute(c@),
        }
    }
}

/// What an input makes the prompt do.
pub open spec fn turn_for(input: Input<Seq<char>>) -> Turn<Seq<char>> {
    match input {
        Input::End => Turn::Leave,
        Input::Silence => Turn::Idle,
        Input::Line(line) => match line_command(line) {
            Command::Blank => Turn::Prompt,
            Command::Quit => Turn::Leave,
            c => Turn::Execute(c),
        },
    }
}

/// Decides what an input makes the prompt do. Only the end of the input and the
/// command to leave end the session.
pub fn next_turn(input: &Input<String>) -> (r: Turn<String>)
    ensures
        r@ == turn_for(input@),
{
    match input {
        Input::End => Turn::Leave,
        Input::Silence => Turn::Idle,
        Input::Line(line) => {
            let c: Command<String> = parse_command(line.as_str());
            match c {
                Command::Blank => Turn::Prompt,
                Command::Quit => Turn::Leave,
                _ => Turn::Execute(c),
            }
        },
    }
}

/// A session goes on whatever a command comes to: only the end of the input and a
/// line that starts with one of the words for leaving end it.
pub proof fn law_only_leaving_ends_a_session(input: Input<Seq<char>>)
    ensures
        turn_for(input) is Leave <==> (input is End || (input matches Input::Line(line) && words(
            line,
        ).len() > 0 && (words(line)[0] == "q"@ || words(line)[0] == "quit"@ || words(line)[0]
            == "exit"@))),
{
    reveal_strlit("help");
    reveal_strlit("h");
    reveal_strlit("?");
    reveal_strlit("q");
    reveal_strlit("quit");
    reveal_strlit("exit");
    assert("help"@.len() == 4 && "quit"@.len() == 4 && "exit"@.len() == 4);
    assert("help"@[0] == 'h' && "quit"@[0] == 'q' && "exit"@[0] == 'e');
    assert("h"@[0] == 'h' && "?"@[0] == '?' && "q"@[0] == 'q');
}

/// A window beside the prompt.
#[derive(Debug, Clone, Copy, PartialEq, Eq, Structural)]
pub enum WindowKind {
    /// A plot.
    Plot,
    /// A watch group.
    Watch,
}

/// The open windows: at most one of each kind.
#[derive(Debug, Clone, Copy, PartialEq, Eq, Structural)]
pub struct Windows {
    /// Whether a plot is open.
    pub plot: bool,
    /// Whether a watch group is open.
    pub watch: bool,
}

impl Windows {
    /// Whether a window of a kind is open.
    pub open spec fn has(self, kind: WindowKind) -> bool {
        match kind {
            WindowKind::Plot => self.plot,
            WindowKind::Watch => self.watch,
        }
    }

    /// The windows where those of one kind are set to `open`.
    pub open spec fn with(self, kind: WindowKind, open: bool) -> Windows {
        match kind {
            WindowKind::Plot => Windows { plot: open, watch: self.watch },
            WindowKind::Watch => Windows { plot: self.plot, watch: open },
        }
    }

    /// No window.
    pub fn none() -> (r: Windows)
        ensures
            r == (Windows { plot: false, watch: false }),
    {
        Windows { plot: false, watch: false }
    }

    /// Whether a window of a kind is open.
    pub fn is_open(&self, kind: WindowKind) -> (r: bool)
        ensures
            r == self.has(kind),
    {
        match kind {
            WindowKind::Plot => self.plot,
            WindowKind::Watch => self.watch,
        }
    }

    /// How long the prompt waits for a line, in milliseconds: while a window is
    /// open only until its next sample may be due, else without end.
    pub fn patience(&self) -> (r: Option<u64>)
        ensures
            r == if self.has(WindowKind::Plot) || self.has(WindowKind::Watch) {
                Some(10u64)
            } else {
                None
            },
    {
        if self.plot || self.watch {
            Some(10)
        } else {
            None
        }
    }

    /// Opens a window, unless one of its kind is open already: then the windows
    /// stay as they are and the result says why.
    pub fn open(&mut self, kind: WindowKind) -> (r: Result<&'static str, &'static str>)
        ensures
            match r {
                Ok(t) => !old(self).has(kind) && *final(self) == old(self).with(kind, true) && t@
                    == opened_text(kind),
                Err(t) => old(self).has(kind) && *final(self) == *old(self) && t@ == taken_text(
                    kind,
                ),
            },
    {
        match kind {
            WindowKind::Plot => {
                if self.plot {
                    return Err("已有曲线窗口打开（一次只支持一个）；关闭后再试");
                }
                self.plot = true;
                Ok(
                    "曲线窗口已打开（异步）：REPL 可继续输入命令；曲线滚动跟随内核运行状态；关窗自动停止",
                )
            },
            WindowKind::Watch => {
                if self.watch {
                    return Err("已有监视窗口打开（一次只支持一个）；关闭后再试");
                }
                self.watch = true;
                Ok("监视窗口已打开（异步）：REPL 可继续输入命令；关窗自动停止")
            },
        }
    }

    /// Takes note that the window of a kind is gone, and says so where one was
    /// open.
    pub fn close(&mut self, kind: WindowKind) -> (r: Option<&'static str>)
        ensures
            *final(self) == old(self).with(kind, false),
            match r {
                Some(t) => old(self).has(kind) && t@ == closed_text(kind),
                None => !old(self).has(kind),
            },
    {
        match kind {
            WindowKind::Plot => {
                let was: bool = self.plot;
                self.plot = false;
                if was {
                    Some("曲线窗口已关闭，停止采样")
                } else {
                    None
                }
            },
            WindowKind::Watch => {
                let was: bool = self.watch;
                self.watch = false;
                if was {
                    Some("监视窗口已关闭，停止采样")
                } else {
                    None
                }
            },
        }
    }
}

/// What is said when a window opens.
pub open spec fn opened_text(kind: WindowKind) -> Seq<char> {
    match kind {
        WindowKind::Plot => "曲线窗口已打开（异步）：REPL 可继续输入命令；曲线滚动跟随内核运行状态；关窗自动停止"@,
        WindowKind::Watch => "监视窗口已打开（异步）：REPL 可继续输入命令；关窗自动停止"@,
    }
}

/// What is said where a window of the kind is open already.
pub open spec fn taken_text(kind: WindowKind) -> Seq<char> {
    match kind {
        WindowKind::Plot => "已有曲线窗口打开（一次只支持一个）；关闭后再试"@,
        WindowKind::Watch => "已有监视窗口打开（一次只支持一个）；关闭后再试"@,
    }
}

/// What is said when a window is gone.
pub open spec fn closed_text(kind: WindowKind) -> Seq<char> {
    match kind {
        WindowKind::Plot => "曲线窗口已关闭，停止采样"@,
        WindowKind::Watch => "监视窗口已关闭，停止采样"@,
    }
}

/// What is said of a word that is no command.
pub open spec fn unknown_command(word: Seq<char>) -> Seq<char> {
    "未知命令 "@ + word + "（help 查看命令列表）"@
}

/// Writes what is said of a word that is no command.
pub fn unknown_command_text(word: &str) -> (r: String)
    ensures
        r@ == unknown_command(word@),
{
    let mut s: String = String::from_str("未知命令 ");
    s.append(word);
    s.append("（help 查看命令列表）");
    s
}

/// The two kinds of windows do not get in each other's way: opening or closing
/// one leaves the other as it was. A kind whose window was closed can be opened
/// again.
pub proof fn law_windows_are_independent(w: Windows, kind: WindowKind, other: WindowKind, open: bool)
    requires
        kind != other,
    ensures
        w.with(kind, open).has(other) == w.has(other),
        w.with(kind, open).has(kind) == open,
        w.with(kind, true).with(kind, false).with(kind, true) == w.with(kind, true),
{
}

/// What tells the words of the commands apart: the length, and the first and the
/// second character.
spec fn outline(t: Seq<char>) -> (nat, char, char) {
    (
        t.len(),
        t[0],
        if t.len() > 1 {
            t[1]
        } else {
            t[0]
        },
    )
}

/// The words of the commands: each asks for its own command, with the argument
/// that follows it. The number behind `bt` limits the frames, which are otherwise
/// twenty.
pub proof fn law_words_of_commands(word: Seq<char>, arg: Option<Seq<char>>, n: nat)
    requires
        n <= usize::MAX,
    ensures
        word_command(word, arg) is Help <==> word == "help"@ || word == "h"@ || word == "?"@,
        word_command(word, arg) is Quit <==> word == "q"@ || word == "quit"@ || word == "exit"@,
        word_command(word, arg) is Halt <==> word == "halt"@,
        word_command(word, arg) is Run <==> word == "run"@ || word == "continue"@ || word == "c"@,
        word_command(word, arg) is Step <==> word == "step"@ || word == "s"@ || word == "next"@ || word == "n"@,
        word_command(word, arg) is StepInstruction <==> word == "stepi"@ || word == "si"@,
        word_command(word, arg) is Finish <==> word == "finish"@ || word == "fin"@ || word == "f"@,
        word_command(word, arg) is Registers <==> word == "regs"@,
        word_command(word, arg) is Position <==> word == "pc"@,
        word_command(word, arg) is BreakList <==> word == "bl"@,
        word_command(word, arg) is Backtrace <==> word == "bt"@ || word == "backtrace"@,
        word == "list"@ || word == "l"@ ==> word_command(word, arg) == match arg {
            Some(a) => Command::ListAt(a),
            None => Command::ListCurrent,
        },
        word == "reset"@ || word == "rst"@ ==> word_command(word, arg) == Command::Reset(
            match arg {
                Some(a) => a,
                None => "main"@,
            },
        ),
        word == "watch"@ || word == "w"@ ==> word_command(word, arg) == match arg {
            Some(a) => Command::Watch(a),
            None => Command::WatchList,
        },
        word == "plot"@ ==> word_command(word, arg) == match arg {
            Some(a) => Command::Plot(a),
            None => Command::PlotList,
        },
        word == "bp"@ ==> (match arg {
            Some(a) => word_command(word, arg) == Command::BreakAdd(a),
            None => word_command(word, arg) is Incomplete,
        }),
        word == "bc"@ ==> (match arg {
            Some(a) => word_command(word, arg) == Command::BreakClear(a),
            None => word_command(word, arg) is Incomplete,
        }),
        word == "var"@ ==> (match arg {
            Some(a) => word_command(word, arg) == Command::Variable(a),
            None => word_command(word, arg) is Incomplete,
        }),
        (word == "bt"@ || word == "backtrace"@) && arg == Some(dec(n)) ==> word_command(word, arg)
            == Command::<Seq<char>>::Backtrace(n as usize),
        (word == "bt"@ || word == "backtrace"@) && arg is None ==> word_command(word, arg)
            == Command::<Seq<char>>::Backtrace(20),
{
    reveal_strlit("help");
    reveal_strlit("h");
    reveal_strlit("?");
    reveal_strlit("q");
    reveal_strlit("quit");
    reveal_strlit("exit");
    reveal_strlit("halt");
    reveal_strlit("run");
    reveal_strlit("continue");
    reveal_strlit("c");
    reveal_strlit("step");
    reveal_strlit("s");
    reveal_strlit("next");
    reveal_strlit("n");
    reveal_strlit("stepi");
    reveal_strlit("si");
    reveal_strlit("finish");
    reveal_strlit("fin");
    reveal_strlit("f");
    reveal_strlit("regs");
    reveal_strlit("pc");
    reveal_strlit("bt");
    reveal_strlit("backtrace");
    reveal_strlit("list");
    reveal_strlit("l");
    reveal_strlit("reset");
    reveal_strlit("rst");
    reveal_strlit("bp");
    reveal_strlit("bl");
    reveal_strlit("bc");
    reveal_strlit("var");
    reveal_strlit("watch");
    reveal_strlit("w");
    reveal_strlit("plot");
    assert(outline("help"@) == (4nat, 'h', 'e'));
    assert(outline("h"@) == (1nat, 'h', 'h'));
    assert(outline("?"@) == (1nat, '?', '?'));
    assert(outline("q"@) == (1nat, 'q', 'q'));
    assert(outline("quit"@) == (4nat, 'q', 'u'));
    assert(outline("exit"@) == (4nat, 'e', 'x'));
    assert(outline("halt"@) == (4nat, 'h', 'a'));
    assert(outline("run"@) == (3nat, 'r', 'u'));
    assert(outline("continue"@) == (8nat, 'c', 'o'));
    assert(outline("c"@) == (1nat, 'c', 'c'));
    assert(outline("step"@) == (4nat, 's', 't'));
    assert(outline("s"@) == (1nat, 's', 's'));
    assert(outline("next"@) == (4nat, 'n', 'e'));
    assert(outline("n"@) == (1nat, 'n', 'n'));
    assert(outline("stepi"@) == (5nat, 's', 't'));
    assert(outline("si"@) == (2nat, 's', 'i'));
    assert(outline("finish"@) == (6nat, 'f', 'i'));
    assert(outline("fin"@) == (3nat, 'f', 'i'));
    assert(outline("f"@) == (1nat, 'f', 'f'));
    assert(outline("regs"@) == (4nat, 'r', 'e'));
    assert(outline("pc"@) == (2nat, 'p', 'c'));
    assert(outline("bt"@) == (2nat, 'b', 't'));
    assert(outline("backtrace"@) == (9nat, 'b', 'a'));
    assert(outline("list"@) == (4nat, 'l', 'i'));
    assert(outline("l"@) == (1nat, 'l', 'l'));
    assert(outline("reset"@) == (5nat, 'r', 'e'));
    assert(outline("rst"@) == (3nat, 'r', 's'));
    assert(outline("bp"@) == (2nat, 'b', 'p'));
    assert(outline("bl"@) == (2nat, 'b', 'l'));
    assert(outline("bc"@) == (2nat, 'b', 'c'));
    assert(outline("var"@) == (3nat, 'v', 'a'));
    assert(outline("watch"@) == (5nat, 'w', 'a'));
    assert(outline("w"@) == (1nat, 'w', 'w'));
    assert(outline("plot"@) == (4nat, 'p', 'l'));
    law_numeral_read_back(n, 10, usize::MAX as nat);
}

/// A line is a command word with its argument, wherever the spaces are; a line
/// without words asks for nothing.
pub proof fn law_lines_are_commands(
    a: Seq<char>,
    word: Seq<char>,
    b: Seq<char>,
    arg: Seq<char>,
    rest: Seq<char>,
)
    requires
        hollow(a),
        solid(word),
        word.len() > 0,
        hollow(b),
        b.len() > 0,
        solid(arg),
        arg.len() > 0,
        rest.len() == 0 || is_white_space(rest[0]),
    ensures
        line_command(a) == Command::<Seq<char>>::Blank,
        line_command(a + word + b) == word_command(word, None),
        line_command(a + word + (b + arg + rest)) == word_command(word, Some(arg)),
{
    law_words_come_in_order(a, word, b);
    law_words_come_in_order(b, arg, rest);
    assert(is_white_space(b[0]));
    assert((b + arg + rest)[0] == b[0]);
    law_words_come_in_order(a, word, b + arg + rest);
}

/// The commands that cannot do without a firmware image: those that look code or
/// data up in it.
pub proof fn law_commands_that_need_an_image(c: Command<Seq<char>>)
    ensures
        c.image_demand() is Some <==> (c is Reset || c is Variable || c is Finish || c is Backtrace
            || c is ListCurrent),
{
}

}
