//! The debugging prompt: commands, breakpoints, stepping and listings.
use tscope::breakpoints::{
    action_failure_text, reset_begin, run_to_begin, AddStep, Breakpoints, ClearTarget,
    ProbeAction, Purpose,
};
use tscope::command::{
    next_turn, parse_command, unknown_command_text, Command, Input, Turn, Usage, WindowKind,
    Windows, HELP,
};
use tscope::listing::{debug_list_at, print_source_context, source_failure_text, ListError};
use tscope::stepping::{
    clear_thumb, find_register, frame_line_text, halt_report_text, not_hit_text, pc_report_text,
    register_line_text, reset_announcement_text, reset_outcome_text, role_line_text,
    run_out_of_function, run_step, stack_heading_text, wait_deadline, wait_step, Goal,
    RegisterRole, RoleReading, RunStep, Spot, Verdict, WaitStep, Walk, WayOut,
};

fn strings(v: &[&str]) -> Vec<String> {
    v.iter().map(|s| s.to_string()).collect()
}

fn spot(function: Option<&str>, place: Option<(&str, u64)>) -> Spot<String> {
    Spot {
        function: function.map(|f| f.to_string()),
        place: place.map(|p| (p.0.to_string(), p.1)),
    }
}

// ---------------------------------------------------------------------------
// Commands
// ---------------------------------------------------------------------------

#[test]
fn words_make_commands() {
    assert!(matches!(parse_command("help"), Command::Help));
    assert!(matches!(parse_command(" ? "), Command::Help));
    assert!(matches!(parse_command("exit"), Command::Quit));
    assert!(matches!(parse_command("halt"), Command::Halt));
    assert!(matches!(parse_command("c"), Command::Run));
    assert!(matches!(parse_command("next"), Command::Step));
    assert!(matches!(parse_command("si"), Command::StepInstruction));
    assert!(matches!(parse_command("f"), Command::Finish));
    assert!(matches!(parse_command("regs"), Command::Registers));
    assert!(matches!(parse_command("pc"), Command::Position));
    assert!(matches!(parse_command("bl"), Command::BreakList));
    assert!(matches!(parse_command("  "), Command::Blank));
    assert!(matches!(parse_command("Help"), Command::Unknown(w) if w == "Help"));
    assert_eq!(unknown_command_text("x"), "未知命令 x（help 查看命令列表）");
    assert!(HELP.starts_with("可用命令：\n  bp <目标>"));
}

#[test]
fn arguments_follow_the_word() {
    assert!(matches!(parse_command("bt"), Command::Backtrace(20)));
    assert!(matches!(parse_command("bt 10"), Command::Backtrace(10)));
    assert!(matches!(parse_command("backtrace x"), Command::Backtrace(20)));
    assert!(matches!(parse_command("l"), Command::ListCurrent));
    assert!(matches!(parse_command("list a.c:3 rest"), Command::ListAt(t) if t == "a.c:3"));
    assert!(matches!(parse_command("rst"), Command::Reset(t) if t == "main"));
    assert!(matches!(parse_command("reset tick"), Command::Reset(t) if t == "tick"));
    assert!(matches!(parse_command("bp\tmain"), Command::BreakAdd(t) if t == "main"));
    assert!(matches!(parse_command("bc all"), Command::BreakClear(t) if t == "all"));
    assert!(matches!(parse_command("var x"), Command::Variable(t) if t == "x"));
    assert!(matches!(parse_command("w"), Command::WatchList));
    assert!(matches!(parse_command("watch w1"), Command::Watch(t) if t == "w1"));
    assert!(matches!(parse_command("plot"), Command::PlotList));
    assert!(matches!(parse_command("plot p"), Command::Plot(t) if t == "p"));
}

#[test]
fn missing_arguments_show_the_usage() {
    assert!(matches!(parse_command("bp"), Command::Incomplete(Usage::BreakAdd)));
    assert!(matches!(parse_command("bc"), Command::Incomplete(Usage::BreakClear)));
    assert!(matches!(parse_command("var"), Command::Incomplete(Usage::Variable)));
    assert_eq!(Usage::BreakClear.message(), "用法：bc <断点编号|all>，如 bc 1 / bc all");
}

#[test]
fn only_leaving_ends_the_session() {
    assert!(matches!(next_turn(&Input::End), Turn::Leave));
    assert!(matches!(next_turn(&Input::Silence), Turn::Idle));
    assert!(matches!(next_turn(&Input::Line("".to_string())), Turn::Prompt));
    assert!(matches!(next_turn(&Input::Line("q".to_string())), Turn::Leave));
    assert!(matches!(next_turn(&Input::Line("zzz".to_string())), Turn::Execute(Command::Unknown(_))));
    assert!(matches!(next_turn(&Input::Line("run".to_string())), Turn::Execute(Command::Run)));
}

#[test]
fn some_commands_need_an_image() {
    assert_eq!(
        parse_command("finish").needs_image(),
        Some("finish 需要固件镜像（展开信息）")
    );
    assert_eq!(parse_command("l").needs_image(), Some("list 需要固件镜像来反查当前源码位置"));
    assert_eq!(parse_command("run").needs_image(), None);
}

#[test]
fn both_windows_may_be_open_at_once() {
    let mut w = Windows::none();
    assert_eq!(w.patience(), None);
    assert!(w.open(WindowKind::Plot).is_ok());
    assert_eq!(w.patience(), Some(10));
    assert!(w.open(WindowKind::Watch).is_ok());
    assert_eq!(
        w.open(WindowKind::Plot),
        Err("已有曲线窗口打开（一次只支持一个）；关闭后再试")
    );
    assert_eq!(w.close(WindowKind::Plot), Some("曲线窗口已关闭，停止采样"));
    assert!(w.is_open(WindowKind::Watch));
    assert_eq!(w.close(WindowKind::Plot), None);
    assert!(w.open(WindowKind::Plot).is_ok());
}

// ---------------------------------------------------------------------------
// Breakpoints
// ---------------------------------------------------------------------------

#[test]
fn breakpoints_are_numbered_from_one() {
    let mut b = Breakpoints::new();
    assert_eq!(b.list(8), strings(&["（没有断点）"]));
    assert_eq!(b.add_set(0x0800_4000, "main"), "断点 1：main @ 0x08004000");
    assert_eq!(b.add_set(0x0800_4100, "tick"), "断点 2：tick @ 0x08004100");
    assert_eq!(b.len(), 2);
    assert_eq!(
        b.list(8),
        strings(&[
            "断点列表（2 / 8 个硬件断点）：",
            "  1：main @ 0x08004000",
            "  2：tick @ 0x08004100",
        ])
    );
}

#[test]
fn an_address_has_one_breakpoint() {
    let mut b = Breakpoints::new();
    b.add_set(0x0800_4000, "main");
    assert_eq!(b.present(0x0800_4000), Some("0x08004000 已有断点（main）".to_string()));
    assert_eq!(b.add_set(0x0800_4000, "again"), "0x08004000 已有断点（main）");
    assert_eq!(b.len(), 1);
    assert_eq!(b.find(0x0800_4000), Some(0));
    assert_eq!(b.find(0x0800_4002), None);
}

#[test]
fn the_hardware_limits_the_breakpoints() {
    let mut b = Breakpoints::new();
    assert_eq!(b.full(1), None);
    b.add_set(1, "a");
    assert_eq!(
        b.full(1),
        Some("硬件断点已满（共 1 个）：先用 bc 删除再添加（本工具只支持硬件断点）".to_string())
    );
}

#[test]
fn a_breakpoint_that_is_there_is_told_before_the_hardware_is_full() {
    let mut b = Breakpoints::new();
    assert_eq!(b.add_step(0x10, None), AddStep::AskUnits);
    assert_eq!(b.add_step(0x10, Some(1)), AddStep::Arm);
    b.add_set(0x10, "a");
    let present = "0x00000010 已有断点（a）".to_string();
    assert_eq!(b.add_step(0x10, None), AddStep::Present(present.clone()));
    assert_eq!(b.add_step(0x10, Some(1)), AddStep::Present(present));
    assert_eq!(b.add_step(0x20, None), AddStep::AskUnits);
    assert_eq!(
        b.add_step(0x20, Some(1)),
        AddStep::Full(
            "硬件断点已满（共 1 个）：先用 bc 删除再添加（本工具只支持硬件断点）".to_string()
        )
    );
    assert_eq!(b.add_step(0x20, Some(2)), AddStep::Arm);
}

#[test]
fn a_breakpoint_where_a_function_returns_outlives_its_finish() {
    let mut b = Breakpoints::new();
    b.add_set(0x10, "a");
    b.add_set(0x40, "back");
    assert_eq!(b.run_to_finish(0x40, true), []);
    assert_eq!(b.run_to_finish(0x40, false), [ProbeAction::Halt]);
}

#[test]
fn breakpoints_are_cleared_by_number_or_all() {
    let mut b = Breakpoints::new();
    b.add_set(0x10, "a");
    b.add_set(0x20, "b");
    b.add_set(0x30, "c");
    assert_eq!(b.clear_target("2"), Ok(ClearTarget::One(2)));
    assert_eq!(b.clear_target("all"), Ok(ClearTarget::All));
    for bad in ["0", "4", "x", ""] {
        assert_eq!(
            b.clear_target(bad),
            Err(format!("无效的断点编号 {bad}（当前共 3 个，用 bl 查看）"))
        );
    }
    assert_eq!(b.clear_actions(ClearTarget::One(2)), [ProbeAction::ClearBreakpoint(0x20)]);
    assert_eq!(b.clear(ClearTarget::One(2)), "已删除断点 2（b）");
    assert_eq!(b.find(0x30), Some(1));
    assert_eq!(
        b.clear_actions(ClearTarget::All),
        [ProbeAction::ClearBreakpoint(0x10), ProbeAction::ClearBreakpoint(0x30)]
    );
    assert_eq!(b.clear(ClearTarget::All), "已删除全部 2 个断点");
    assert_eq!(b.len(), 0);
}

#[test]
fn stops_name_their_breakpoint() {
    let mut b = Breakpoints::new();
    b.add_set(0x10, "a");
    b.add_set(0x20, "foc.c:123");
    assert_eq!(b.stop_text(0x20), "断点 2（foc.c:123）命中：");
    assert_eq!(b.stop_text(0x22), "内核已暂停：");
}

fn apply(armed: &mut Vec<u64>, actions: &[ProbeAction]) {
    for a in actions {
        match a {
            ProbeAction::SetBreakpoint(x) => armed.push(*x),
            ProbeAction::ClearBreakpoint(x) => armed.retain(|y| y != x),
            ProbeAction::ResetAndHalt => armed.clear(),
            ProbeAction::Run | ProbeAction::Halt => {}
        }
    }
}

#[test]
fn a_reset_restores_the_breakpoints() {
    let mut b = Breakpoints::new();
    assert_eq!(b.restored(), None);
    b.add_set(0x10, "a");
    b.add_set(0x20, "main");
    for hit in [true, false] {
        let mut armed = vec![0x10, 0x20];
        apply(&mut armed, &reset_begin(0x20));
        apply(&mut armed, &b.reset_finish(0x20, hit));
        assert_eq!(armed, [0x10, 0x20]);
    }
    assert_eq!(reset_begin(0x20)[0], ProbeAction::ResetAndHalt);
    assert_eq!(
        b.restored(),
        Some("已自动恢复 2 个断点（芯片复位会清空硬件断点，tscope 已重新写入，无需重新 bp）".to_string())
    );
}

#[test]
fn finishing_uses_a_temporary_breakpoint() {
    assert_eq!(run_to_begin(0x40), [ProbeAction::SetBreakpoint(0x40), ProbeAction::Run]);
    let mut b = Breakpoints::new();
    b.add_set(0x10, "a");
    assert_eq!(b.run_to_finish(0x40, true), [ProbeAction::ClearBreakpoint(0x40)]);
    assert_eq!(
        b.run_to_finish(0x40, false),
        [ProbeAction::Halt, ProbeAction::ClearBreakpoint(0x40)]
    );
    assert_eq!(
        action_failure_text(ProbeAction::SetBreakpoint(0x40), Purpose::Finish),
        "设置临时断点 @ 0x00000040 失败"
    );
    assert_eq!(
        action_failure_text(ProbeAction::SetBreakpoint(0x40), Purpose::Restore),
        "重新应用断点 @ 0x00000040 失败"
    );
    assert_eq!(
        action_failure_text(ProbeAction::Halt, Purpose::Session),
        "暂停失败（超时？接线/供电？）"
    );
}

// ---------------------------------------------------------------------------
// Stepping
// ---------------------------------------------------------------------------

#[test]
fn steps_end_on_another_line() {
    let mut w = Walk::begin(Goal::NextLine, spot(Some("main"), Some(("a.c", 3))));
    assert_eq!(w.after_step(&spot(Some("main"), Some(("a.c", 3)))), Verdict::Again);
    assert_eq!(w.after_step(&spot(Some("main"), None)), Verdict::Again);
    assert_eq!(w.after_step(&spot(Some("main"), Some(("a.c", 4)))), Verdict::Arrived);
    assert_eq!(w.taken, 3);
}

#[test]
fn steps_end_outside_the_function() {
    let mut w = Walk::begin(Goal::NextLine, spot(Some("main"), Some(("a.c", 3))));
    assert_eq!(w.after_step(&spot(Some("tick"), Some(("a.c", 3)))), Verdict::Arrived);
    let mut blind = Walk::begin(Goal::NextLine, spot(Some("asm"), None));
    assert_eq!(blind.after_step(&spot(Some("asm"), None)), Verdict::Arrived);
}

#[test]
fn steps_give_up_in_long_loops() {
    let here = || spot(Some("main"), Some(("a.c", 3)));
    let mut w = Walk::begin(Goal::NextLine, here());
    for _ in 0..199 {
        assert_eq!(w.after_step(&here()), Verdict::Again);
    }
    assert_eq!(w.after_step(&here()), Verdict::GaveUp);
    assert!(Goal::NextLine.surrender_text().contains("200"));
    let mut h = Walk::begin(Goal::LeaveHandler, here());
    for _ in 0..63 {
        assert_eq!(h.after_step(&spot(Some("main"), Some(("a.c", 9)))), Verdict::Again);
    }
    assert_eq!(h.after_step(&here()), Verdict::GaveUp);
}

#[test]
fn functions_are_left_by_their_return_address() {
    assert_eq!(run_out_of_function(Some(0xffff_fff9)), WayOut::Walk);
    assert_eq!(run_out_of_function(Some(0x0800_4009)), WayOut::RunTo(0x0800_4008));
    assert_eq!(run_out_of_function(None), WayOut::StepOnce);
    assert_eq!(clear_thumb(0x0800_4001), 0x0800_4000);
}

#[test]
fn running_waits_only_for_breakpoints() {
    assert_eq!(run_step(false, 3), RunStep::AlreadyRunning);
    assert_eq!(run_step(true, 0), RunStep::Release);
    assert_eq!(run_step(true, 1), RunStep::ReleaseAndWait);
    assert_eq!(
        RunStep::ReleaseAndWait.message(),
        "已继续运行，等待断点命中（10 秒超时）…"
    );
    assert_eq!(not_hit_text(), "10 秒内未命中断点（内核仍在运行；halt 可暂停查看）");
    let deadline = wait_deadline(5);
    assert_eq!(deadline, 10_000_000_005);
    assert_eq!(wait_step(false, 5, deadline), WaitStep::Sleep(10));
    assert_eq!(wait_step(false, 10_000_000_005, deadline), WaitStep::TimedOut);
    assert_eq!(wait_step(true, 10_000_000_005, deadline), WaitStep::Halted);
}

#[test]
fn reports_tell_what_is_known() {
    assert_eq!(
        pc_report_text(0x0800_4000, &spot(Some("main"), Some(("a.c", 3)))),
        "PC = 0x08004000（a.c:3，main）"
    );
    assert_eq!(pc_report_text(0x10, &spot(None, Some(("a.c", 3)))), "PC = 0x00000010（a.c:3）");
    assert_eq!(pc_report_text(0x10, &spot(Some("main"), None)), "PC = 0x00000010（main）");
    assert_eq!(pc_report_text(0x10, &spot(None, None)), "PC = 0x00000010");
    assert_eq!(halt_report_text(0x10), "已暂停，PC = 0x00000010");
    assert_eq!(reset_announcement_text("main", 0x10), "复位并运行到 main 开头（0x00000010）…");
    assert_eq!(reset_outcome_text("main", true), "已暂停在 main 开头：");
    assert_eq!(
        reset_outcome_text("main", false),
        "10 秒内未运行到 main（bootloader 未跳转？函数名不对？）"
    );
}

#[test]
fn call_stacks_have_aligned_columns() {
    assert_eq!(stack_heading_text(2), "调用栈（共 2 帧，#0 为最内层）：");
    assert_eq!(
        frame_line_text(0, 0x10, &spot(Some("main"), Some(("a.c", 3)))),
        "#0   main                         a.c:3  0x00000010"
    );
    assert_eq!(
        frame_line_text(1, 0x10, &spot(Some("main"), None)),
        "#1   main                         （无行号信息）  0x00000010"
    );
    assert_eq!(
        frame_line_text(2, 0x10, &spot(None, Some(("a.c", 3)))),
        "#2   <未知函数>                   0x00000010"
    );
}

#[test]
fn registers_are_found_by_their_role() {
    let table = strings(&["R0", "SP", "R13", "RA", "LR"]);
    assert_eq!(find_register(&table, RegisterRole::StackPointer), Some(2));
    assert_eq!(find_register(&table, RegisterRole::LinkRegister), Some(4));
    assert_eq!(find_register(&strings(&["RA"]), RegisterRole::LinkRegister), Some(0));
    assert_eq!(find_register(&strings(&["R0"]), RegisterRole::StackPointer), None);
    assert_eq!(register_line_text("R0", Some(0x1f)), "          R0 = 0x0000001f");
    assert_eq!(register_line_text("R0", None), "          R0 = （不可读）");
    assert_eq!(
        role_line_text(RegisterRole::StackPointer, &RoleReading::Value(0x1f)),
        "SP = 0x0000001f"
    );
    assert_eq!(
        role_line_text(RegisterRole::LinkRegister, &RoleReading::Failed("x".to_string())),
        "LR = 读取失败：x"
    );
    assert_eq!(
        role_line_text(RegisterRole::LinkRegister, &RoleReading::Absent),
        "LR = （寄存器表里没有）"
    );
}

// ---------------------------------------------------------------------------
// Listings
// ---------------------------------------------------------------------------

#[test]
fn listings_mark_their_line() {
    let text = (1..=20).map(|i| format!("line {i}")).collect::<Vec<_>>().join("\r\n");
    let v = print_source_context("/a.c", 10, &text).unwrap();
    assert_eq!(v.len(), 12);
    assert_eq!(v[0], "── /a.c:10 ──");
    assert_eq!(v[1], "        5\tline 5");
    assert_eq!(v[6], "=>     10\tline 10");
    assert_eq!(v[11], "       15\tline 15");
}

#[test]
fn listings_stay_inside_the_file() {
    let text = "a\nb\nc\n";
    let v = print_source_context("x", 1, text).unwrap();
    assert_eq!(v.len(), 4);
    assert_eq!(v[1], "=>      1\ta");
    assert_eq!(print_source_context("x", 50, text).unwrap().len(), 1);
    assert_eq!(print_source_context("x", u64::MAX, text).unwrap().len(), 1);
    let e = print_source_context("x", 0, text).err().unwrap();
    assert!(matches!(e, ListError::LineZero));
    assert_eq!(e.message(), "行号不能为 0");
}

#[test]
fn places_are_file_and_line() {
    assert_eq!(debug_list_at(None, "C:\\a.c:12").unwrap(), ("C:\\a.c".to_string(), 12));
    assert_eq!(
        debug_list_at(None, "a.c").err().unwrap().message(),
        "用法：l <文件:行号>，如 l port.c:244"
    );
    assert_eq!(
        debug_list_at(None, "a.c:x").err().unwrap().message(),
        "行号必须是数字: invalid digit found in string"
    );
    assert!(source_failure_text("/x.c").starts_with("读取源码失败：/x.c\n"));
}
