//! What a command starts from: arguments, configuration, probe, chip and flash.
use tscope::config::{
    absolutize_one, check_plot, check_watch, ChipConfig, ConfigError, FirmwareConfig, PathState,
    PlotConfig, ProbeConfig, ProbeSelector, Protocol, ToolConfig, WatchGroup,
};
use tscope::double::Double;
use tscope::flash::{
    done_report_text, must_confirm, plain_progress, proceeds, shows_bars, start_report_text,
    BarAction, Bars, FlashEvent, Stage,
};
use tscope::number::{
    dec_signed_text, dec_text, dec_wide_text, hex_text, parse_hex, parse_len, ArgError, ArgKind,
    NumError,
};
use tscope::plot::{list_plots, resolve_plot};
use tscope::session::{
    list_probes, open_registry, select_probe, unsupported_chip_help, ChipError, LookupFailure,
    ProbeError,
    ProbeInfo,
};
use tscope::table::NameTable;
use tscope::watch::{list_groups, resolve_watch};

fn double(v: f64) -> Double {
    Double { bits: v.to_bits() }
}

fn show(d: Double) -> String {
    f64::from_bits(d.bits).to_string()
}

fn config() -> ToolConfig {
    ToolConfig {
        version: 1,
        probe: ProbeConfig { protocol: Protocol::Swd, speed_khz: 1000, selector: None },
        chip: ChipConfig { name: "x".to_string(), description: None, pack: None },
        firmware: FirmwareConfig {
            elf: Some("/fw/f.elf".to_string()),
            axf: Some("/fw/f.axf".to_string()),
        },
        watch: NameTable::new(),
        plot: NameTable::new(),
    }
}

fn group(symbols: &[&str]) -> WatchGroup {
    WatchGroup {
        interval_ms: 100,
        max_elems: 8,
        symbols: symbols.iter().map(|s| s.to_string()).collect(),
    }
}

#[test]
fn firmware_image_prefers_elf_falls_back_to_axf() {
    let cfg = config();
    assert_eq!(cfg.firmware_image(PathState::File, PathState::File).unwrap(), "/fw/f.elf");
    assert_eq!(cfg.firmware_image(PathState::Missing, PathState::File).unwrap(), "/fw/f.axf");
    assert!(cfg.firmware_image(PathState::Missing, PathState::Missing).is_err());
}

#[test]
fn a_missing_image_says_where_it_was_looked_for() {
    let cfg = config();
    let e = cfg.firmware_image(PathState::Missing, PathState::NotFile).err().unwrap();
    let text = e.message();
    assert!(text.starts_with("找不到固件镜像：firmware.elf 为 "), "{text}");
    assert!(text.contains("/fw/f.elf") && text.contains("/fw/f.axf"), "{text}");
}

#[test]
fn configurations_are_checked() {
    assert!(ToolConfig::load(config()).is_ok());
    let mut wrong = config();
    wrong.version = 7;
    assert!(ToolConfig::load(wrong).is_err());
    let mut nameless = config();
    nameless.chip.name = "  ".to_string();
    assert!(ToolConfig::load(nameless).is_err());
    let mut slow = config();
    slow.watch.insert("w".to_string(), group(&[]));
    assert!(ToolConfig::load(slow).is_err());
}

#[test]
fn groups_and_plots_are_checked() {
    assert!(check_watch("w", &group(&["a"])).is_ok());
    let e: ConfigError<String> = check_watch("w", &group(&[])).err().unwrap();
    assert!(e.message().contains('w'), "{}", e.message());
    let plot = |window: f64, groups: Vec<Vec<String>>| PlotConfig {
        interval_ms: 20,
        window_secs: double(window),
        groups,
    };
    assert!(check_plot("p", &plot(5.0, vec![vec!["a".to_string()]])).is_ok());
    assert!(check_plot("p", &plot(0.0, vec![vec!["a".to_string()]])).is_err());
    assert!(check_plot("p", &plot(f64::NAN, vec![vec!["a".to_string()]])).is_err());
    assert!(check_plot("p", &plot(5.0, vec![])).is_err());
    assert!(check_plot("p", &plot(5.0, vec![vec![]])).is_err());
}

#[test]
fn relative_paths_start_at_the_configuration() {
    let mut cfg = config();
    cfg.firmware.elf = Some("build/f.elf".to_string());
    cfg.absolutize("/proj");
    assert_eq!(cfg.firmware.elf.as_deref(), Some("/proj/build/f.elf"));
    assert_eq!(cfg.firmware.axf.as_deref(), Some("/fw/f.axf"));
    let mut p = "/already".to_string();
    absolutize_one(&mut p, "/proj");
    assert_eq!(p, "/already");
}

#[test]
fn tables_are_ordered_by_name() {
    let mut t: NameTable<u32> = NameTable::new();
    t.insert("b".to_string(), 2);
    t.insert("a".to_string(), 1);
    t.insert("b".to_string(), 3);
    assert_eq!(t.len(), 2);
    assert_eq!(t.names(), ["a", "b"]);
    assert_eq!(t.get("b"), Some(&3));
    assert_eq!(t.get("c"), None);
    assert_eq!((t.name(0), *t.value(1)), ("a", 3));
}

#[test]
fn groups_and_plots_are_found_by_name() {
    let mut cfg = config();
    let none = resolve_watch(&cfg, "w").err().unwrap();
    assert!(none.message("w").starts_with("配置里没有定义 watch 节"));
    cfg.watch.insert("w1".to_string(), group(&["theta"]));
    assert_eq!(resolve_watch(&cfg, "w1").unwrap().symbols, ["theta"]);
    let unknown = resolve_watch(&cfg, "w").err().unwrap();
    assert_eq!(unknown.message("w"), "配置里没有名为 w 的监视组；可用组：w1");
    assert!(list_groups(&cfg).iter().any(|l| l.contains("w1")));
    assert!(resolve_plot(&cfg, "p").is_err());
    cfg.plot.insert(
        "p1".to_string(),
        PlotConfig {
            interval_ms: 20,
            window_secs: double(7.5),
            groups: vec![vec!["theta".to_string()]],
        },
    );
    assert!(resolve_plot(&cfg, "p1").is_ok());
    assert!(resolve_plot(&cfg, "p").err().unwrap().message("p").contains("p1"));
    assert!(list_plots(&cfg, &show).iter().any(|l| l.contains("7.5")));
}

#[test]
fn addresses_and_lengths_are_read() {
    assert_eq!(parse_hex("0x20000000"), Ok(0x2000_0000));
    assert_eq!(parse_hex(" 0X10 "), Ok(0x10));
    assert_eq!(parse_hex("ff"), Ok(0xff));
    assert_eq!(parse_hex("0x"), Err(ArgError::Missing));
    assert_eq!(parse_hex("xyz"), Err(ArgError::Malformed(NumError::InvalidDigit)));
    assert_eq!(parse_len("256"), Ok(256));
    assert_eq!(parse_len("0x100"), Ok(256));
    assert_eq!(parse_len("0X"), Err(ArgError::Missing));
    assert_eq!(parse_len(""), Err(ArgError::Malformed(NumError::Empty)));
    assert_eq!(
        parse_len("18446744073709551616"),
        Err(ArgError::Malformed(NumError::TooLarge))
    );
    assert_eq!(ArgError::Missing.message(ArgKind::Address, "0x"), "无效的十六进制数：0x");
    assert_eq!(
        ArgError::Malformed(NumError::Empty).message(ArgKind::Length, ""),
        "解析长度失败 ：cannot parse integer from empty string"
    );
}

#[test]
fn numbers_are_written() {
    assert_eq!(dec_text(0), "0");
    assert_eq!(dec_text(u64::MAX), "18446744073709551615");
    assert_eq!(dec_wide_text(u64::MAX as u128 + 1), "18446744073709551616");
    assert_eq!(dec_signed_text(i64::MIN), "-9223372036854775808");
    assert_eq!(hex_text(0x1f, 8), "0000001f");
    assert_eq!(hex_text(0x1_2345_6789, 8), "123456789");
}

fn probe(identifier: &str, vid: u16, serial: Option<&str>) -> ProbeInfo {
    ProbeInfo {
        identifier: identifier.to_string(),
        vendor_id: vid,
        product_id: 0x0101,
        serial: serial.map(|s| s.to_string()),
    }
}

#[test]
fn the_probe_is_the_only_one_or_the_one_asked_for() {
    assert!(matches!(select_probe(&[], &None), Err(ProbeError::NoProbe)));
    let one = [probe("J-Link", 0x1366, Some("123"))];
    assert_eq!(select_probe(&one, &None).unwrap(), 0);
    let two = [probe("J-Link", 0x1366, Some("123")), probe("DAP", 0x0d28, None)];
    let e = select_probe(&two, &None).err().unwrap();
    assert!(matches!(&e, ProbeError::Ambiguous(2, _)));
    assert!(e.message().contains("DAP"));
    let by_vid = Some(ProbeSelector { vid: Some(0x0d28), pid: None, serial: None });
    assert_eq!(select_probe(&two, &by_vid).unwrap(), 1);
    let by_serial = Some(ProbeSelector { vid: None, pid: None, serial: Some("9".to_string()) });
    assert!(matches!(select_probe(&two, &by_serial), Err(ProbeError::NoMatch)));
    assert_eq!(list_probes(&[]).len(), 1);
    assert!(list_probes(&two)[1].starts_with("[1] DAP"));
}

fn chip(name: &str, description: Option<&str>) -> ChipConfig {
    ChipConfig {
        name: name.to_string(),
        description: description.map(|d| d.to_string()),
        pack: None,
    }
}

const DESCRIPTION: &str = "name: Own Series
variants:
- name: OWN1234
  cores:
  - name: main
    type: armv7em
    core_access_options: !Arm
      ap: !v1 0
  memory_map:
  - !Ram
    range:
      start: 0x20000000
      end: 0x20004000
    cores:
    - main
  flash_algorithms: []
flash_algorithms: []
";

#[test]
fn built_in_chips_are_found() {
    let read = |_: &str| Err::<String, String>("unread".to_string());
    let (_, found) = open_registry(&chip(" STM32F407VGTx ", None), &read);
    let found = found.unwrap();
    assert_eq!(found.name, "STM32F407VGTx");
    assert_eq!(found.target.name, "STM32F407VGTx");
}

#[test]
fn unknown_chips_need_a_description() {
    let read = |path: &str| match path {
        "/bad.yaml" => Ok("no: [family".to_string()),
        _ => Err("missing".to_string()),
    };
    let (_, none) = open_registry(&chip("not_a_real_chip", None), &read);
    assert!(matches!(&none, Err(ChipError::Unsupported(None))));
    let text = none.err().unwrap().message("not_a_real_chip");
    assert_eq!(text, unsupported_chip_help("not_a_real_chip", None));
    let (_, bad) = open_registry(&chip("not_a_real_chip", Some("/bad.yaml")), &read);
    assert!(matches!(&bad, Err(ChipError::Malformed(p, _)) if p == "/bad.yaml"));
    let text = bad.err().unwrap().message("not_a_real_chip");
    assert!(text.starts_with("芯片描述文件解析失败：/bad.yaml: "), "{text}");
}

#[test]
fn a_missing_description_is_answered_with_a_command_to_copy() {
    let read = |_: &str| Err::<String, String>("missing".to_string());
    let mut asked = chip("not_a_real_chip", Some("/none.yaml"));
    let (_, unread) = open_registry(&asked, &read);
    assert!(matches!(&unread, Err(ChipError::Unreadable(p, e, None)) if p == "/none.yaml" && e == "missing"));
    let text = unread.err().unwrap().message("not_a_real_chip");
    assert!(
        text.starts_with(
            "芯片 not_a_real_chip 不在 probe-rs 内置支持列表，且配置指定的芯片描述文件不存在：/none.yaml: missing"
        ),
        "{text}"
    );
    assert!(text.contains("target-gen pack <厂商DFP.pack 或 Keil 已解压目录> ./targets/"), "{text}");
    asked.pack = Some("/x.pack".to_string());
    let (_, unread) = open_registry(&asked, &read);
    let text = unread.err().unwrap().message("not_a_real_chip");
    assert!(text.contains("    target-gen pack /x.pack ./targets/\n"), "{text}");
    assert!(text.ends_with("然后把生成文件的路径写进 chip.description。"), "{text}");
}

#[test]
fn described_chips_are_found() {
    let read = |_: &str| Ok::<String, String>(DESCRIPTION.to_string());
    let (registry, found) = open_registry(&chip("OWN1234", Some("/own.yaml")), &read);
    let found = found.unwrap();
    assert_eq!(found.name, "OWN1234");
    assert_eq!(found.target.name, "OWN1234");
    assert!(registry.get_target_by_name("OWN1234").is_ok());
    let (_, other) = open_registry(&chip("OWN9999", Some("/own.yaml")), &read);
    let e = other.err().unwrap();
    assert!(matches!(&e, ChipError::Lookup(p, LookupFailure::NotFound) if p == "/own.yaml"));
    assert!(e.message("OWN9999").starts_with("芯片描述文件 /own.yaml 里没有名为 OWN9999 的变体："));
}

#[test]
fn descriptions_that_do_not_hold_together_say_so() {
    let read = |_: &str| Ok::<String, String>(DESCRIPTION.replace("type: armv7em", "type: none"));
    let (_, bad) = open_registry(&chip("OWN1234", Some("/own.yaml")), &read);
    assert!(matches!(bad, Err(ChipError::Malformed(_, _))));
    let twice = |_: &str| Ok::<String, String>(DESCRIPTION.replace("flash_algorithms: []\nflash", "flash_algorithms: [lost]\nflash"));
    let (_, bad) = open_registry(&chip("OWN1234", Some("/own.yaml")), &twice);
    let Err(ChipError::Malformed(_, why)) = &bad else {
        panic!("a description without its algorithm");
    };
    assert!(why.message().contains("lost"), "{}", why.message());
    assert!(why.message().contains("Own Series"), "{}", why.message());
}

#[test]
fn a_whole_chip_is_erased_only_after_yes() {
    assert!(must_confirm(true, false));
    assert!(!must_confirm(true, true));
    assert!(!must_confirm(false, false));
    assert!(proceeds(true, false, " yes\n"));
    assert!(!proceeds(true, false, "y"));
    assert!(!proceeds(true, false, "YES"));
    assert!(proceeds(true, true, ""));
    assert!(proceeds(false, false, ""));
    assert_eq!(start_report_text("/f.elf", true), "开始烧录 /f.elf（整片擦除）…");
    assert_eq!(start_report_text("/f.elf", false), "开始烧录 /f.elf（扇区擦除）…");
    assert!(done_report_text("7.1").starts_with("烧录完成，耗时 7.1 秒；"));
}

#[test]
fn bars_need_a_terminal() {
    assert!(shows_bars(true, Some("xterm")));
    assert!(!shows_bars(true, Some("dumb")));
    assert!(!shows_bars(true, Some("")));
    assert!(!shows_bars(true, None));
    assert!(!shows_bars(false, Some("xterm")));
}

#[test]
fn progress_without_bars_is_written_in_lines() {
    let line = |e: FlashEvent<String>| plain_progress(&e);
    assert_eq!(line(FlashEvent::Started(Stage::Erase)), Some("擦除扇区…".to_string()));
    assert_eq!(line(FlashEvent::Finished(Stage::Verify)), Some("校验 完成".to_string()));
    assert_eq!(line(FlashEvent::Failed(Stage::Program)), Some("写入数据 失败".to_string()));
    assert_eq!(
        line(FlashEvent::Message("x".to_string())),
        Some("烧写算法消息：x".to_string())
    );
    assert_eq!(line(FlashEvent::Progress(Stage::Fill, 4)), None);
    assert_eq!(line(FlashEvent::LayoutReady), None);
}

#[test]
fn each_stage_has_one_bar() {
    let mut b = Bars::none();
    let mut hear = |e: FlashEvent<String>| b.progress_with_bars(&e);
    assert!(matches!(hear(FlashEvent::Progress(Stage::Erase, 4)), BarAction::Keep));
    assert!(matches!(
        hear(FlashEvent::Planned(Stage::Program, Some(100))),
        BarAction::AddSized(Stage::Program, 100)
    ));
    assert!(matches!(hear(FlashEvent::Started(Stage::Program)), BarAction::Keep));
    assert!(matches!(
        hear(FlashEvent::Started(Stage::Erase)),
        BarAction::AddSpinner(Stage::Erase)
    ));
    assert!(matches!(
        hear(FlashEvent::Progress(Stage::Program, 4)),
        BarAction::Advance(Stage::Program, 4)
    ));
    assert!(matches!(hear(FlashEvent::Finished(Stage::Erase)), BarAction::Clear(Stage::Erase)));
    assert!(matches!(hear(FlashEvent::Finished(Stage::Erase)), BarAction::Keep));
    let failed = hear(FlashEvent::Failed(Stage::Program));
    assert!(matches!(failed, BarAction::StopWith(Stage::Program, t) if t == "写入数据 失败"));
    assert!(matches!(hear(FlashEvent::Failed(Stage::Program)), BarAction::Keep));
    assert!(matches!(hear(FlashEvent::Planned(Stage::Fill, None)), BarAction::AddSpinner(Stage::Fill)));
}
