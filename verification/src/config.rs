//! The tool's configuration: what it may hold, which of its contents are
//! refused, how its paths are resolved and which firmware image is used.
//!
//! Paths are texts with `/` between their parts; a path that starts with `/` is
//! absolute.
use vstd::prelude::*;
use crate::double::Double;
use crate::number::{dec, dec_text};
use crate::table::NameTable;
use crate::text::{
    chars_of, is_blank, is_white_space, lemma_hollow_trimmed, lemma_kept_by_trim, trim,
};

verus! {

/// The version of the configuration format.
pub const CURRENT_VERSION: u32 = 1;

/// The wire protocol of the probe.
#[derive(Debug, Clone, Copy, PartialEq, Eq, Structural)]
pub enum Protocol {
    Swd,
    Jtag,
}

impl Default for Protocol {
    fn default() -> (r: Protocol)
        ensures
            r == Protocol::Swd,
    {
        Protocol::Swd
    }
}

/// Which probe to use where there are several. What is not given matches any.
#[derive(Debug)]
pub struct ProbeSelector {
    pub vid: Option<u16>,
    pub pid: Option<u16>,
    pub serial: Option<String>,
}

impl Default for ProbeSelector {
    fn default() -> (r: ProbeSelector)
        ensures
            r.vid is None,
            r.pid is None,
            r.serial is None,
    {
        ProbeSelector { vid: None, pid: None, serial: None }
    }
}

/// The probe and how it is driven.
#[derive(Debug)]
pub struct ProbeConfig {
    pub protocol: Protocol,
    pub speed_khz: u32,
    pub selector: Option<ProbeSelector>,
}

impl Default for ProbeConfig {
    fn default() -> (r: ProbeConfig)
        ensures
            r.protocol == Protocol::Swd,
            r.speed_khz == 1000,
            r.selector is None,
    {
        ProbeConfig { protocol: Protocol::Swd, speed_khz: default_speed_khz(), selector: None }
    }
}

/// The clock of the probe where none is given.
pub fn default_speed_khz() -> (r: u32)
    ensures
        r == 1000,
{
    1000
}

/// The chip.
#[derive(Debug)]
pub struct ChipConfig {
    /// Its name.
    pub name: String,
    /// The path of its description, where it is not a built-in one.
    pub description: Option<String>,
    /// The path of the vendor's pack, for the advice on how to make one.
    pub pack: Option<String>,
}

/// The firmware images.
#[derive(Debug)]
pub struct FirmwareConfig {
    pub elf: Option<String>,
    pub axf: Option<String>,
}

impl Default for FirmwareConfig {
    fn default() -> (r: FirmwareConfig)
        ensures
            r.elf is None,
            r.axf is None,
    {
        FirmwareConfig { elf: None, axf: None }
    }
}

/// A group of watched symbols.
#[derive(Debug)]
pub struct WatchGroup {
    /// The time between two samples, in milliseconds.
    pub interval_ms: u64,
    /// The most rows that a compound symbol is spread over.
    pub max_elems: usize,
    pub symbols: Vec<String>,
}

/// The time between two samples of a watch group where none is given.
pub fn default_interval_ms() -> (r: u64)
    ensures
        r == 100,
{
    100
}

/// The rows of a compound symbol where no number is given.
pub fn default_watch_max_elems() -> (r: usize)
    ensures
        r == 8,
{
    8
}

/// A set of plots.
#[derive(Debug)]
pub struct PlotConfig {
    /// The time between two samples, in milliseconds.
    pub interval_ms: u64,
    /// The width of the rolling window, in seconds.
    pub window_secs: Double,
    /// The symbols of each plot.
    pub groups: Vec<Vec<String>>,
}

/// The time between two samples of a plot where none is given.
pub fn default_plot_interval_ms() -> (r: u64)
    ensures
        r == 20,
{
    20
}

/// The width of the rolling window where none is given: five seconds.
pub fn default_plot_window_secs() -> (r: Double)
    ensures
        r.bits == 0x4014_0000_0000_0000,
        r.positive_finite(),
{
    Double { bits: 0x4014_0000_0000_0000 }
}

/// The whole configuration.
#[derive(Debug)]
pub struct ToolConfig {
    pub version: u32,
    pub probe: ProbeConfig,
    pub chip: ChipConfig,
    pub firmware: FirmwareConfig,
    pub watch: NameTable<WatchGroup>,
    pub plot: NameTable<PlotConfig>,
}

// ---------------------------------------------------------------------------
// Refusals
// ---------------------------------------------------------------------------

/// What is wrong with a configuration. `T` is the form in which text is held.
#[derive(Debug)]
pub enum ConfigError<T> {
    Version(u32),
    ChipName,
    Speed,
    WatchName,
    WatchInterval(T),
    WatchMaxElems(T),
    WatchNoSymbols(T),
    WatchBlankSymbol(T),
    PlotName,
    PlotInterval(T),
    PlotWindow(T),
    PlotNoGroups(T),
    /// The plots and the number of the empty one, counted from one.
    PlotEmptyGroup(T, u64),
    PlotBlankSymbol(T),
}

impl View for ConfigError<String> {
    type V = ConfigError<Seq<char>>;

    open spec fn view(&self) -> ConfigError<Seq<char>> {
        match *self {
            ConfigError::Version(v) => ConfigError::Version(v),
            ConfigError::ChipName => ConfigError::ChipName,
            ConfigError::Speed => ConfigError::Speed,
            ConfigError::WatchName => ConfigError::WatchName,
            ConfigError::WatchInterval(n) => ConfigError::WatchInterval(n@),
            ConfigError::WatchMaxElems(n) => ConfigError::WatchMaxElems(n@),
            ConfigError::WatchNoSymbols(n) => ConfigError::WatchNoSymbols(n@),
            ConfigError::WatchBlankSymbol(n) => ConfigError::WatchBlankSymbol(n@),
            ConfigError::PlotName => ConfigError::PlotName,
            ConfigError::PlotInterval(n) => ConfigError::PlotInterval(n@),
            ConfigError::PlotWindow(n) => ConfigError::PlotWindow(n@),
            ConfigError::PlotNoGroups(n) => ConfigError::PlotNoGroups(n@),
            ConfigError::PlotEmptyGroup(n, i) => ConfigError::PlotEmptyGroup(n@, i),
            ConfigError::PlotBlankSymbol(n) => ConfigError::PlotBlankSymbol(n@),
        }
    }
}

impl ConfigError<Seq<char>> {
    /// The wording of each refusal.
    pub open spec fn text(self) -> Seq<char> {
        match self {
            ConfigError::Version(v) => "配置文件版本 "@ + dec(v as nat)
                + " 不受支持（当前支持版本 "@ + dec(CURRENT_VERSION as nat)
                + "），请检查 version 字段"@,
            ConfigError::ChipName => "chip.name 不能为空"@,
            ConfigError::Speed => "probe.speed_khz 不能为 0"@,
            ConfigError::WatchName => "watch 组的名字不能为空"@,
            ConfigError::WatchInterval(n) => "watch 组 "@ + n + " 的 interval_ms 不能为 0"@,
            ConfigError::WatchMaxElems(n) => "watch 组 "@ + n + " 的 max_elems 不能为 0"@,
            ConfigError::WatchNoSymbols(n) => "watch 组 "@ + n + " 的 symbols 不能为空"@,
            ConfigError::WatchBlankSymbol(n) => "watch 组 "@ + n + " 里有空的符号表达式"@,
            ConfigError::PlotName => "plot 配置名不能为空"@,
            ConfigError::PlotInterval(n) => "plot 配置 "@ + n + " 的 interval_ms 不能为 0"@,
            ConfigError::PlotWindow(n) => "plot 配置 "@ + n + " 的 window_secs 必须为正数"@,
            ConfigError::PlotNoGroups(n) => "plot 配置 "@ + n
                + " 的 groups 不能为空（至少一个图）"@,
            ConfigError::PlotEmptyGroup(n, i) => "plot 配置 "@ + n + " 的第 "@ + dec(i as nat)
                + " 个图为空（每个图至少要有一个符号）"@,
            ConfigError::PlotBlankSymbol(n) => "plot 配置 "@ + n + " 里有空的符号表达式"@,
        }
    }
}

fn around(a: &str, b: &str, c: &str) -> (r: String)
    ensures
        r@ == a@ + b@ + c@,
{
    let mut s: String = String::from_str(a);
    s.append(b);
    s.append(c);
    s
}

impl ConfigError<String> {
    /// The wording of this refusal.
    pub fn message(&self) -> (r: String)
        ensures
            r@ == self@.text(),
    {
        match self {
            ConfigError::Version(v) => {
                let mut s: String = around(
                    "配置文件版本 ",
                    dec_text(*v as u64).as_str(),
                    " 不受支持（当前支持版本 ",
                );
                s.append(dec_text(CURRENT_VERSION as u64).as_str());
                s.append("），请检查 version 字段");
                s
            },
            ConfigError::ChipName => String::from_str("chip.name 不能为空"),
            ConfigError::Speed => String::from_str("probe.speed_khz 不能为 0"),
            ConfigError::WatchName => String::from_str("watch 组的名字不能为空"),
            ConfigError::WatchInterval(n) => around(
                "watch 组 ",
                n.as_str(),
                " 的 interval_ms 不能为 0",
            ),
            ConfigError::WatchMaxElems(n) => around(
                "watch 组 ",
                n.as_str(),
                " 的 max_elems 不能为 0",
            ),
            ConfigError::WatchNoSymbols(n) => around(
                "watch 组 ",
                n.as_str(),
                " 的 symbols 不能为空",
            ),
            ConfigError::WatchBlankSymbol(n) => around(
                "watch 组 ",
                n.as_str(),
                " 里有空的符号表达式",
            ),
            ConfigError::PlotName => String::from_str("plot 配置名不能为空"),
            ConfigError::PlotInterval(n) => around(
                "plot 配置 ",
                n.as_str(),
                " 的 interval_ms 不能为 0",
            ),
            ConfigError::PlotWindow(n) => around(
                "plot 配置 ",
                n.as_str(),
                " 的 window_secs 必须为正数",
            ),
            ConfigError::PlotNoGroups(n) => around(
                "plot 配置 ",
                n.as_str(),
                " 的 groups 不能为空（至少一个图）",
            ),
            ConfigError::PlotEmptyGroup(n, i) => {
                let mut s: String = around("plot 配置 ", n.as_str(), " 的第 ");
                s.append(dec_text(*i).as_str());
                s.append(" 个图为空（每个图至少要有一个符号）");
                s
            },
            ConfigError::PlotBlankSymbol(n) => around(
                "plot 配置 ",
                n.as_str(),
                " 里有空的符号表达式",
            ),
        }
    }
}

/// A text without a character that is not white space.
pub open spec fn blank(s: Seq<char>) -> bool {
    trim(s).len() == 0
}

/// Whether one of the symbols is blank.
pub open spec fn has_blank(symbols: Seq<String>) -> bool {
    exists|i: int| 0 <= i < symbols.len() && blank(#[trigger] symbols[i]@)
}

/// What is wrong with a watch group.
pub open spec fn watch_error(name: Seq<char>, w: WatchGroup) -> Option<ConfigError<Seq<char>>> {
    if blank(name) {
        Some(ConfigError::WatchName)
    } else if w.interval_ms == 0 {
        Some(ConfigError::WatchInterval(name))
    } else if w.max_elems == 0 {
        Some(ConfigError::WatchMaxElems(name))
    } else if w.symbols@.len() == 0 {
        Some(ConfigError::WatchNoSymbols(name))
    } else if has_blank(w.symbols@) {
        Some(ConfigError::WatchBlankSymbol(name))
    } else {
        None
    }
}

/// What is wrong with the plots from number `i` on.
pub open spec fn groups_error(name: Seq<char>, groups: Seq<Vec<String>>, i: nat) -> Option<
    ConfigError<Seq<char>>,
>
    decreases groups.len() - i,
{
    if i >= groups.len() {
        None
    } else if groups[i as int]@.len() == 0 {
        Some(ConfigError::PlotEmptyGroup(name, (i + 1) as u64))
    } else if has_blank(groups[i as int]@) {
        Some(ConfigError::PlotBlankSymbol(name))
    } else {
        groups_error(name, groups, i + 1)
    }
}

/// What is wrong with a set of plots.
pub open spec fn plot_error(name: Seq<char>, p: PlotConfig) -> Option<ConfigError<Seq<char>>> {
    if blank(name) {
        Some(ConfigError::PlotName)
    } else if p.interval_ms == 0 {
        Some(ConfigError::PlotInterval(name))
    } else if !p.window_secs.positive_finite() {
        Some(ConfigError::PlotWindow(name))
    } else if p.groups@.len() == 0 {
        Some(ConfigError::PlotNoGroups(name))
    } else {
        groups_error(name, p.groups@, 0)
    }
}

/// What is wrong with the first faulty watch group from number `i` on.
pub open spec fn watches_error(w: Seq<(String, WatchGroup)>, i: nat) -> Option<
    ConfigError<Seq<char>>,
>
    decreases w.len() - i,
{
    if i >= w.len() {
        None
    } else if watch_error(w[i as int].0@, w[i as int].1) is Some {
        watch_error(w[i as int].0@, w[i as int].1)
    } else {
        watches_error(w, i + 1)
    }
}

/// What is wrong with the first faulty set of plots from number `i` on.
pub open spec fn plots_error(p: Seq<(String, PlotConfig)>, i: nat) -> Option<ConfigError<Seq<char>>>
    decreases p.len() - i,
{
    if i >= p.len() {
        None
    } else if plot_error(p[i as int].0@, p[i as int].1) is Some {
        plot_error(p[i as int].0@, p[i as int].1)
    } else {
        plots_error(p, i + 1)
    }
}

/// What is wrong with a configuration, the first fault in the order of the
/// fields.
pub open spec fn config_error(c: ToolConfig) -> Option<ConfigError<Seq<char>>> {
    if c.version != CURRENT_VERSION {
        Some(ConfigError::Version(c.version))
    } else if blank(c.chip.name@) {
        Some(ConfigError::ChipName)
    } else if c.probe.speed_khz == 0 {
        Some(ConfigError::Speed)
    } else if watches_error(c.watch@, 0) is Some {
        watches_error(c.watch@, 0)
    } else {
        plots_error(c.plot@, 0)
    }
}

/// The view of a finding.
pub open spec fn finding(r: Result<(), ConfigError<String>>) -> Option<ConfigError<Seq<char>>> {
    match r {
        Ok(_) => None,
        Err(e) => Some(e@),
    }
}

fn any_blank(symbols: &Vec<String>) -> (r: bool)
    ensures
        r == has_blank(symbols@),
{
    let mut i: usize = 0;
    while i < symbols.len()
        invariant
            i <= symbols@.len(),
            forall|j: int| 0 <= j < i ==> !blank(#[trigger] symbols@[j]@),
        decreases symbols@.len() - i,
    {
        if is_blank(symbols[i].as_str()) {
            assert(blank(symbols@[i as int]@));
            return true;
        }
        i += 1;
    }
    false
}

/// Holds a watch group to the rules.
pub fn check_watch(name: &str, w: &WatchGroup) -> (r: Result<(), ConfigError<String>>)
    ensures
        finding(r) == watch_error(name@, *w),
{
    if is_blank(name) {
        return Err(ConfigError::WatchName);
    }
    if w.interval_ms == 0 {
        return Err(ConfigError::WatchInterval(String::from_str(name)));
    }
    if w.max_elems == 0 {
        return Err(ConfigError::WatchMaxElems(String::from_str(name)));
    }
    if w.symbols.len() == 0 {
        return Err(ConfigError::WatchNoSymbols(String::from_str(name)));
    }
    if any_blank(&w.symbols) {
        return Err(ConfigError::WatchBlankSymbol(String::from_str(name)));
    }
    Ok(())
}

/// Holds a set of plots to the rules.
pub fn check_plot(name: &str, p: &PlotConfig) -> (r: Result<(), ConfigError<String>>)
    ensures
        finding(r) == plot_error(name@, *p),
{
    if is_blank(name) {
        return Err(ConfigError::PlotName);
    }
    if p.interval_ms == 0 {
        return Err(ConfigError::PlotInterval(String::from_str(name)));
    }
    if !p.window_secs.is_positive_finite() {
        return Err(ConfigError::PlotWindow(String::from_str(name)));
    }
    if p.groups.len() == 0 {
        return Err(ConfigError::PlotNoGroups(String::from_str(name)));
    }
    let mut i: usize = 0;
    while i < p.groups.len()
        invariant
            i <= p.groups@.len(),
            plot_error(name@, *p) == groups_error(name@, p.groups@, i as nat),
        decreases p.groups@.len() - i,
    {
        let g: &Vec<String> = &p.groups[i];
        if g.len() == 0 {
            return Err(ConfigError::PlotEmptyGroup(String::from_str(name), i as u64 + 1));
        }
        if any_blank(g) {
            return Err(ConfigError::PlotBlankSymbol(String::from_str(name)));
        }
        i += 1;
    }
    Ok(())
}

// ---------------------------------------------------------------------------
// Paths
// ---------------------------------------------------------------------------

/// Whether a path depends on the directory it is taken from.
pub open spec fn relative(p: Seq<char>) -> bool {
    p.len() == 0 || p[0] != '/'
}

/// The relative path `p`, taken from the directory `dir`.
pub open spec fn joined(dir: Seq<char>, p: Seq<char>) -> Seq<char> {
    if dir.len() == 0 || dir.last() == '/' {
        dir + p
    } else {
        dir + "/"@ + p
    }
}

/// A path of a configuration that stands in `dir`.
pub open spec fn absolute_path(p: Seq<char>, dir: Seq<char>) -> Seq<char> {
    if relative(p) {
        joined(dir, p)
    } else {
        p
    }
}

/// A path that may be missing.
pub open spec fn absolute_option(p: Option<String>, dir: Seq<char>) -> Option<Seq<char>> {
    match p {
        Some(t) => Some(absolute_path(t@, dir)),
        None => None,
    }
}

/// The view of a path that may be missing.
pub open spec fn path_view(p: Option<String>) -> Option<Seq<char>> {
    match p {
        Some(t) => Some(t@),
        None => None,
    }
}

/// Takes a relative path from the directory of the configuration.
pub fn absolutize_one(p: &mut String, config_dir: &str)
    ensures
        final(p)@ == absolute_path(old(p)@, config_dir@),
{
    let v: Vec<char> = chars_of(p.as_str());
    if v.len() > 0 && v[0] == '/' {
        return ;
    }
    let d: Vec<char> = chars_of(config_dir);
    let mut s: String = String::from_str(config_dir);
    if d.len() > 0 && d[d.len() - 1] != '/' {
        s.append("/");
    }
    s.append(p.as_str());
    *p = s;
}

fn absolutize_option(p: Option<String>, config_dir: &str) -> (r: Option<String>)
    ensures
        path_view(r) == absolute_option(p, config_dir@),
{
    match p {
        None => None,
        Some(t) => {
            let mut t: String = t;
            absolutize_one(&mut t, config_dir);
            Some(t)
        },
    }
}

/// An absolute path stays as it is, whatever the directory, and a path taken
/// from an absolute directory is absolute: taking it again changes nothing.
pub proof fn law_absolute_paths_are_stable(p: Seq<char>, dir: Seq<char>, other: Seq<char>)
    ensures
        !relative(p) ==> absolute_path(p, dir) == p,
        !relative(dir) ==> !relative(absolute_path(p, dir)),
        !relative(dir) ==> absolute_path(absolute_path(p, dir), other) == absolute_path(p, dir),
{
}

// ---------------------------------------------------------------------------
// The firmware image
// ---------------------------------------------------------------------------

/// What stands at a path.
#[derive(Debug, Clone, Copy, PartialEq, Eq, Structural)]
pub enum PathState {
    File,
    /// Something, but no file.
    NotFile,
    Missing,
}

/// That neither image can be used: what stands at each path.
#[derive(Debug)]
pub struct NoImage {
    pub elf: Option<(String, PathState)>,
    pub axf: Option<(String, PathState)>,
}

/// How a path that cannot be used is reported.
pub open spec fn shown(p: Option<(String, PathState)>) -> Seq<char> {
    match p {
        None => "未配置"@,
        Some((t, s)) => t@ + "（"@ + (if s == PathState::Missing {
            "不存在"@
        } else {
            "存在但不是文件"@
        }) + "）"@,
    }
}

fn show(p: &Option<(String, PathState)>) -> (r: String)
    ensures
        r@ == shown(*p),
{
    match p {
        None => String::from_str("未配置"),
        Some((t, s)) => {
            let mut r: String = String::from_str(t.as_str());
            r.append("（");
            match s {
                PathState::Missing => r.append("不存在"),
                _ => r.append("存在但不是文件"),
            }
            r.append("）");
            r
        },
    }
}

impl NoImage {
    /// The wording of the failure.
    pub fn message(&self) -> (r: String)
        ensures
            r@ == "找不到固件镜像：firmware.elf 为 "@ + shown(self.elf) + "，firmware.axf 为 "@
                + shown(self.axf) + "；请确认路径（Keil 的 .axf 也可直接填）"@,
    {
        let mut s: String = String::from_str("找不到固件镜像：firmware.elf 为 ");
        s.append(show(&self.elf).as_str());
        s.append("，firmware.axf 为 ");
        s.append(show(&self.axf).as_str());
        s.append("；请确认路径（Keil 的 .axf 也可直接填）");
        s
    }
}

/// Whether a path is given and a file stands there.
pub open spec fn usable(p: Option<String>, s: PathState) -> bool {
    p is Some && s == PathState::File
}

fn place(p: &Option<String>, s: PathState) -> (r: Option<(String, PathState)>)
    ensures
        match *p {
            None => r is None,
            Some(t) => r matches Some(x) && x.0@ == t@ && x.1 == s,
        },
{
    match p {
        None => None,
        Some(t) => Some((String::from_str(t.as_str()), s)),
    }
}

impl ToolConfig {
    /// Holds a configuration that was read to the rules, and hands it on if it
    /// breaks none.
    pub fn load(config: ToolConfig) -> (r: Result<ToolConfig, ConfigError<String>>)
        ensures
            match r {
                Ok(c) => c == config && config_error(config) is None,
                Err(e) => config_error(config) == Some(e@),
            },
    {
        if config.version != CURRENT_VERSION {
            return Err(ConfigError::Version(config.version));
        }
        if is_blank(config.chip.name.as_str()) {
            return Err(ConfigError::ChipName);
        }
        if config.probe.speed_khz == 0 {
            return Err(ConfigError::Speed);
        }
        let mut i: usize = 0;
        while i < config.watch.len()
            invariant
                i <= config.watch@.len(),
                watches_error(config.watch@, 0) == watches_error(config.watch@, i as nat),
                config_error(config) == (if watches_error(config.watch@, 0) is Some {
                    watches_error(config.watch@, 0)
                } else {
                    plots_error(config.plot@, 0)
                }),
            decreases config.watch@.len() - i,
        {
            match check_watch(config.watch.name(i), config.watch.value(i)) {
                Err(e) => {
                    return Err(e);
                },
                Ok(_) => {},
            }
            i += 1;
        }
        let mut k: usize = 0;
        while k < config.plot.len()
            invariant
                k <= config.plot@.len(),
                config_error(config) == plots_error(config.plot@, k as nat),
            decreases config.plot@.len() - k,
        {
            match check_plot(config.plot.name(k), config.plot.value(k)) {
                Err(e) => {
                    return Err(e);
                },
                Ok(_) => {},
            }
            k += 1;
        }
        Ok(config)
    }

    /// Takes the relative paths of the configuration from the directory that
    /// the configuration stands in.
    pub fn absolutize(&mut self, config_dir: &str)
        ensures
            path_view(final(self).chip.description) == absolute_option(
                old(self).chip.description,
                config_dir@,
            ),
            path_view(final(self).chip.pack) == absolute_option(old(self).chip.pack, config_dir@),
            path_view(final(self).firmware.elf) == absolute_option(
                old(self).firmware.elf,
                config_dir@,
            ),
            path_view(final(self).firmware.axf) == absolute_option(
                old(self).firmware.axf,
                config_dir@,
            ),
            final(self).version == old(self).version,
            final(self).probe == old(self).probe,
            final(self).chip.name == old(self).chip.name,
            final(self).watch == old(self).watch,
            final(self).plot == old(self).plot,
    {
        self.chip.description = absolutize_option(self.chip.description.take(), config_dir);
        self.chip.pack = absolutize_option(self.chip.pack.take(), config_dir);
        self.firmware.elf = absolutize_option(self.firmware.elf.take(), config_dir);
        self.firmware.axf = absolutize_option(self.firmware.axf.take(), config_dir);
    }

    /// The firmware image to use: the first of `firmware.elf` and `firmware.axf`
    /// at whose path a file stands. The arguments tell what stands there.
    pub fn firmware_image(&self, elf: PathState, axf: PathState) -> (r: Result<&str, NoImage>)
        ensures
            match r {
                Ok(p) => {
                    ||| usable(self.firmware.elf, elf) && p@ == self.firmware.elf->0@
                    ||| !usable(self.firmware.elf, elf) && usable(self.firmware.axf, axf) && p@
                        == self.firmware.axf->0@
                },
                Err(e) => {
                    &&& !usable(self.firmware.elf, elf)
                    &&& !usable(self.firmware.axf, axf)
                    &&& match self.firmware.elf {
                        None => e.elf is None,
                        Some(t) => e.elf matches Some(x) && x.0@ == t@ && x.1 == elf,
                    }
                    &&& match self.firmware.axf {
                        None => e.axf is None,
                        Some(t) => e.axf matches Some(x) && x.0@ == t@ && x.1 == axf,
                    }
                },
            },
    {
        if let Some(p) = &self.firmware.elf {
            if elf == PathState::File {
                return Ok(p.as_str());
            }
        }
        if let Some(p) = &self.firmware.axf {
            if axf == PathState::File {
                return Ok(p.as_str());
            }
        }
        Err(NoImage { elf: place(&self.firmware.elf, elf), axf: place(&self.firmware.axf, axf) })
    }
}

// ---------------------------------------------------------------------------
// What is accepted
// ---------------------------------------------------------------------------

/// Whether a text holds anything but white space.
pub open spec fn says_something(t: Seq<char>) -> bool {
    exists|i: int| 0 <= i < t.len() && !is_white_space(#[trigger] t[i])
}

/// Whether all of some symbols say something, and there are any.
pub open spec fn good_symbols(symbols: Seq<String>) -> bool {
    &&& symbols.len() > 0
    &&& forall|i: int| 0 <= i < symbols.len() ==> says_something(#[trigger] symbols[i]@)
}

/// Whether a watch group can be used.
pub open spec fn good_watch(name: Seq<char>, w: WatchGroup) -> bool {
    &&& says_something(name)
    &&& w.interval_ms > 0
    &&& w.max_elems > 0
    &&& good_symbols(w.symbols@)
}

/// Whether plots can be used.
pub open spec fn good_plot(name: Seq<char>, p: PlotConfig) -> bool {
    &&& says_something(name)
    &&& p.interval_ms > 0
    &&& p.window_secs.positive_finite()
    &&& p.groups@.len() > 0
    &&& forall|g: int| 0 <= g < p.groups@.len() ==> good_symbols((#[trigger] p.groups@[g])@)
}

proof fn lemma_blank(t: Seq<char>)
    ensures
        blank(t) == !says_something(t),
{
    if says_something(t) {
        let i = choose|i: int| 0 <= i < t.len() && !is_white_space(#[trigger] t[i]);
        lemma_kept_by_trim(t, i);
    } else {
        assert forall|i: int| 0 <= i < t.len() implies is_white_space(#[trigger] t[i]) by {}
        lemma_hollow_trimmed(t);
    }
}

proof fn lemma_symbols(symbols: Seq<String>)
    ensures
        good_symbols(symbols) == (symbols.len() > 0 && !has_blank(symbols)),
{
    assert forall|i: int| 0 <= i < symbols.len() implies blank(#[trigger] symbols[i]@)
        == !says_something(symbols[i]@) by {
        lemma_blank(symbols[i]@);
    }
}

proof fn lemma_good_groups(name: Seq<char>, groups: Seq<Vec<String>>, i: nat)
    ensures
        groups_error(name, groups, i) is None <==> forall|g: int|
            i <= g < groups.len() ==> good_symbols((#[trigger] groups[g])@),
    decreases groups.len() - i,
{
    if i < groups.len() {
        lemma_symbols(groups[i as int]@);
        lemma_good_groups(name, groups, i + 1);
        if groups_error(name, groups, i) is Some && good_symbols(groups[i as int]@) {
            assert(groups_error(name, groups, i + 1) is Some);
        }
    }
}

proof fn lemma_good_watches(w: Seq<(String, WatchGroup)>, i: nat)
    ensures
        watches_error(w, i) is None <==> forall|k: int|
            i <= k < w.len() ==> good_watch((#[trigger] w[k]).0@, w[k].1),
    decreases w.len() - i,
{
    if i < w.len() {
        lemma_blank(w[i as int].0@);
        lemma_symbols(w[i as int].1.symbols@);
        lemma_good_watches(w, i + 1);
    }
}

proof fn lemma_good_plots(p: Seq<(String, PlotConfig)>, i: nat)
    ensures
        plots_error(p, i) is None <==> forall|k: int|
            i <= k < p.len() ==> good_plot((#[trigger] p[k]).0@, p[k].1),
    decreases p.len() - i,
{
    if i < p.len() {
        lemma_blank(p[i as int].0@);
        lemma_good_groups(p[i as int].0@, p[i as int].1.groups@, 0);
        lemma_good_plots(p, i + 1);
    }
}

/// A configuration is accepted where all of it can be used, every watch group and
/// every plot of it, and refused where anything cannot.
pub proof fn law_good_configurations_are_accepted(c: ToolConfig)
    ensures
        config_error(c) is None <==> {
            &&& c.version == 1
            &&& says_something(c.chip.name@)
            &&& c.probe.speed_khz > 0
            &&& forall|k: int|
                0 <= k < c.watch@.len() ==> good_watch((#[trigger] c.watch@[k]).0@, c.watch@[k].1)
            &&& forall|k: int|
                0 <= k < c.plot@.len() ==> good_plot((#[trigger] c.plot@[k]).0@, c.plot@[k].1)
        },
{
    lemma_blank(c.chip.name@);
    lemma_good_watches(c.watch@, 0);
    lemma_good_plots(c.plot@, 0);
}

/// A relative path is taken from the directory of the configuration.
pub proof fn law_relative_paths_stand_below(p: Seq<char>, dir: Seq<char>)
    requires
        p.len() > 0,
        dir.len() > 0,
    ensures
        p[0] == '/' ==> absolute_path(p, dir) == p,
        p[0] != '/' && dir.last() != '/' ==> absolute_path(p, dir) == dir.push('/') + p,
        p[0] != '/' && dir.last() == '/' ==> absolute_path(p, dir) == dir + p,
{
    reveal_strlit("/");
    assert(dir + "/"@ + p =~= dir.push('/') + p);
}

/// The image that is used: the first of the two that is a file. A path that is not
/// given stays so, and one that is given is taken from the directory of the
/// configuration.
pub proof fn law_images_are_files(p: Option<String>, s: PathState, dir: Seq<char>)
    ensures
        usable(p, s) <==> p is Some && s == PathState::File,
        p is None ==> absolute_option(p, dir) is None,
        p matches Some(t) ==> absolute_option(p, dir) == Some(absolute_path(t@, dir)),
        p matches Some(t) ==> path_view(p) == Some(t@),
        p is None ==> path_view(p) is None,
{
}

}
