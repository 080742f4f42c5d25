//! From the configuration to a debug session: which chip description is used
//! and which probe.
//!
//! A chip that is built into `probe-rs` needs nothing else. Any other needs a
//! description file, which is added to the registry before the chip is looked
//! up again. The ways in which this can fail are told apart.
use vstd::prelude::*;
use probe_rs::config::Registry;
use probe_rs::config::RegistryError::{
    ChipAutodetectFailed, ChipNotFound, ChipNotUnique, InvalidChipFamilyDefinition, Io,
    UnknownCoreType, Yaml,
};
use crate::config::{ChipConfig, ProbeSelector};
use crate::number::{dec, dec_text, hex, hex_text, pad_right, pad_right_text};
use crate::text::{chars_of, mentions, same_text, string_of, trim, trim_of};

verus! {

// ---------------------------------------------------------------------------
// The registry of chips
// ---------------------------------------------------------------------------

/// The registry of `probe-rs`: the chip families that are known.
#[verifier::external_type_specification]
#[verifier::external_body]
pub struct ExRegistry(probe_rs::config::Registry);

/// A chip as `probe-rs` drives it.
#[verifier::external_type_specification]
#[verifier::external_body]
pub struct ExTarget(probe_rs::config::Target);

/// Why the registry has no chip for a name. `T` is the form in which text is
/// held.
#[derive(Debug)]
pub enum LookupFailure<T> {
    NotFound,
    /// The name, and the chips that it fits.
    NotUnique(T, T),
    AutodetectFailed,
    UnknownCore(T),
    Io(T),
    Yaml(T),
    /// The family, and what is wrong with it.
    InvalidFamily(T, T),
}

impl View for LookupFailure<String> {
    type V = LookupFailure<Seq<char>>;

    open spec fn view(&self) -> LookupFailure<Seq<char>> {
        match *self {
            LookupFailure::NotFound => LookupFailure::NotFound,
            LookupFailure::NotUnique(a, b) => LookupFailure::NotUnique(a@, b@),
            LookupFailure::AutodetectFailed => LookupFailure::AutodetectFailed,
            LookupFailure::UnknownCore(a) => LookupFailure::UnknownCore(a@),
            LookupFailure::Io(a) => LookupFailure::Io(a@),
            LookupFailure::Yaml(a) => LookupFailure::Yaml(a@),
            LookupFailure::InvalidFamily(a, b) => LookupFailure::InvalidFamily(a@, b@),
        }
    }
}

/// A chip that the registry has.
pub struct FoundChip {
    /// The chip.
    pub target: probe_rs::config::Target,
    /// Its full name.
    pub name: String,
}

/// What the registry holds under each name: the full name of the chip, or why
/// there is none.
pub uninterp spec fn registry_chips(r: Registry) -> Map<
    Seq<char>,
    Result<Seq<char>, LookupFailure<Seq<char>>>,
>;

/// What a registry holds under each name once the family of a description has
/// been added to it.
pub uninterp spec fn chips_with(r: Registry, yaml: Seq<char>) -> Map<
    Seq<char>,
    Result<Seq<char>, LookupFailure<Seq<char>>>,
>;

/// The name under which `probe-rs` drives a chip.
pub uninterp spec fn target_name(t: probe_rs::config::Target) -> Seq<char>;

/// The view of a lookup.
pub open spec fn lookup_view(r: Result<FoundChip, LookupFailure<String>>) -> Result<
    Seq<char>,
    LookupFailure<Seq<char>>,
> {
    match r {
        Ok(f) => Ok(f.name@),
        Err(e) => Err(e@),
    }
}

/// `probe_rs::config::Registry::from_builtin_families`: a registry of the chips
/// that are built in. Nothing is claimed of it.
pub assume_specification[ probe_rs::config::Registry::from_builtin_families ]() -> (r:
    probe_rs::config::Registry)
;

/// `probe_rs::config::Registry::get_target_by_name`: the chip that the registry
/// has for a name, with its full name, or the variant of the error with what it
/// holds. Claimed is that the outcome is what the registry holds under the name,
/// and that the name handed out is that of the chip.
#[verifier::external_body]
fn find_chip(registry: &Registry, name: &str) -> (r: Result<FoundChip, LookupFailure<String>>)
    ensures
        lookup_view(r) == registry_chips(*registry)[name@],
        r matches Ok(f) ==> target_name(f.target) == f.name@,
{
    match registry.get_target_by_name(name) {
        Ok(target) => Ok(FoundChip { name: target.name.clone(), target }),
        Err(ChipNotFound(_)) => Err(LookupFailure::NotFound),
        Err(ChipNotUnique(a, b)) => Err(LookupFailure::NotUnique(a, b)),
        Err(ChipAutodetectFailed) => Err(LookupFailure::AutodetectFailed),
        Err(UnknownCoreType(a)) => Err(LookupFailure::UnknownCore(a)),
        Err(Io(e)) => Err(LookupFailure::Io(e.to_string())),
        Err(Yaml(e)) => Err(LookupFailure::Yaml(e.to_string())),
        Err(InvalidChipFamilyDefinition(f, a)) => Err(LookupFailure::InvalidFamily(f.name, a)),
    }
}

/// Why a description was not added: the wording of the failure, and that of its
/// cause where it has one. `T` is the form in which text is held.
#[derive(Debug)]
pub struct AddFailure<T> {
    pub wording: T,
    pub cause: Option<T>,
}

impl View for AddFailure<String> {
    type V = AddFailure<Seq<char>>;

    open spec fn view(&self) -> AddFailure<Seq<char>> {
        AddFailure {
            wording: self.wording@,
            cause: match self.cause {
                Some(t) => Some(t@),
                None => None,
            },
        }
    }
}

impl AddFailure<Seq<char>> {
    /// The failure and its cause in one text.
    pub open spec fn text(self) -> Seq<char> {
        match self.cause {
            Some(t) => self.wording + ": "@ + t,
            None => self.wording,
        }
    }
}

impl AddFailure<String> {
    /// The failure and its cause in one text.
    pub fn message(&self) -> (r: String)
        ensures
            r@ == self@.text(),
    {
        let mut s: String = String::from_str(self.wording.as_str());
        if let Some(t) = &self.cause {
            s.append(": ");
            s.append(t.as_str());
        }
        s
    }
}

/// `probe_rs::config::Registry::add_target_family_from_yaml`: adds the family of
/// a description, in the place of one of the same name. Claimed is that a failure
/// leaves the registry as it was, and that what the registry holds after a
/// success depends on what it was and on the description alone. When it fails is
/// not stated: that also depends on the image formats that the process has
/// registered. Nothing is claimed of the wording, which is that of the error and
/// of its source.
#[verifier::external_body]
fn add_description(registry: &mut Registry, yaml: &str) -> (r: Result<(), AddFailure<String>>)
    ensures
        r is Ok ==> registry_chips(*final(registry)) == chips_with(*old(registry), yaml@),
        r is Err ==> *final(registry) == *old(registry),
{
    registry.add_target_family_from_yaml(yaml).map(|_name| ()).map_err(|e| AddFailure {
        wording: e.to_string(),
        cause: std::error::Error::source(&e).map(|cause| cause.to_string()),
    })
}

// ---------------------------------------------------------------------------
// Refusals
// ---------------------------------------------------------------------------

/// Why a chip cannot be used. `T` is the form in which text is held.
#[derive(Debug)]
pub enum ChipError<T> {
    /// The description file cannot be read: its path, why, and the path of the
    /// vendor's pack, where one is given.
    Unreadable(T, T, Option<T>),
    /// The description file cannot be used: its path, and why.
    Malformed(T, AddFailure<T>),
    /// The chip is not to be had with the description either: its path, and why.
    Lookup(T, LookupFailure<T>),
    /// The chip is not built in and there is no description. With the path of
    /// the vendor's pack, where one is given.
    Unsupported(Option<T>),
}

impl View for ChipError<String> {
    type V = ChipError<Seq<char>>;

    open spec fn view(&self) -> ChipError<Seq<char>> {
        match *self {
            ChipError::Unreadable(p, e, pack) => ChipError::Unreadable(p@, e@, opt_view(pack)),
            ChipError::Malformed(p, e) => ChipError::Malformed(p@, e@),
            ChipError::Lookup(p, e) => ChipError::Lookup(p@, e@),
            ChipError::Unsupported(pack) => ChipError::Unsupported(opt_view(pack)),
        }
    }
}

/// The view of a path that may be missing.
pub open spec fn opt_view(p: Option<String>) -> Option<Seq<char>> {
    match p {
        Some(t) => Some(t@),
        None => None,
    }
}

/// How a description file is made of the vendor's pack, as a command to copy.
pub open spec fn pack_advice(pack: Option<Seq<char>>) -> Seq<char> {
    "    target-gen pack "@ + (match pack {
        Some(p) => p,
        None => "<厂商DFP.pack 或 Keil 已解压目录>"@,
    }) + " ./targets/\n\n   然后把生成文件的路径写进 chip.description。"@
}

fn push_pack_advice(s: &mut String, pack: Option<&str>)
    ensures
        final(s)@ == old(s)@ + pack_advice(
            match pack {
                Some(p) => Some(p@),
                None => None,
            },
        ),
{
    let ghost start = s@;
    s.append("    target-gen pack ");
    match pack {
        Some(p) => s.append(p),
        None => s.append("<厂商DFP.pack 或 Keil 已解压目录>"),
    }
    s.append(" ./targets/\n\n   然后把生成文件的路径写进 chip.description。");
    assert(s@ =~= start + pack_advice(
        match pack {
            Some(p) => Some(p@),
            None => None,
        },
    ));
}

/// The advice on a chip that is not supported.
pub open spec fn help_text(name: Seq<char>, pack: Option<Seq<char>>) -> Seq<char> {
    "芯片 "@ + name
        + " 不在 probe-rs 内置支持列表，且配置里没有 chip.description。\n\n方案 A —— 已有描述文件（target-gen 产物），在 tscope.yaml 里加：\n    chip:\n      name: "@
        + name
        + "\n      description: targets/xxx_Series.yaml\n\n方案 B —— 有 CMSIS-Pack，先用 target-gen 生成描述文件：\n"@
        + pack_advice(pack)
}

/// Writes the advice on a chip that is not supported.
pub fn unsupported_chip_help(name: &str, pack: Option<&str>) -> (r: String)
    ensures
        r@ == help_text(
            name@,
            match pack {
                Some(p) => Some(p@),
                None => None,
            },
        ),
{
    let mut s: String = String::from_str("芯片 ");
    s.append(name);
    s.append(
        " 不在 probe-rs 内置支持列表，且配置里没有 chip.description。\n\n方案 A —— 已有描述文件（target-gen 产物），在 tscope.yaml 里加：\n    chip:\n      name: ",
    );
    s.append(name);
    s.append(
        "\n      description: targets/xxx_Series.yaml\n\n方案 B —— 有 CMSIS-Pack，先用 target-gen 生成描述文件：\n",
    );
    push_pack_advice(&mut s, pack);
    s
}

impl ChipError<Seq<char>> {
    /// The wording of each failure for the chip called `name`.
    pub open spec fn text(self, name: Seq<char>) -> Seq<char> {
        match self {
            ChipError::Unreadable(path, e, pack) => "芯片 "@ + name
                + " 不在 probe-rs 内置支持列表，且配置指定的芯片描述文件不存在："@ + path
                + ": "@ + e + "\n\n有 CMSIS-Pack 时，先用 target-gen 生成描述文件：\n"@ + pack_advice(pack),
            ChipError::Malformed(path, e) => "芯片描述文件解析失败："@ + path + ": "@
                + e.text(),
            ChipError::Lookup(path, f) => match f {
                LookupFailure::NotFound => "芯片描述文件 "@ + path + " 里没有名为 "@ + name
                    + " 的变体：\n请检查 chip.name 拼写（必须与描述文件里的变体名精确一致），\n或换用正确的 CMSIS-Pack 重新生成描述文件。"@,
                LookupFailure::NotUnique(matched, candidates) => "chip.name \""@ + matched
                    + "\" 匹配到多个型号（"@ + candidates
                    + "），无法唯一确定：\n请把 chip.name 写成完整型号名（可用 grep \"^- name:\" 查看描述文件里的全部变体）。"@,
                LookupFailure::AutodetectFailed => "无法自动识别连接的芯片：请在配置里显式指定 chip.name。"@,
                LookupFailure::UnknownCore(core) => "描述文件里 "@ + name + " 的内核类型 \""@ + core
                    + "\" 当前 probe-rs 版本不支持：\n请升级 probe-rs，或检查所用的 CMSIS-Pack 是否与该芯片匹配。"@,
                LookupFailure::Io(e) => "读取芯片描述文件时发生 IO 错误："@ + e,
                LookupFailure::Yaml(e) => "芯片描述文件 YAML 解析失败："@ + e,
                LookupFailure::InvalidFamily(family, reason) => "芯片描述文件的数据校验未通过（家族 "@
                    + family + "）："@ + reason,
            },
            ChipError::Unsupported(pack) => help_text(name, pack),
        }
    }
}

fn push3(s: &mut String, a: &str, b: &str, c: &str)
    ensures
        final(s)@ == old(s)@ + a@ + b@ + c@,
{
    s.append(a);
    s.append(b);
    s.append(c);
}

impl ChipError<String> {
    /// The wording of this failure for the chip called `name`.
    pub fn message(&self, name: &str) -> (r: String)
        ensures
            r@ == self@.text(name@),
    {
        let mut s: String;
        match self {
            ChipError::Unreadable(path, e, pack) => {
                s = String::from_str("芯片 ");
                push3(
                    &mut s,
                    name,
                    " 不在 probe-rs 内置支持列表，且配置指定的芯片描述文件不存在：",
                    path.as_str(),
                );
                push3(
                    &mut s,
                    ": ",
                    e.as_str(),
                    "\n\n有 CMSIS-Pack 时，先用 target-gen 生成描述文件：\n",
                );
                push_pack_advice(
                    &mut s,
                    match pack {
                        Some(p) => Some(p.as_str()),
                        None => None,
                    },
                );
            },
            ChipError::Malformed(path, e) => {
                s = String::from_str("芯片描述文件解析失败：");
                push3(&mut s, path.as_str(), ": ", e.message().as_str());
            },
            ChipError::Lookup(path, f) => match f {
                LookupFailure::NotFound => {
                    s = String::from_str("芯片描述文件 ");
                    push3(&mut s, path.as_str(), " 里没有名为 ", name);
                    s.append(
                        " 的变体：\n请检查 chip.name 拼写（必须与描述文件里的变体名精确一致），\n或换用正确的 CMSIS-Pack 重新生成描述文件。",
                    );
                },
                LookupFailure::NotUnique(matched, candidates) => {
                    s = String::from_str("chip.name \"");
                    push3(
                        &mut s,
                        matched.as_str(),
                        "\" 匹配到多个型号（",
                        candidates.as_str(),
                    );
                    s.append(
                        "），无法唯一确定：\n请把 chip.name 写成完整型号名（可用 grep \"^- name:\" 查看描述文件里的全部变体）。",
                    );
                },
                LookupFailure::AutodetectFailed => {
                    s = String::from_str(
                        "无法自动识别连接的芯片：请在配置里显式指定 chip.name。",
                    );
                },
                LookupFailure::UnknownCore(core) => {
                    s = String::from_str("描述文件里 ");
                    push3(&mut s, name, " 的内核类型 \"", core.as_str());
                    s.append(
                        "\" 当前 probe-rs 版本不支持：\n请升级 probe-rs，或检查所用的 CMSIS-Pack 是否与该芯片匹配。",
                    );
                },
                LookupFailure::Io(e) => {
                    s = String::from_str("读取芯片描述文件时发生 IO 错误：");
                    s.append(e.as_str());
                },
                LookupFailure::Yaml(e) => {
                    s = String::from_str("芯片描述文件 YAML 解析失败：");
                    s.append(e.as_str());
                },
                LookupFailure::InvalidFamily(family, reason) => {
                    s = String::from_str("芯片描述文件的数据校验未通过（家族 ");
                    push3(&mut s, family.as_str(), "）：", reason.as_str());
                },
            },
            ChipError::Unsupported(None) => {
                s = unsupported_chip_help(name, None);
            },
            ChipError::Unsupported(Some(pack)) => {
                s = unsupported_chip_help(name, Some(pack.as_str()));
            },
        }
        s
    }
}

// ---------------------------------------------------------------------------
// The chip
// ---------------------------------------------------------------------------

/// What a registry gives for a chip that is looked up with the description file
/// at `path`.
pub open spec fn lookup_result(
    chips: Map<Seq<char>, Result<Seq<char>, LookupFailure<Seq<char>>>>,
    name: Seq<char>,
    path: Seq<char>,
) -> Result<Seq<char>, ChipError<Seq<char>>> {
    match chips[name] {
        Ok(n) => Ok(n),
        Err(e) => Err(ChipError::Lookup(path, e)),
    }
}

/// What comes of looking a chip up. `before` and `after` are the contents of
/// the registry at the start and at the end; `files` says what a file holds, or
/// why it cannot be read. A description that is read is refused, and the
/// registry stays as it was, or it is added.
pub open spec fn resolved(
    before: Registry,
    after: Registry,
    chip: ChipConfig,
    files: spec_fn(Seq<char>) -> Result<Seq<char>, Seq<char>>,
    r: Result<Seq<char>, ChipError<Seq<char>>>,
) -> bool {
    let name = trim(chip.name@);
    if registry_chips(before)[name] is Ok {
        after == before && r == Ok::<_, ChipError<Seq<char>>>(registry_chips(before)[name]->Ok_0)
    } else {
        match chip.description {
            None => after == before && r == Err::<Seq<char>, _>(
                ChipError::Unsupported(opt_view(chip.pack)),
            ),
            Some(path) => match files(path@) {
                Err(e) => after == before && r == Err::<Seq<char>, _>(
                    ChipError::Unreadable(path@, e, opt_view(chip.pack)),
                ),
                Ok(text) => {
                    ||| {
                        &&& after == before
                        &&& r matches Err(ChipError::Malformed(p, _))
                        &&& p == path@
                    }
                    ||| {
                        &&& registry_chips(after) == chips_with(before, text)
                        &&& r == lookup_result(chips_with(before, text), name, path@)
                    }
                },
            },
        }
    }
}

/// Whether a reader of files answers as `files` does.
pub open spec fn reads<F: Fn(&str) -> Result<String, String>>(
    read: F,
    files: spec_fn(Seq<char>) -> Result<Seq<char>, Seq<char>>,
) -> bool {
    forall|p: &str, r: Result<String, String>| #[trigger]
        call_ensures(read, (p,), r) ==> (match r {
            Ok(t) => files(p@) == Ok::<_, Seq<char>>(t@),
            Err(e) => files(p@) == Err::<Seq<char>, _>(e@),
        })
}

/// What comes of looking a chip up with that reader of files.
pub open spec fn resolved_by<F: Fn(&str) -> Result<String, String>>(
    read: F,
    before: Registry,
    after: Registry,
    chip: ChipConfig,
    r: Result<Seq<char>, ChipError<Seq<char>>>,
) -> bool {
    forall|files: spec_fn(Seq<char>) -> Result<Seq<char>, Seq<char>>| #[trigger]
        reads(read, files) ==> resolved(before, after, chip, files, r)
}

/// The view of a chip that was looked up.
pub open spec fn chip_view(r: Result<FoundChip, ChipError<String>>) -> Result<
    Seq<char>,
    ChipError<Seq<char>>,
> {
    match r {
        Ok(f) => Ok(f.name@),
        Err(e) => Err(e@),
    }
}

/// Looks a chip up once its description, from the file at `path`, has been added
/// or refused.
pub fn described_chip(
    registry: &Registry,
    name: &str,
    path: &str,
    outcome: Result<(), AddFailure<String>>,
) -> (r: Result<FoundChip, ChipError<String>>)
    ensures
        chip_view(r) == match outcome {
            Err(e) => Err(ChipError::Malformed(path@, e@)),
            Ok(_) => lookup_result(registry_chips(*registry), name@, path@),
        },
        r matches Ok(f) ==> target_name(f.target) == f.name@,
{
    match outcome {
        Err(e) => Err(ChipError::Malformed(String::from_str(path), e)),
        Ok(_) => match find_chip(registry, name) {
            Ok(found) => Ok(found),
            Err(f) => Err(ChipError::Lookup(String::from_str(path), f)),
        },
    }
}

fn copied(p: &Option<String>) -> (r: Option<String>)
    ensures
        opt_view(r) == opt_view(*p),
{
    match p {
        Some(t) => Some(String::from_str(t.as_str())),
        None => None,
    }
}

/// Finds the chip of the configuration: among the built-in ones, else in the
/// description file, which `read` reads.
pub fn resolve_target<F: Fn(&str) -> Result<String, String>>(
    registry: &mut Registry,
    chip: &ChipConfig,
    read: &F,
) -> (r: Result<FoundChip, ChipError<String>>)
    requires
        forall|p: &str| call_requires(*read, (p,)),
    ensures
        resolved_by(*read, *old(registry), *final(registry), *chip, chip_view(r)),
        r matches Ok(f) ==> target_name(f.target) == f.name@,
{
    let v: Vec<char> = chars_of(chip.name.as_str());
    let name: String = string_of(trim_of(v.as_slice()));
    if let Ok(found) = find_chip(registry, name.as_str()) {
        return Ok(found);
    }
    match &chip.description {
        None => Err(ChipError::Unsupported(copied(&chip.pack))),
        Some(path) => {
            let p: &str = path.as_str();
            match read(p) {
                Err(e) => Err(ChipError::Unreadable(String::from_str(p), e, copied(&chip.pack))),
                Ok(text) => {
                    let outcome: Result<(), AddFailure<String>> = add_description(
                        registry,
                        text.as_str(),
                    );
                    described_chip(registry, name.as_str(), p, outcome)
                },
            }
        },
    }
}

/// Finds the chip of the configuration, starting from the built-in ones. The
/// registry is handed out too: a session is attached with it.
pub fn open_registry<F: Fn(&str) -> Result<String, String>>(chip: &ChipConfig, read: &F) -> (r: (
    Registry,
    Result<FoundChip, ChipError<String>>,
))
    requires
        forall|p: &str| call_requires(*read, (p,)),
    ensures
        exists|start: Registry| #[trigger]
            resolved_by(*read, start, r.0, *chip, chip_view(r.1)),
        r.1 matches Ok(f) ==> target_name(f.target) == f.name@,
{
    let mut registry: Registry = Registry::from_builtin_families();
    let ghost start = registry;
    let found: Result<FoundChip, ChipError<String>> = resolve_target(&mut registry, chip, read);
    let both: (Registry, Result<FoundChip, ChipError<String>>) = (registry, found);
    assert(resolved_by(*read, start, both.0, *chip, chip_view(both.1)));
    both
}

// ---------------------------------------------------------------------------
// The probe
// ---------------------------------------------------------------------------

/// A probe that is connected.
#[derive(Debug)]
pub struct ProbeInfo {
    pub identifier: String,
    pub vendor_id: u16,
    pub product_id: u16,
    pub serial: Option<String>,
}

/// Whether a probe is the one that is asked for: all that is given matches.
pub open spec fn selected(p: ProbeInfo, s: ProbeSelector) -> bool {
    &&& s.vid matches Some(v) ==> p.vendor_id == v
    &&& s.pid matches Some(v) ==> p.product_id == v
    &&& s.serial matches Some(t) ==> p.serial is Some && p.serial->0@ == t@
}

fn fits(p: &ProbeInfo, s: &ProbeSelector) -> (r: bool)
    ensures
        r == selected(*p, *s),
{
    if let Some(v) = s.vid {
        if p.vendor_id != v {
            return false;
        }
    }
    if let Some(v) = s.pid {
        if p.product_id != v {
            return false;
        }
    }
    if let Some(t) = &s.serial {
        match &p.serial {
            None => {
                return false;
            },
            Some(own) => {
                if !same_text(own.as_str(), t.as_str()) {
                    return false;
                }
            },
        }
    }
    true
}

/// The serial number of a probe, as it is shown.
pub open spec fn serial_label(p: ProbeInfo) -> Seq<char> {
    match p.serial {
        Some(t) => t@,
        None => "(无)"@,
    }
}

/// The numbers of a probe, as they are shown.
pub open spec fn probe_numbers(p: ProbeInfo) -> Seq<char> {
    " vid=0x"@ + hex(p.vendor_id as nat, 4) + " pid=0x"@ + hex(p.product_id as nat, 4) + " sn="@
        + serial_label(p)
}

/// The line of probe number `i` in the list of probes.
pub open spec fn probe_line(i: nat, p: ProbeInfo) -> Seq<char> {
    "["@ + dec(i) + "] "@ + pad_right(p.identifier@, 24) + probe_numbers(p)
}

fn numbers_text(p: &ProbeInfo) -> (r: String)
    ensures
        r@ == probe_numbers(*p),
{
    let mut s: String = String::from_str(" vid=0x");
    s.append(hex_text(p.vendor_id as u64, 4).as_str());
    s.append(" pid=0x");
    s.append(hex_text(p.product_id as u64, 4).as_str());
    s.append(" sn=");
    match &p.serial {
        Some(t) => s.append(t.as_str()),
        None => s.append("(无)"),
    }
    s
}

/// The lines that list the probes.
pub fn list_probes(probes: &[ProbeInfo]) -> (r: Vec<String>)
    ensures
        probes@.len() == 0 ==> r@.len() == 1 && r@[0]@
            == "（未发现调试探针：检查 USB 连接 / udev 规则）"@,
        probes@.len() > 0 ==> r@.len() == probes@.len() && forall|i: int|
            0 <= i < r@.len() ==> (#[trigger] r@[i])@ == probe_line(i as nat, probes@[i]),
{
    let mut r: Vec<String> = Vec::new();
    if probes.len() == 0 {
        r.push(
            String::from_str("（未发现调试探针：检查 USB 连接 / udev 规则）"),
        );
        return r;
    }
    let mut i: usize = 0;
    while i < probes.len()
        invariant
            i <= probes@.len(),
            r@.len() == i,
            forall|j: int|
                0 <= j < i ==> (#[trigger] r@[j])@ == probe_line(j as nat, probes@[j]),
        decreases probes@.len() - i,
    {
        let mut s: String = String::from_str("[");
        s.append(dec_text(i as u64).as_str());
        s.append("] ");
        s.append(pad_right_text(probes[i].identifier.as_str(), 24).as_str());
        s.append(numbers_text(&probes[i]).as_str());
        r.push(s);
        i += 1;
    }
    r
}

/// Why no probe is chosen. `T` is the form in which text is held.
#[derive(Debug)]
pub enum ProbeError<T> {
    /// There is none.
    NoProbe,
    /// There are several and nothing says which one: their number, and a line
    /// for each.
    Ambiguous(u64, T),
    /// None of them is the one that is asked for.
    NoMatch,
}

impl View for ProbeError<String> {
    type V = ProbeError<Seq<char>>;

    open spec fn view(&self) -> ProbeError<Seq<char>> {
        match *self {
            ProbeError::NoProbe => ProbeError::NoProbe,
            ProbeError::Ambiguous(n, t) => ProbeError::Ambiguous(n, t@),
            ProbeError::NoMatch => ProbeError::NoMatch,
        }
    }
}

impl ProbeError<Seq<char>> {
    /// The wording of each failure.
    pub open spec fn text(self) -> Seq<char> {
        match self {
            ProbeError::NoProbe => "没有发现调试探针：检查 USB 连接与 udev 规则；\n（一个探针同一时刻只能被一个进程占用，请先退出 VSCode 调试 / probe-rs dap-server）"@,
            ProbeError::Ambiguous(n, list) => "发现 "@ + dec(n as nat)
                + " 个调试探针，请在配置的 probe.selector 里用 vid/pid/serial 指定其中一个："@
                + list,
            ProbeError::NoMatch => "没有找到匹配 probe.selector 的探针（检查 vid/pid/serial）"@,
        }
    }
}

impl ProbeError<String> {
    /// The wording of this failure.
    pub fn message(&self) -> (r: String)
        ensures
            r@ == self@.text(),
    {
        match self {
            ProbeError::NoProbe => String::from_str(
                "没有发现调试探针：检查 USB 连接与 udev 规则；\n（一个探针同一时刻只能被一个进程占用，请先退出 VSCode 调试 / probe-rs dap-server）",
            ),
            ProbeError::Ambiguous(n, list) => {
                let mut s: String = String::from_str("发现 ");
                s.append(dec_text(*n).as_str());
                s.append(
                    " 个调试探针，请在配置的 probe.selector 里用 vid/pid/serial 指定其中一个：",
                );
                s.append(list.as_str());
                s
            },
            ProbeError::NoMatch => String::from_str(
                "没有找到匹配 probe.selector 的探针（检查 vid/pid/serial）",
            ),
        }
    }
}

/// The lines that offer the first `n` probes for choice.
pub open spec fn probe_choices(probes: Seq<ProbeInfo>, n: int) -> Seq<char>
    decreases n,
{
    if n <= 0 {
        Seq::empty()
    } else {
        probe_choices(probes, n - 1) + "\n  ["@ + dec((n - 1) as nat) + "] "@
            + probes[n - 1].identifier@ + " "@ + probe_numbers(probes[n - 1])
    }
}

/// The number of the first probe from `i` on that is asked for.
pub open spec fn first_selected(probes: Seq<ProbeInfo>, s: ProbeSelector, i: nat) -> Option<nat>
    decreases probes.len() - i,
{
    if i >= probes.len() {
        None
    } else if selected(probes[i as int], s) {
        Some(i)
    } else {
        first_selected(probes, s, i + 1)
    }
}

/// The probe to use: the only one, or the first that is asked for.
pub open spec fn probe_choice(probes: Seq<ProbeInfo>, selector: Option<ProbeSelector>) -> Result<
    nat,
    ProbeError<Seq<char>>,
> {
    if probes.len() == 0 {
        Err(ProbeError::NoProbe)
    } else {
        match selector {
            None => if probes.len() == 1 {
                Ok(0)
            } else {
                Err(
                    ProbeError::Ambiguous(
                        probes.len() as u64,
                        probe_choices(probes, probes.len() as int),
                    ),
                )
            },
            Some(s) => match first_selected(probes, s, 0) {
                Some(i) => Ok(i),
                None => Err(ProbeError::NoMatch),
            },
        }
    }
}

/// Chooses the probe to use, by its number.
pub fn select_probe(probes: &[ProbeInfo], selector: &Option<ProbeSelector>) -> (r: Result<
    usize,
    ProbeError<String>,
>)
    ensures
        match r {
            Ok(i) => i < probes@.len() && probe_choice(probes@, *selector) == Ok::<
                _,
                ProbeError<Seq<char>>,
            >(i as nat),
            Err(e) => probe_choice(probes@, *selector) == Err::<nat, _>(e@),
        },
{
    if probes.len() == 0 {
        return Err(ProbeError::NoProbe);
    }
    match selector {
        None => {
            if probes.len() == 1 {
                return Ok(0);
            }
            let mut list: String = String::new();
            let mut i: usize = 0;
            while i < probes.len()
                invariant
                    i <= probes@.len(),
                    list@ == probe_choices(probes@, i as int),
                decreases probes@.len() - i,
            {
                list.append("\n  [");
                list.append(dec_text(i as u64).as_str());
                list.append("] ");
                list.append(probes[i].identifier.as_str());
                list.append(" ");
                list.append(numbers_text(&probes[i]).as_str());
                i += 1;
            }
            Err(ProbeError::Ambiguous(probes.len() as u64, list))
        },
        Some(s) => {
            let mut i: usize = 0;
            while i < probes.len()
                invariant
                    i <= probes@.len(),
                    *selector == Some(*s),
                    probes@.len() > 0,
                    first_selected(probes@, *s, 0) == first_selected(probes@, *s, i as nat),
                decreases probes@.len() - i,
            {
                if fits(&probes[i], s) {
                    return Ok(i);
                }
                i += 1;
            }
            Err(ProbeError::NoMatch)
        },
    }
}

/// With nothing asked for, the only probe is used, and of several none is: the
/// choice is never a guess. What is asked for and chosen matches, and no probe
/// before it does.
pub proof fn law_probe_choice(probes: Seq<ProbeInfo>, selector: Option<ProbeSelector>)
    ensures
        selector is None ==> (probe_choice(probes, selector) is Ok <==> probes.len() == 1),
        selector matches Some(s) ==> (probe_choice(probes, selector) matches Ok(i) ==> i
            < probes.len() && selected(probes[i as int], s) && forall|j: int|
            0 <= j < i ==> !selected(#[trigger] probes[j], s)),
{
    if let Some(s) = selector {
        lemma_first_selected(probes, s, 0);
    }
}

proof fn lemma_first_selected(probes: Seq<ProbeInfo>, s: ProbeSelector, i: nat)
    ensures
        first_selected(probes, s, i) matches Some(k) ==> i <= k < probes.len() && selected(
            probes[k as int],
            s,
        ) && forall|j: int| i <= j < k ==> !selected(#[trigger] probes[j], s),
    decreases probes.len() - i,
{
    if i < probes.len() && !selected(probes[i as int], s) {
        lemma_first_selected(probes, s, i + 1);
    }
}

/// A built-in chip is used as it is, whatever description the configuration names;
/// only for another one is the description asked. Without a description, or with
/// one that cannot be read, there is no chip, and the failure carries the path of
/// the vendor's pack.
pub proof fn law_built_in_chips_come_first(
    before: Registry,
    after: Registry,
    chip: ChipConfig,
    files: spec_fn(Seq<char>) -> Result<Seq<char>, Seq<char>>,
    r: Result<Seq<char>, ChipError<Seq<char>>>,
)
    requires
        resolved(before, after, chip, files, r),
    ensures
        ({
            let found = registry_chips(before)[trim(chip.name@)];
            &&& found matches Ok(n) ==> r == Ok::<_, ChipError<Seq<char>>>(n) && after == before
            &&& found is Err && chip.description is None ==> (r matches Err(
                ChipError::Unsupported(pack),
            ) && pack == (match chip.pack {
                Some(p) => Some(p@),
                None => None,
            }))
            &&& found is Err ==> (chip.description matches Some(path) ==> (match files(path@) {
                Err(why) => r matches Err(ChipError::Unreadable(p, e, pack)) && p == path@ && e
                    == why && pack == (match chip.pack {
                    Some(k) => Some(k@),
                    None => None,
                }),
                Ok(text) => r matches Ok(n) ==> {
                    &&& registry_chips(after) == chips_with(before, text)
                    &&& chips_with(before, text)[trim(chip.name@)] == Ok::<
                        _,
                        LookupFailure<Seq<char>>,
                    >(n)
                },
            }))
        }),
{
}

/// Without a selector the only probe is used, and none of several. With one, the
/// first probe is used that has every number and the serial that it gives, and a
/// probe that fits is never passed over.
pub proof fn law_probes_are_selected(probes: Seq<ProbeInfo>, s: ProbeSelector, k: int)
    requires
        0 <= k < probes.len(),
    ensures
        probes.len() == 1 ==> probe_choice(probes, None) == Ok::<_, ProbeError<Seq<char>>>(0nat),
        probes.len() > 1 ==> probe_choice(probes, None) is Err,
        (s.vid is Some ==> s.vid == Some(probes[k].vendor_id)) && (s.pid is Some ==> s.pid == Some(
            probes[k].product_id,
        )) && (s.serial matches Some(t) ==> probes[k].serial is Some && probes[k].serial->0@ == t@)
            ==> (probe_choice(probes, Some(s)) matches Ok(i) && i <= k),
        probe_choice(probes, Some(s)) matches Ok(i) ==> {
            let p = probes[i as int];
            &&& i < probes.len()
            &&& s.vid matches Some(v) ==> p.vendor_id == v
            &&& s.pid matches Some(v) ==> p.product_id == v
            &&& s.serial matches Some(t) ==> p.serial is Some && p.serial->0@ == t@
        },
        probe_choice(Seq::empty(), Some(s)) is Err,
        probe_choice(Seq::empty(), None) is Err,
{
    lemma_first_selected(probes, s, 0);
    if selected(probes[k], s) {
        lemma_fit_is_found(probes, s, 0, k as nat);
    }
}

proof fn lemma_fit_is_found(probes: Seq<ProbeInfo>, s: ProbeSelector, i: nat, k: nat)
    requires
        i <= k < probes.len(),
        selected(probes[k as int], s),
    ensures
        first_selected(probes, s, i) matches Some(j) && j <= k,
    decreases k - i,
{
    if i < k && !selected(probes[i as int], s) {
        lemma_fit_is_found(probes, s, i + 1, k);
    }
}

/// What is stated of a chip is stated of the chip that is handed out, and a probe
/// is listed with its number, its name and what it can be selected by.
pub proof fn law_chips_and_probes_are_shown_whole(
    r: Result<FoundChip, ChipError<String>>,
    i: nat,
    p: ProbeInfo,
)
    ensures
        match r {
            Ok(f) => chip_view(r) == Ok::<_, ChipError<Seq<char>>>(f.name@),
            Err(e) => chip_view(r) == Err::<Seq<char>, _>(e@),
        },
        probe_line(i, p).subrange(1, 1 + dec(i).len() as int) == dec(i),
        mentions(probe_line(i, p), p.identifier@),
        mentions(probe_line(i, p), "vid=0x"@ + hex(p.vendor_id as nat, 4)),
        mentions(probe_line(i, p), "pid=0x"@ + hex(p.product_id as nat, 4)),
        p.serial matches Some(t) ==> mentions(probe_line(i, p), "sn="@ + t@),
{
    reveal_strlit("[");
    reveal_strlit(" vid=0x");
    reveal_strlit("vid=0x");
    reveal_strlit(" pid=0x");
    reveal_strlit("pid=0x");
    reveal_strlit(" sn=");
    reveal_strlit("sn=");
    reveal_strlit(" ");
    let line = probe_line(i, p);
    let name = p.identifier@;
    let head = "["@ + dec(i) + "] "@;
    let vid = "vid=0x"@ + hex(p.vendor_id as nat, 4);
    let pid = "pid=0x"@ + hex(p.product_id as nat, 4);
    let padded = pad_right(name, 24);
    assert(line.subrange(1, 1 + dec(i).len() as int) =~= dec(i));
    assert(line =~= head + name + line.skip((head.len() + name.len()) as int));
    let a = head + padded + " "@;
    assert(line =~= a + vid + line.skip((a.len() + vid.len()) as int));
    let b = a + vid + " "@;
    assert(line =~= b + pid + line.skip((b.len() + pid.len()) as int));
    if let Some(t) = p.serial {
        let c = b + pid + " "@;
        assert(line =~= c + ("sn="@ + t@) + Seq::<char>::empty());
    }
}

/// The advice on a chip that is not supported, or whose description cannot be
/// read, holds the command that makes a description, with the pack where there is
/// one.
pub proof fn law_advice_holds_the_command(
    name: Seq<char>,
    path: Seq<char>,
    why: Seq<char>,
    pack: Seq<char>,
)
    ensures
        mentions(
            ChipError::Unsupported(Some(pack)).text(name),
            "target-gen pack "@ + pack + " ./targets/"@,
        ),
        mentions(
            ChipError::Unreadable(path, why, Some(pack)).text(name),
            "target-gen pack "@ + pack + " ./targets/"@,
        ),
        mentions(ChipError::Unreadable(path, why, Some(pack)).text(name), path),
        mentions(ChipError::Unsupported(Some(pack)).text(name), name),
{
    reveal_strlit("    target-gen pack ");
    reveal_strlit("target-gen pack ");
    reveal_strlit(" ./targets/\n\n   然后把生成文件的路径写进 chip.description。");
    reveal_strlit(" ./targets/");
    let c = "target-gen pack "@ + pack + " ./targets/"@;
    let advice = pack_advice(Some(pack));
    assert(advice =~= advice.take(4) + c + advice.skip(4 + c.len() as int));
    let t = ChipError::Unsupported(Some(pack)).text(name);
    let u = ChipError::Unreadable(path, why, Some(pack)).text(name);
    let x = t.take(t.len() - advice.len()) + advice.take(4);
    let y = u.take(u.len() - advice.len()) + advice.take(4);
    assert(t =~= x + c + advice.skip(4 + c.len() as int));
    assert(u =~= y + c + advice.skip(4 + c.len() as int));
    let front = "芯片 "@ + name
        + " 不在 probe-rs 内置支持列表，且配置指定的芯片描述文件不存在："@;
    assert(u =~= front + path + u.skip((front.len() + path.len()) as int));
    let start = "芯片 "@;
    assert(t =~= start + name + t.skip((start.len() + name.len()) as int));
}

}
