//! Global variables: where debug information puts them, which base type they
//! come down to, and how the bytes of a scalar in memory read.
use vstd::prelude::*;
use vstd::slice::slice_subrange;
use crate::dwarf::{
    attr_number, attr_number_at, attr_text, attr_text_at, attr_value, attr_value_at,
    debug_sections, elf_endianness, entry_at, entry_exactly_at, entry_views, first_operation,
    load_debug_sections, open_unit, operation, section_bytes, unit_entries, unit_entries_at,
    unit_head, unit_head_at, unit_opens, AttrValue, DebugSections, Entry, EntryData, LocationOp,
    SectionData, UnitHead,
};
use crate::number::{dec, dec_signed, dec_signed_text, dec_text};
use crate::text::same_text;
use crate::units::{lemma_units_behind, units_from, units_in_order};

verus! {

pub const TAG_ARRAY: u16 = 0x01;

pub const TAG_ENUMERATION: u16 = 0x04;

pub const TAG_POINTER: u16 = 0x0f;

pub const TAG_REFERENCE: u16 = 0x10;

pub const TAG_STRUCTURE: u16 = 0x13;

pub const TAG_TYPEDEF: u16 = 0x16;

pub const TAG_UNION: u16 = 0x17;

pub const TAG_BASE: u16 = 0x24;

pub const TAG_CONST: u16 = 0x26;

pub const TAG_VARIABLE: u16 = 0x34;

pub const TAG_VOLATILE: u16 = 0x35;

pub const TAG_RESTRICT: u16 = 0x37;

pub const TAG_ATOMIC: u16 = 0x47;

pub const AT_LOCATION: u16 = 0x02;

pub const AT_NAME: u16 = 0x03;

pub const AT_BYTE_SIZE: u16 = 0x0b;

pub const AT_ENCODING: u16 = 0x3e;

pub const AT_TYPE: u16 = 0x49;

pub const AT_LINKAGE_NAME: u16 = 0x6e;

pub const AT_MIPS_LINKAGE_NAME: u16 = 0x2007;

pub const ATE_BOOLEAN: u64 = 0x02;

pub const ATE_FLOAT: u64 = 0x04;

pub const ATE_SIGNED: u64 = 0x05;

pub const ATE_SIGNED_CHAR: u64 = 0x06;

pub const ATE_UNSIGNED: u64 = 0x07;

pub const ATE_UNSIGNED_CHAR: u64 = 0x08;

/// How the bytes of a base type are read.
#[derive(Debug, Clone, Copy, PartialEq, Eq, Structural)]
pub enum Encoding {
    Float,
    Signed,
    Unsigned,
}

impl Encoding {
    /// The name of the encoding.
    pub open spec fn label(self) -> Seq<char> {
        match self {
            Encoding::Float => "Float"@,
            Encoding::Signed => "Signed"@,
            Encoding::Unsigned => "Unsigned"@,
        }
    }

    /// The name of the encoding.
    pub fn name(&self) -> (r: &'static str)
        ensures
            r@ == self.label(),
    {
        match self {
            Encoding::Float => "Float",
            Encoding::Signed => "Signed",
            Encoding::Unsigned => "Unsigned",
        }
    }
}

// ---------------------------------------------------------------------------
// Refusals
// ---------------------------------------------------------------------------

/// Why a type is not a supported scalar. `T` is the form in which text is held.
#[derive(Debug)]
pub enum TypeError<T> {
    /// The entry of the type cannot be read.
    Entry(T),
    /// The name of the type cannot be read.
    Name(T),
    /// A base type without a size.
    NoSize(T),
    /// A base type in an encoding that is not supported.
    Encoding(T, Option<u64>),
    /// A modifier that leads to no type.
    Broken,
    /// A chain of modifiers that leads back to itself.
    Circular,
    Enumeration,
    Aggregate,
    Array,
    Pointer,
    /// An entry that is no type at all.
    Unknown(u16),
}

impl View for TypeError<String> {
    type V = TypeError<Seq<char>>;

    open spec fn view(&self) -> TypeError<Seq<char>> {
        match *self {
            TypeError::Entry(t) => TypeError::Entry(t@),
            TypeError::Name(t) => TypeError::Name(t@),
            TypeError::NoSize(t) => TypeError::NoSize(t@),
            TypeError::Encoding(t, e) => TypeError::Encoding(t@, e),
            TypeError::Broken => TypeError::Broken,
            TypeError::Circular => TypeError::Circular,
            TypeError::Enumeration => TypeError::Enumeration,
            TypeError::Aggregate => TypeError::Aggregate,
            TypeError::Array => TypeError::Array,
            TypeError::Pointer => TypeError::Pointer,
            TypeError::Unknown(t) => TypeError::Unknown(t),
        }
    }
}

/// An optional number in the notation of the language.
pub open spec fn option_label(n: Option<u64>) -> Seq<char> {
    match n {
        Some(v) => "Some("@ + dec(v as nat) + ")"@,
        None => "None"@,
    }
}

fn option_text(n: Option<u64>) -> (r: String)
    ensures
        r@ == option_label(n),
{
    match n {
        Some(v) => {
            let mut s: String = String::from_str("Some(");
            s.append(dec_text(v).as_str());
            s.append(")");
            s
        },
        None => String::from_str("None"),
    }
}

impl TypeError<Seq<char>> {
    /// The wording of each refusal.
    pub open spec fn text(self) -> Seq<char> {
        match self {
            TypeError::Entry(t) => "读取类型条目失败: "@ + t,
            TypeError::Name(t) => t,
            TypeError::NoSize(n) => "基类型 "@ + n + " 没有字节数"@,
            TypeError::Encoding(n, e) => "基类型 "@ + n + " 的编码 "@ + option_label(e)
                + " 暂不支持"@,
            TypeError::Broken => "类型修饰链断裂（缺少 DW_AT_type）"@,
            TypeError::Circular => "类型修饰链循环"@,
            TypeError::Enumeration => "枚举类型暂不支持"@,
            TypeError::Aggregate => "结构体/联合体暂不支持"@,
            TypeError::Array => "数组暂不支持"@,
            TypeError::Pointer => "指针/引用暂不支持"@,
            TypeError::Unknown(t) => "未知类型条目 DwTag("@ + dec(t as nat) + ")"@,
        }
    }
}

impl TypeError<String> {
    /// The wording of this refusal.
    pub fn message(&self) -> (r: String)
        ensures
            r@ == self@.text(),
    {
        match self {
            TypeError::Entry(t) => {
                let mut s: String = String::from_str("读取类型条目失败: ");
                s.append(t.as_str());
                s
            },
            TypeError::Name(t) => String::from_str(t.as_str()),
            TypeError::NoSize(n) => {
                let mut s: String = String::from_str("基类型 ");
                s.append(n.as_str());
                s.append(" 没有字节数");
                s
            },
            TypeError::Encoding(n, e) => {
                let mut s: String = String::from_str("基类型 ");
                s.append(n.as_str());
                s.append(" 的编码 ");
                s.append(option_text(*e).as_str());
                s.append(" 暂不支持");
                s
            },
            TypeError::Broken => String::from_str("类型修饰链断裂（缺少 DW_AT_type）"),
            TypeError::Circular => String::from_str("类型修饰链循环"),
            TypeError::Enumeration => String::from_str("枚举类型暂不支持"),
            TypeError::Aggregate => String::from_str("结构体/联合体暂不支持"),
            TypeError::Array => String::from_str("数组暂不支持"),
            TypeError::Pointer => String::from_str("指针/引用暂不支持"),
            TypeError::Unknown(t) => {
                let mut s: String = String::from_str("未知类型条目 DwTag(");
                s.append(dec_text(*t as u64).as_str());
                s.append(")");
                s
            },
        }
    }
}

/// Why a symbol cannot be used. `T` is the form in which text is held.
#[derive(Debug)]
pub enum SymbolError<T> {
    /// The file is no object file.
    NotElf(T),
    /// The units of the debug information cannot be walked.
    Units(T),
    /// A unit cannot be opened.
    Unit(T),
    /// The entries of a unit cannot be walked.
    Entries(T),
    /// The name of a variable cannot be read.
    Name(T),
    /// The variable has no place in memory.
    OptimizedOut,
    /// The variable has no type.
    NoType,
    /// There is no such variable.
    NotFound,
}

impl View for SymbolError<String> {
    type V = SymbolError<Seq<char>>;

    open spec fn view(&self) -> SymbolError<Seq<char>> {
        match *self {
            SymbolError::NotElf(t) => SymbolError::NotElf(t@),
            SymbolError::Units(t) => SymbolError::Units(t@),
            SymbolError::Unit(t) => SymbolError::Unit(t@),
            SymbolError::Entries(t) => SymbolError::Entries(t@),
            SymbolError::Name(t) => SymbolError::Name(t@),
            SymbolError::OptimizedOut => SymbolError::OptimizedOut,
            SymbolError::NoType => SymbolError::NoType,
            SymbolError::NotFound => SymbolError::NotFound,
        }
    }
}

impl SymbolError<Seq<char>> {
    /// The wording of each refusal of the variable `symbol`.
    pub open spec fn text(self, symbol: Seq<char>) -> Seq<char> {
        match self {
            SymbolError::NotElf(t) => "解析 ELF 失败（确认文件是 .elf 不是 .bin）: "@ + t,
            SymbolError::Units(t) => "遍历编译单元失败: "@ + t,
            SymbolError::Unit(t) => t,
            SymbolError::Entries(t) => "遍历 DIE 失败: "@ + t,
            SymbolError::Name(t) => t,
            SymbolError::OptimizedOut => "符号 "@ + symbol
                + " 在 ELF 里存在，但读不出值：被编译器优化掉了\n（用 make OPT=-O0 重新编译再试）。"@,
            SymbolError::NoType => "符号 "@ + symbol + " 没有类型信息"@,
            SymbolError::NotFound => "在 ELF 里没有找到符号 "@ + symbol
                + "。可能原因：\n① 名字拼写错误；\n② 它是局部变量（只支持全局 / 静态变量）；\n③ 被编译器彻底优化掉了（用 make OPT=-O0 重新编译再试）；\n④ ELF 与板上固件不是同一次构建，地址对不上。"@,
        }
    }
}

fn two(a: &str, b: &str) -> (r: String)
    ensures
        r@ == a@ + b@,
{
    let mut s: String = String::from_str(a);
    s.append(b);
    s
}

fn three(a: &str, b: &str, c: &str) -> (r: String)
    ensures
        r@ == a@ + b@ + c@,
{
    let mut s: String = two(a, b);
    s.append(c);
    s
}

impl SymbolError<String> {
    /// The wording of this refusal of the variable `symbol`.
    pub fn message(&self, symbol: &str) -> (r: String)
        ensures
            r@ == self@.text(symbol@),
    {
        match self {
            SymbolError::NotElf(t) => two(
                "解析 ELF 失败（确认文件是 .elf 不是 .bin）: ",
                t.as_str(),
            ),
            SymbolError::Units(t) => two("遍历编译单元失败: ", t.as_str()),
            SymbolError::Unit(t) => String::from_str(t.as_str()),
            SymbolError::Entries(t) => two("遍历 DIE 失败: ", t.as_str()),
            SymbolError::Name(t) => String::from_str(t.as_str()),
            SymbolError::OptimizedOut => three(
                "符号 ",
                symbol,
                " 在 ELF 里存在，但读不出值：被编译器优化掉了\n（用 make OPT=-O0 重新编译再试）。",
            ),
            SymbolError::NoType => three("符号 ", symbol, " 没有类型信息"),
            SymbolError::NotFound => three(
                "在 ELF 里没有找到符号 ",
                symbol,
                "。可能原因：\n① 名字拼写错误；\n② 它是局部变量（只支持全局 / 静态变量）；\n③ 被编译器彻底优化掉了（用 make OPT=-O0 重新编译再试）；\n④ ELF 与板上固件不是同一次构建，地址对不上。",
            ),
        }
    }
}

// ---------------------------------------------------------------------------
// Types
// ---------------------------------------------------------------------------

/// What the attributes of a base type say.
pub struct BaseScan {
    pub name: Option<Seq<char>>,
    pub size: Option<u64>,
    pub encoding: Option<u64>,
}

/// The number of a base type's encoding.
pub open spec fn encoding_number(s: SectionData, unit: usize, entry: usize, k: usize) -> Option<
    u64,
> {
    match attr_value_at(s, unit, entry, k) {
        Some(AttrValue::TypeEncoding(e)) => Some(e as u64),
        _ => attr_number_at(s, unit, entry, k),
    }
}

/// What the first `k` attributes of the base type `e` say; a later attribute of
/// a name replaces an earlier one.
pub open spec fn base_scan(s: SectionData, unit: usize, e: EntryData, k: nat) -> Result<
    BaseScan,
    Seq<char>,
>
    decreases k,
{
    if k == 0 {
        Ok(BaseScan { name: None, size: None, encoding: None })
    } else {
        let i = (k - 1) as usize;
        match base_scan(s, unit, e, (k - 1) as nat) {
            Err(t) => Err(t),
            Ok(b) => if e.attrs[k - 1] == AT_NAME {
                match attr_text_at(s, unit, e.offset, i) {
                    Ok(name) => Ok(BaseScan { name, ..b }),
                    Err(t) => Err(t),
                }
            } else if e.attrs[k - 1] == AT_BYTE_SIZE {
                Ok(BaseScan { size: attr_number_at(s, unit, e.offset, i), ..b })
            } else if e.attrs[k - 1] == AT_ENCODING {
                Ok(BaseScan { encoding: encoding_number(s, unit, e.offset, i), ..b })
            } else {
                Ok(b)
            },
        }
    }
}

/// A base type: its name, its size in bytes and its encoding.
pub struct BaseData {
    pub name: Seq<char>,
    pub size: usize,
    pub encoding: Encoding,
}

/// The encoding that a number stands for.
pub open spec fn encoding_of(n: Option<u64>) -> Option<Encoding> {
    match n {
        None => None,
        Some(e) => if e == ATE_FLOAT {
            Some(Encoding::Float)
        } else if e == ATE_SIGNED || e == ATE_SIGNED_CHAR {
            Some(Encoding::Signed)
        } else if e == ATE_UNSIGNED || e == ATE_UNSIGNED_CHAR || e == ATE_BOOLEAN {
            Some(Encoding::Unsigned)
        } else {
            None
        },
    }
}

/// The base type that its attributes amount to.
pub open spec fn base_of(b: BaseScan) -> Result<BaseData, TypeError<Seq<char>>> {
    let name = match b.name {
        Some(n) => n,
        None => "?"@,
    };
    match b.size {
        None => Err(TypeError::NoSize(name)),
        Some(size) => match encoding_of(b.encoding) {
            None => Err(TypeError::Encoding(name, b.encoding)),
            Some(encoding) => Ok(BaseData { name, size: size as usize, encoding }),
        },
    }
}

/// Whether a type only modifies another type.
pub open spec fn is_modifier(tag: u16) -> bool {
    tag == TAG_TYPEDEF || tag == TAG_CONST || tag == TAG_VOLATILE || tag == TAG_ATOMIC || tag
        == TAG_RESTRICT
}

/// The reason for which a type that is neither a base type nor a modifier is
/// refused.
pub open spec fn tag_error(tag: u16) -> TypeError<Seq<char>> {
    if tag == TAG_ENUMERATION {
        TypeError::Enumeration
    } else if tag == TAG_STRUCTURE || tag == TAG_UNION {
        TypeError::Aggregate
    } else if tag == TAG_ARRAY {
        TypeError::Array
    } else if tag == TAG_POINTER || tag == TAG_REFERENCE {
        TypeError::Pointer
    } else {
        TypeError::Unknown(tag)
    }
}

/// The number of the first attribute `name` from number `k` on.
pub open spec fn attr_index(attrs: Seq<u16>, name: u16, k: nat) -> Option<nat>
    decreases attrs.len() - k,
{
    if k >= attrs.len() {
        None
    } else if attrs[k as int] == name {
        Some(k)
    } else {
        attr_index(attrs, name, k + 1)
    }
}

/// The type that the entry `e` refers to.
pub open spec fn type_reference(s: SectionData, unit: usize, e: EntryData) -> Option<usize> {
    match attr_index(e.attrs, AT_TYPE, 0) {
        None => None,
        Some(k) => match attr_value_at(s, unit, e.offset, k as usize) {
            Some(AttrValue::Reference(next)) => Some(next),
            _ => None,
        },
    }
}

/// The base type at the end of the chain of modifiers that starts at `offset`,
/// when that is reached in fewer than `steps` steps.
pub open spec fn base_type(s: SectionData, unit: usize, offset: usize, steps: nat) -> Result<
    BaseData,
    TypeError<Seq<char>>,
>
    decreases steps,
{
    if steps == 0 {
        Err(TypeError::Circular)
    } else {
        match entry_exactly_at(s, unit, offset) {
            Err(t) => Err(TypeError::Entry(t)),
            Ok(e) => if e.tag == TAG_BASE {
                match base_scan(s, unit, e, e.attrs.len()) {
                    Err(t) => Err(TypeError::Name(t)),
                    Ok(b) => base_of(b),
                }
            } else if is_modifier(e.tag) {
                match type_reference(s, unit, e) {
                    Some(next) => base_type(s, unit, next, (steps - 1) as nat),
                    None => Err(TypeError::Broken),
                }
            } else {
                Err(tag_error(e.tag))
            },
        }
    }
}

/// The steps that a chain of modifiers can take before it must have come back
/// to an entry that it passed: an entry starts at a byte of `.debug_info`.
pub open spec fn chain_limit(s: SectionData) -> nat {
    section_bytes(s.parts, ".debug_info"@).len() + 1
}

/// A base type: its name, its size in bytes and its encoding.
#[derive(Debug)]
pub struct BaseType {
    pub name: String,
    pub size: usize,
    pub encoding: Encoding,
}

impl View for BaseType {
    type V = BaseData;

    open spec fn view(&self) -> BaseData {
        BaseData { name: self.name@, size: self.size, encoding: self.encoding }
    }
}

/// The view of a resolved type.
pub open spec fn type_result(r: Result<BaseType, TypeError<String>>) -> Result<
    BaseData,
    TypeError<Seq<char>>,
> {
    match r {
        Ok(b) => Ok(b@),
        Err(e) => Err(e@),
    }
}

/// The base type that a name, a size and the number of an encoding amount to.
pub fn classify_base(name: Option<String>, size: Option<u64>, encoding: Option<u64>) -> (r: Result<
    BaseType,
    TypeError<String>,
>)
    ensures
        type_result(r) == base_of(
            (BaseScan {
                name: match name {
                    Some(n) => Some(n@),
                    None => None,
                },
                size,
                encoding,
            }),
        ),
{
    let name: String = match name {
        Some(n) => n,
        None => String::from_str("?"),
    };
    let size: u64 = match size {
        Some(n) => n,
        None => {
            return Err(TypeError::NoSize(name));
        },
    };
    let found: Option<Encoding> = match encoding {
        None => None,
        Some(n) => if n == ATE_FLOAT {
            Some(Encoding::Float)
        } else if n == ATE_SIGNED || n == ATE_SIGNED_CHAR {
            Some(Encoding::Signed)
        } else if n == ATE_UNSIGNED || n == ATE_UNSIGNED_CHAR || n == ATE_BOOLEAN {
            Some(Encoding::Unsigned)
        } else {
            None
        },
    };
    match found {
        None => Err(TypeError::Encoding(name, encoding)),
        Some(enc) => Ok(BaseType { name, size: size as usize, encoding: enc }),
    }
}

fn read_base(s: &DebugSections, unit: usize, e: &Entry) -> (r: Result<BaseType, TypeError<String>>)
    ensures
        type_result(r) == (match base_scan(s@, unit, e@, e@.attrs.len()) {
            Err(t) => Err(TypeError::Name(t)),
            Ok(b) => base_of(b),
        }),
{
    let mut name: Option<String> = None;
    let mut size: Option<u64> = None;
    let mut encoding: Option<u64> = None;
    let mut k: usize = 0;
    while k < e.attrs.len()
        invariant
            k <= e.attrs.len(),
            base_scan(s@, unit, e@, k as nat) == Ok::<_, Seq<char>>(
                (BaseScan {
                    name: match name {
                        Some(n) => Some(n@),
                        None => None,
                    },
                    size,
                    encoding,
                }),
            ),
        decreases e.attrs.len() - k,
    {
        let attr: u16 = e.attrs[k];
        assert(e@.attrs[k as int] == attr);
        if attr == AT_NAME {
            match attr_text(s, unit, e.offset, k) {
                Ok(t) => {
                    name = t;
                },
                Err(t) => {
                    proof {
                        lemma_base_scan_error(s@, unit, e@, (k + 1) as nat);
                    }
                    return Err(TypeError::Name(t));
                },
            }
        } else if attr == AT_BYTE_SIZE {
            size = attr_number(s, unit, e.offset, k);
        } else if attr == AT_ENCODING {
            encoding = match attr_value(s, unit, e.offset, k) {
                Some(AttrValue::TypeEncoding(n)) => Some(n as u64),
                _ => attr_number(s, unit, e.offset, k),
            };
        }
        k += 1;
    }
    classify_base(name, size, encoding)
}

proof fn lemma_base_scan_error(s: SectionData, unit: usize, e: EntryData, k: nat)
    requires
        k <= e.attrs.len(),
        base_scan(s, unit, e, k) is Err,
    ensures
        base_scan(s, unit, e, e.attrs.len()) == base_scan(s, unit, e, k),
    decreases e.attrs.len() - k,
{
    if k < e.attrs.len() {
        lemma_base_scan_error(s, unit, e, k + 1);
    }
}

/// Finds the first attribute `name`.
pub fn find_attr(attrs: &Vec<u16>, name: u16) -> (r: Option<usize>)
    ensures
        match r {
            Some(k) => attr_index(attrs@, name, 0) == Some(k as nat),
            None => attr_index(attrs@, name, 0) is None,
        },
{
    let mut k: usize = 0;
    while k < attrs.len()
        invariant
            k <= attrs.len(),
            attr_index(attrs@, name, 0) == attr_index(attrs@, name, k as nat),
        decreases attrs.len() - k,
    {
        if attrs[k] == name {
            return Some(k);
        }
        k += 1;
    }
    None
}

/// Finds the type that the entry `e` refers to.
pub fn referred_type(s: &DebugSections, unit: usize, e: &Entry) -> (r: Option<usize>)
    ensures
        r == type_reference(s@, unit, e@),
{
    match find_attr(&e.attrs, AT_TYPE) {
        None => None,
        Some(k) => match attr_value(s, unit, e.offset, k) {
            Some(AttrValue::Reference(next)) => Some(next),
            _ => None,
        },
    }
}

/// Tells whether a type only modifies another type.
pub fn modifies(tag: u16) -> (r: bool)
    ensures
        r == is_modifier(tag),
{
    tag == TAG_TYPEDEF || tag == TAG_CONST || tag == TAG_VOLATILE || tag == TAG_ATOMIC || tag
        == TAG_RESTRICT
}

/// The reason for which a type is refused that is neither a base type nor a
/// modifier.
pub fn refuse_type(tag: u16) -> (r: TypeError<String>)
    ensures
        r@ == tag_error(tag),
{
    if tag == TAG_ENUMERATION {
        TypeError::Enumeration
    } else if tag == TAG_STRUCTURE || tag == TAG_UNION {
        TypeError::Aggregate
    } else if tag == TAG_ARRAY {
        TypeError::Array
    } else if tag == TAG_POINTER || tag == TAG_REFERENCE {
        TypeError::Pointer
    } else {
        TypeError::Unknown(tag)
    }
}

/// Follows typedefs and qualifiers from the entry at `offset` down to the base
/// type. Structures, arrays, pointers and the like are refused by name.
pub fn resolve_base_type(s: &DebugSections, unit: usize, offset: usize) -> (r: Result<
    BaseType,
    TypeError<String>,
>)
    ensures
        type_result(r) == base_type(s@, unit, offset, chain_limit(s@)),
{
    let info: &[u8] = s.get(".debug_info");
    let mut left: u128 = info.len() as u128 + 1;
    let mut at: usize = offset;
    while left > 0
        invariant
            base_type(s@, unit, offset, chain_limit(s@)) == base_type(s@, unit, at, left as nat),
        decreases left,
    {
        let e: Entry = match entry_at(s, unit, at) {
            Ok(e) => e,
            Err(t) => {
                return Err(TypeError::Entry(t));
            },
        };
        if e.tag == TAG_BASE {
            return read_base(s, unit, &e);
        }
        if modifies(e.tag) {
            match referred_type(s, unit, &e) {
                None => {
                    return Err(TypeError::Broken);
                },
                Some(n) => {
                    at = n;
                },
            }
            left -= 1;
            continue ;
        }
        return Err(refuse_type(e.tag));
    }
    Err(TypeError::Circular)
}

// ---------------------------------------------------------------------------
// Variables
// ---------------------------------------------------------------------------

/// The address that a location attribute fixes: a constant address, or an
/// expression that is a single constant address.
pub open spec fn location_address(
    little: bool,
    unit: UnitHead,
    value: Option<AttrValue<Seq<u8>>>,
) -> Option<u64> {
    match value {
        Some(AttrValue::Address(a)) => Some(a),
        Some(AttrValue::Expression(code)) => match first_operation(code, little, unit) {
            None => None,
            Some(op) => sole_address(
                op,
                first_operation(code.skip(op.len as int), little, unit),
            ),
        },
        _ => None,
    }
}

/// The address of an operation that no other one follows.
pub open spec fn sole_address(op: LocationOp, next: Option<LocationOp>) -> Option<u64> {
    if next is Some {
        None
    } else {
        op.address
    }
}

/// Takes the address of an operation that no other one follows.
pub fn address_of_sole(op: LocationOp, next: Option<LocationOp>) -> (r: Option<u64>)
    ensures
        r == sole_address(op, next),
{
    if next.is_some() {
        None
    } else {
        op.address
    }
}

/// Takes the address out of a location attribute.
pub fn static_address(little: bool, unit: UnitHead, value: &Option<AttrValue<Vec<u8>>>) -> (r:
    Option<u64>)
    ensures
        r == location_address(
            little,
            unit,
            match *value {
                Some(v) => Some(v@),
                None => None,
            },
        ),
{
    match value {
        Some(AttrValue::Address(a)) => Some(*a),
        Some(AttrValue::Expression(code)) => match operation(code.as_slice(), little, unit) {
            None => None,
            Some(op) => {
                let rest: &[u8] = slice_subrange(code.as_slice(), op.len, code.len());
                assert(rest@ =~= code@.skip(op.len as int));
                address_of_sole(op, operation(rest, little, unit))
            },
        },
        _ => None,
    }
}

/// What the attributes of a variable say.
pub struct VariableScan {
    pub matched: bool,
    pub address: Option<u64>,
    pub type_ref: Option<usize>,
}

/// Whether an attribute names a variable.
pub open spec fn is_name(attr: u16) -> bool {
    attr == AT_NAME || attr == AT_LINKAGE_NAME || attr == AT_MIPS_LINKAGE_NAME
}

/// What the first `k` attributes of the variable `e` say of the name `target`,
/// the address and the type.
pub open spec fn variable_scan(
    s: SectionData,
    unit: usize,
    head: UnitHead,
    e: EntryData,
    target: Seq<char>,
    k: nat,
) -> Result<VariableScan, Seq<char>>
    decreases k,
{
    if k == 0 {
        Ok(VariableScan { matched: false, address: None, type_ref: None })
    } else {
        let i = (k - 1) as usize;
        let attr = e.attrs[k - 1];
        match variable_scan(s, unit, head, e, target, (k - 1) as nat) {
            Err(t) => Err(t),
            Ok(v) => if is_name(attr) {
                match attr_text_at(s, unit, e.offset, i) {
                    Err(t) => Err(t),
                    Ok(name) => Ok(
                        VariableScan { matched: v.matched || name == Some(target), ..v },
                    ),
                }
            } else if attr == AT_LOCATION {
                Ok(
                    VariableScan {
                        address: location_address(
                            s.little,
                            head,
                            attr_value_at(s, unit, e.offset, i),
                        ),
                        ..v
                    },
                )
            } else if attr == AT_TYPE {
                Ok(
                    VariableScan {
                        type_ref: match attr_value_at(s, unit, e.offset, i) {
                            Some(AttrValue::Reference(o)) => Some(o),
                            _ => None,
                        },
                        ..v
                    },
                )
            } else {
                Ok(v)
            },
        }
    }
}

proof fn lemma_variable_scan_error(
    s: SectionData,
    unit: usize,
    head: UnitHead,
    e: EntryData,
    target: Seq<char>,
    k: nat,
)
    requires
        k <= e.attrs.len(),
        variable_scan(s, unit, head, e, target, k) is Err,
    ensures
        variable_scan(s, unit, head, e, target, e.attrs.len()) == variable_scan(
            s,
            unit,
            head,
            e,
            target,
            k,
        ),
    decreases e.attrs.len() - k,
{
    if k < e.attrs.len() {
        lemma_variable_scan_error(s, unit, head, e, target, k + 1);
    }
}

/// What is to be made of a variable whose attributes were read: nothing where
/// the name is another one, else its address and its type. Address zero marks a
/// variable that was optimized away.
pub open spec fn admitted(v: VariableScan) -> Result<Option<(u64, usize)>, SymbolError<Seq<char>>> {
    if !v.matched {
        Ok(None)
    } else if v.address is None || v.address == Some(0u64) {
        Err(SymbolError::OptimizedOut)
    } else {
        match v.type_ref {
            None => Err(SymbolError::NoType),
            Some(offset) => Ok(Some((v.address->0, offset))),
        }
    }
}

/// Decides what is to be made of a variable whose attributes were read.
pub fn admit_variable(matched: bool, address: Option<u64>, type_ref: Option<usize>) -> (r: Result<
    Option<(u64, usize)>,
    SymbolError<String>,
>)
    ensures
        match r {
            Ok(x) => admitted((VariableScan { matched, address, type_ref })) == Ok::<
                _,
                SymbolError<Seq<char>>,
            >(x),
            Err(e) => admitted((VariableScan { matched, address, type_ref })) == Err::<
                Option<(u64, usize)>,
                _,
            >(e@),
        },
{
    if !matched {
        return Ok(None);
    }
    let address: u64 = match address {
        Some(a) => a,
        None => {
            return Err(SymbolError::OptimizedOut);
        },
    };
    if address == 0 {
        return Err(SymbolError::OptimizedOut);
    }
    match type_ref {
        None => Err(SymbolError::NoType),
        Some(offset) => Ok(Some((address, offset))),
    }
}

/// The address and the type of the variable that the entry `e` describes, if its
/// name is `target`.
pub open spec fn variable(
    s: SectionData,
    unit: usize,
    head: UnitHead,
    e: EntryData,
    target: Seq<char>,
) -> Result<Option<(u64, usize)>, SymbolError<Seq<char>>> {
    match variable_scan(s, unit, head, e, target, e.attrs.len()) {
        Err(t) => Err(SymbolError::Name(t)),
        Ok(v) => admitted(v),
    }
}

/// The view of a search.
pub open spec fn search_result<A>(r: Result<A, SymbolError<String>>) -> Result<
    A,
    SymbolError<Seq<char>>,
> {
    match r {
        Ok(a) => Ok(a),
        Err(e) => Err(e@),
    }
}

/// Reads the entry of a variable: its address and its type, if its name is
/// `target`.
pub fn parse_variable(
    s: &DebugSections,
    unit: usize,
    head: UnitHead,
    e: &Entry,
    target: &str,
) -> (r: Result<Option<(u64, usize)>, SymbolError<String>>)
    ensures
        search_result(r) == variable(s@, unit, head, e@, target@),
{
    // the names first: few variables have the right one
    let mut matched: bool = false;
    let mut k: usize = 0;
    while k < e.attrs.len()
        invariant
            k <= e.attrs.len(),
            variable_scan(s@, unit, head, e@, target@, k as nat) matches Ok(v) && v.matched
                == matched,
        decreases e.attrs.len() - k,
    {
        let attr: u16 = e.attrs[k];
        assert(e@.attrs[k as int] == attr);
        if attr == AT_NAME || attr == AT_LINKAGE_NAME || attr == AT_MIPS_LINKAGE_NAME {
            match attr_text(s, unit, e.offset, k) {
                Err(t) => {
                    proof {
                        lemma_variable_scan_error(s@, unit, head, e@, target@, (k + 1) as nat);
                    }
                    return Err(SymbolError::Name(t));
                },
                Ok(Some(name)) => {
                    if same_text(name.as_str(), target) {
                        matched = true;
                    }
                },
                Ok(None) => {},
            }
        }
        k += 1;
    }
    if !matched {
        return Ok(None);
    }
    let mut address: Option<u64> = None;
    let mut type_ref: Option<usize> = None;
    let mut k: usize = 0;
    while k < e.attrs.len()
        invariant
            k <= e.attrs.len(),
            variable_scan(s@, unit, head, e@, target@, e@.attrs.len()) is Ok,
            variable_scan(s@, unit, head, e@, target@, k as nat) matches Ok(v) && v.address
                == address && v.type_ref == type_ref,
        decreases e.attrs.len() - k,
    {
        let attr: u16 = e.attrs[k];
        assert(e@.attrs[k as int] == attr);
        proof {
            if variable_scan(s@, unit, head, e@, target@, (k + 1) as nat) is Err {
                lemma_variable_scan_error(s@, unit, head, e@, target@, (k + 1) as nat);
            }
        }
        if attr == AT_LOCATION {
            let value: Option<AttrValue<Vec<u8>>> = attr_value(s, unit, e.offset, k);
            address = static_address(s.little, head, &value);
        } else if attr == AT_TYPE {
            type_ref = match attr_value(s, unit, e.offset, k) {
                Some(AttrValue::Reference(o)) => Some(o),
                _ => None,
            };
        }
        k += 1;
    }
    admit_variable(matched, address, type_ref)
}

/// How much of a stretch of `end` bytes is left at `at`.
pub open spec fn bytes_left(at: usize, end: int) -> int {
    if at < end {
        end - at
    } else {
        0
    }
}

/// The first variable called `target` among the entries from number `from` on.
pub open spec fn entries_search(
    s: SectionData,
    unit: usize,
    head: UnitHead,
    entries: Seq<EntryData>,
    target: Seq<char>,
    from: nat,
) -> Result<Option<(u64, usize)>, SymbolError<Seq<char>>>
    decreases entries.len() - from,
{
    if from >= entries.len() {
        Ok(None)
    } else {
        let e = entries[from as int];
        let here = if e.tag == TAG_VARIABLE {
            variable(s, unit, head, e, target)
        } else {
            Ok(None)
        };
        if here != Ok::<Option<(u64, usize)>, SymbolError<Seq<char>>>(None) {
            here
        } else {
            entries_search(s, unit, head, entries, target, from + 1)
        }
    }
}

/// The first variable called `target` in a unit.
pub open spec fn unit_search(s: SectionData, unit: usize, head: UnitHead, target: Seq<char>) -> Result<
    Option<(u64, usize)>,
    SymbolError<Seq<char>>,
> {
    let (failure, entries) = unit_entries_at(s, unit);
    match (entries_search(s, unit, head, entries, target, 0), failure) {
        (Ok(None), Some(t)) => Err(SymbolError::Entries(t)),
        (found, _) => found,
    }
}

/// Looks for the variable `target` in the entries of a unit, in the order in
/// which they stand.
pub fn search_unit(s: &DebugSections, unit: usize, head: UnitHead, target: &str) -> (r: Result<
    Option<(u64, usize)>,
    SymbolError<String>,
>)
    ensures
        search_result(r) == unit_search(s@, unit, head, target@),
{
    let (failure, entries): (Option<String>, Vec<Entry>) = unit_entries(s, unit);
    let ghost all = entry_views(entries@);
    let mut i: usize = 0;
    while i < entries.len()
        invariant
            i <= entries@.len(),
            all == entry_views(entries@),
            all == unit_entries_at(s@, unit).1,
            entries_search(s@, unit, head, all, target@, 0) == entries_search(
                s@,
                unit,
                head,
                all,
                target@,
                i as nat,
            ),
        decreases entries@.len() - i,
    {
        let e: &Entry = &entries[i];
        assert(all[i as int] == e@);
        if e.tag == TAG_VARIABLE {
            let found: Result<Option<(u64, usize)>, SymbolError<String>> = parse_variable(
                s,
                unit,
                head,
                e,
                target,
            );
            match found {
                Ok(None) => {},
                _ => {
                    return found;
                },
            }
        }
        i += 1;
    }
    match failure {
        Some(t) => Err(SymbolError::Entries(t)),
        None => Ok(None),
    }
}

/// Where a variable stands: its address in memory, the unit that describes it,
/// and the entry of its type in that unit.
#[derive(Debug, Clone, Copy, PartialEq, Eq, Structural)]
pub struct VariableSite {
    pub address: u64,
    pub unit: usize,
    pub type_at: usize,
}

/// The first variable called `target` in the units from offset `at` of
/// `.debug_info` on.
pub open spec fn units_search(s: SectionData, at: usize, target: Seq<char>) -> Result<
    VariableSite,
    SymbolError<Seq<char>>,
>
    decreases bytes_left(at, section_bytes(s.parts, ".debug_info"@).len() as int),
{
    if at >= section_bytes(s.parts, ".debug_info"@).len() {
        Err(SymbolError::NotFound)
    } else {
        match unit_head_at(s, at) {
            Err(t) => Err(SymbolError::Units(t)),
            Ok(head) => match unit_opens(s, at) {
                Err(t) => Err(SymbolError::Unit(t)),
                Ok(_) => match unit_search(s, at, head, target) {
                    Err(e) => Err(e),
                    Ok(Some((address, type_at))) => Ok(
                        VariableSite { address, unit: at, type_at },
                    ),
                    Ok(None) => if head.size == 0 || at + head.size > usize::MAX {
                        Err(SymbolError::NotFound)
                    } else {
                        units_search(s, (at + head.size) as usize, target)
                    },
                },
            },
        }
    }
}

/// The debug sections of an ELF file, and where the variable `symbol` stands.
pub open spec fn site_of(data: Seq<u8>, symbol: Seq<char>) -> Result<
    (SectionData, VariableSite),
    SymbolError<Seq<char>>,
> {
    match elf_endianness(data) {
        Err(t) => Err(SymbolError::NotElf(t)),
        Ok(little) => match units_search(debug_sections(data, little), 0, symbol) {
            Err(e) => Err(e),
            Ok(v) => Ok((debug_sections(data, little), v)),
        },
    }
}

/// Looks for the variable `symbol` in the debug information, unit by unit.
pub fn search_sections(s: &DebugSections, symbol: &str) -> (r: Result<
    VariableSite,
    SymbolError<String>,
>)
    ensures
        search_result(r) == units_search(s@, 0, symbol@),
{
    let info: &[u8] = s.get(".debug_info");
    let len: usize = info.len();
    let mut at: usize = 0;
    while at < len
        invariant
            len == section_bytes(s@.parts, ".debug_info"@).len(),
            at <= len,
            units_search(s@, 0, symbol@) == units_search(s@, at, symbol@),
        decreases len - at,
    {
        let head: UnitHead = match unit_head(s, at) {
            Ok(h) => h,
            Err(t) => {
                return Err(SymbolError::Units(t));
            },
        };
        if let Err(t) = open_unit(s, at) {
            return Err(SymbolError::Unit(t));
        }
        match search_unit(s, at, head, symbol) {
            Err(e) => {
                return Err(e);
            },
            Ok(Some((address, type_at))) => {
                return Ok(VariableSite { address, unit: at, type_at });
            },
            Ok(None) => {},
        }
        at += head.size;
    }
    Err(SymbolError::NotFound)
}

/// Looks for the global or static variable `symbol` in an ELF file.
pub fn find_symbol(data: &[u8], symbol: &str) -> (r: Result<
    (DebugSections, VariableSite),
    SymbolError<String>,
>)
    ensures
        match r {
            Ok(p) => site_of(data@, symbol@) == Ok::<_, SymbolError<Seq<char>>>((p.0@, p.1)),
            Err(e) => site_of(data@, symbol@) == Err::<(SectionData, VariableSite), _>(e@),
        },
{
    match load_debug_sections(data) {
        Err(t) => Err(SymbolError::NotElf(t)),
        Ok(s) => match search_sections(&s, symbol) {
            Err(e) => Err(e),
            Ok(v) => Ok((s, v)),
        },
    }
}

// ---------------------------------------------------------------------------
// What a search finds
// ---------------------------------------------------------------------------

/// Whether `attr` is one of the attributes `DW_AT_name`, `DW_AT_linkage_name` and
/// `DW_AT_MIPS_linkage_name`.
pub open spec fn names_entry(attr: u16) -> bool {
    attr == 0x03 || attr == 0x6e || attr == 0x2007
}

/// Whether one of the names of an entry is `target`.
pub open spec fn goes_by(s: SectionData, unit: usize, e: EntryData, target: Seq<char>) -> bool {
    exists|k: int|
        0 <= k < e.attrs.len() && names_entry(#[trigger] e.attrs[k]) && attr_text_at(
            s,
            unit,
            e.offset,
            k as usize,
        ) == Ok::<_, Seq<char>>(Some(target))
}

/// Whether the names of an entry can be read.
pub open spec fn names_readable(s: SectionData, unit: usize, e: EntryData) -> bool {
    forall|k: int|
        0 <= k < e.attrs.len() && names_entry(#[trigger] e.attrs[k]) ==> attr_text_at(
            s,
            unit,
            e.offset,
            k as usize,
        ) is Ok
}

/// Whether none of the first `n` entries of a unit is a variable (`DW_TAG_variable`)
/// called `target`.
pub open spec fn none_called(s: SectionData, unit: usize, n: int, target: Seq<char>) -> bool {
    forall|j: int|
        0 <= j < n ==> {
            let e = #[trigger] unit_entries_at(s, unit).1[j];
            e.tag == 0x34 ==> names_readable(s, unit, e) && !goes_by(s, unit, e, target)
        }
}

/// Whether a whole unit was searched, without a variable called `target`.
pub open spec fn searched_in_vain(s: SectionData, unit: usize, target: Seq<char>) -> bool {
    &&& unit_opens(s, unit) is Ok
    &&& unit_entries_at(s, unit).0 is None
    &&& none_called(s, unit, unit_entries_at(s, unit).1.len() as int, target)
}

/// Whether a location is the address `a`: as such, or as an expression of one
/// operation that gives it.
pub open spec fn locates(
    little: bool,
    head: UnitHead,
    value: Option<AttrValue<Seq<u8>>>,
    a: u64,
) -> bool {
    ||| value == Some(AttrValue::<Seq<u8>>::Address(a))
    ||| {
        &&& value matches Some(AttrValue::Expression(code))
        &&& first_operation(code, little, head) matches Some(op)
        &&& op.address == Some(a)
        &&& first_operation(code.skip(op.len as int), little, head) is None
    }
}

/// Whether the entry `e` has the attribute `name` as number `p`, and nowhere else.
pub open spec fn only_at(e: EntryData, name: u16, p: int) -> bool {
    &&& 0 <= p < e.attrs.len()
    &&& forall|j: int| 0 <= j < e.attrs.len() ==> ((#[trigger] e.attrs[j]) == name <==> j == p)
}

/// Whether entry number `k` of a unit is a variable called `target` at address `a`
/// with the type at `t`, by its attributes `DW_AT_location` and `DW_AT_type`.
pub open spec fn describes(
    s: SectionData,
    unit: usize,
    k: int,
    target: Seq<char>,
    a: u64,
    t: usize,
) -> bool {
    let e = unit_entries_at(s, unit).1[k];
    &&& 0 <= k < unit_entries_at(s, unit).1.len()
    &&& e.tag == 0x34
    &&& goes_by(s, unit, e, target)
    &&& exists|p: int, q: int|
        {
            &&& #[trigger] only_at(e, 0x02, p)
            &&& #[trigger] only_at(e, 0x49, q)
            &&& locates(
                s.little,
                unit_head_at(s, unit)->Ok_0,
                attr_value_at(s, unit, e.offset, p as usize),
                a,
            )
            &&& attr_value_at(s, unit, e.offset, q as usize) == Some(
                AttrValue::<Seq<u8>>::Reference(t),
            )
        }
}

proof fn lemma_scan_names(
    s: SectionData,
    unit: usize,
    head: UnitHead,
    e: EntryData,
    target: Seq<char>,
    k: nat,
)
    requires
        k <= e.attrs.len(),
    ensures
        variable_scan(s, unit, head, e, target, k) is Ok <==> (forall|j: int|
            0 <= j < k && names_entry(#[trigger] e.attrs[j]) ==> attr_text_at(
                s,
                unit,
                e.offset,
                j as usize,
            ) is Ok),
        variable_scan(s, unit, head, e, target, k) matches Ok(v) ==> (v.matched <==> exists|j: int|
            0 <= j < k && names_entry(#[trigger] e.attrs[j]) && attr_text_at(
                s,
                unit,
                e.offset,
                j as usize,
            ) == Ok::<_, Seq<char>>(Some(target))),
    decreases k,
{
    if k > 0 {
        let i = (k - 1) as nat;
        lemma_scan_names(s, unit, head, e, target, i);
        let attr = e.attrs[i as int];
        assert(is_name(attr) == names_entry(attr));
        let text = attr_text_at(s, unit, e.offset, i as usize);
        if variable_scan(s, unit, head, e, target, k) is Ok {
            let v = variable_scan(s, unit, head, e, target, k)->Ok_0;
            let u = variable_scan(s, unit, head, e, target, i)->Ok_0;
            if names_entry(attr) && text == Ok::<_, Seq<char>>(Some(target)) {
                assert(v.matched);
                assert(names_entry(e.attrs[i as int]));
            }
        } else if variable_scan(s, unit, head, e, target, i) is Ok {
            assert(names_entry(e.attrs[i as int]) && text is Err);
        }
    }
}

proof fn lemma_scan_values(
    s: SectionData,
    unit: usize,
    head: UnitHead,
    e: EntryData,
    target: Seq<char>,
    k: nat,
    p: int,
    q: int,
)
    requires
        k <= e.attrs.len(),
        only_at(e, 0x02, p),
        only_at(e, 0x49, q),
        variable_scan(s, unit, head, e, target, k) is Ok,
    ensures
        variable_scan(s, unit, head, e, target, k) matches Ok(v) && {
            &&& v.address == if p < k {
                location_address(s.little, head, attr_value_at(s, unit, e.offset, p as usize))
            } else {
                None
            }
            &&& v.type_ref == if q < k {
                match attr_value_at(s, unit, e.offset, q as usize) {
                    Some(AttrValue::Reference(o)) => Some(o),
                    _ => None,
                }
            } else {
                None
            }
        },
    decreases k,
{
    if k > 0 {
        let i = (k - 1) as nat;
        lemma_scan_values(s, unit, head, e, target, i, p, q);
        assert(e.attrs[i as int] == 0x02 <==> i == p);
        assert(e.attrs[i as int] == 0x49 <==> i == q);
    }
}

proof fn lemma_entries_passed(
    s: SectionData,
    unit: usize,
    head: UnitHead,
    target: Seq<char>,
    from: nat,
    n: nat,
)
    requires
        from <= n <= unit_entries_at(s, unit).1.len(),
        none_called(s, unit, n as int, target),
    ensures
        entries_search(s, unit, head, unit_entries_at(s, unit).1, target, from) == entries_search(
            s,
            unit,
            head,
            unit_entries_at(s, unit).1,
            target,
            n,
        ),
    decreases n - from,
{
    if from < n {
        let entries = unit_entries_at(s, unit).1;
        let e = entries[from as int];
        assert(e == unit_entries_at(s, unit).1[from as int]);
        if e.tag == 0x34 {
            lemma_scan_names(s, unit, head, e, target, e.attrs.len());
        }
        lemma_entries_passed(s, unit, head, target, from + 1, n);
    }
}

proof fn lemma_described_is_found(
    s: SectionData,
    unit: usize,
    k: int,
    target: Seq<char>,
    a: u64,
    t: usize,
)
    requires
        unit_head_at(s, unit) is Ok,
        none_called(s, unit, k, target),
        describes(s, unit, k, target, a, t),
        names_readable(s, unit, unit_entries_at(s, unit).1[k]),
        a != 0,
    ensures
        unit_search(s, unit, unit_head_at(s, unit)->Ok_0, target) == Ok::<
            _,
            SymbolError<Seq<char>>,
        >(Some((a, t))),
{
    let head = unit_head_at(s, unit)->Ok_0;
    let entries = unit_entries_at(s, unit).1;
    let e = entries[k];
    let (p, q) = choose|p: int, q: int|
        {
            &&& #[trigger] only_at(e, 0x02, p)
            &&& #[trigger] only_at(e, 0x49, q)
            &&& locates(s.little, head, attr_value_at(s, unit, e.offset, p as usize), a)
            &&& attr_value_at(s, unit, e.offset, q as usize) == Some(
                AttrValue::<Seq<u8>>::Reference(t),
            )
        };
    lemma_scan_names(s, unit, head, e, target, e.attrs.len());
    lemma_scan_values(s, unit, head, e, target, e.attrs.len(), p, q);
    lemma_entries_passed(s, unit, head, target, 0, k as nat);
}

/// A variable is found in whichever unit describes it: the search goes through the
/// units of `.debug_info` one behind the other, and takes the first variable of
/// that name with its address and its type.
pub proof fn law_variables_of_every_unit_are_found(
    s: SectionData,
    units: Seq<usize>,
    target: Seq<char>,
    k: int,
    a: u64,
    t: usize,
)
    requires
        units_in_order(s, units),
        forall|i: int|
            0 <= i < units.len() - 1 ==> searched_in_vain(s, #[trigger] units[i], target),
        unit_opens(s, units.last()) is Ok,
        none_called(s, units.last(), k, target),
        describes(s, units.last(), k, target, a, t),
        names_readable(s, units.last(), unit_entries_at(s, units.last()).1[k]),
        a != 0,
    ensures
        units_search(s, 0, target) == Ok::<_, SymbolError<Seq<char>>>(
            VariableSite { address: a, unit: units.last(), type_at: t },
        ),
{
    lemma_units_passed(s, 0, units, target);
    assert(unit_head_at(s, units[units.len() - 1]) is Ok);
    lemma_described_is_found(s, units.last(), k, target, a, t);
}

proof fn lemma_vain_search(s: SectionData, unit: usize, head: UnitHead, target: Seq<char>)
    ensures
        (unit_search(s, unit, head, target) matches Ok(None)) <==> {
            &&& unit_entries_at(s, unit).0 is None
            &&& none_called(s, unit, unit_entries_at(s, unit).1.len() as int, target)
        },
{
    let entries = unit_entries_at(s, unit).1;
    if none_called(s, unit, entries.len() as int, target) {
        lemma_entries_passed(s, unit, head, target, 0, entries.len());
    }
    if entries_search(s, unit, head, entries, target, 0) matches Ok(None) {
        lemma_no_entry_called(s, unit, head, target, 0);
    }
}

proof fn lemma_no_entry_called(
    s: SectionData,
    unit: usize,
    head: UnitHead,
    target: Seq<char>,
    from: nat,
)
    requires
        entries_search(s, unit, head, unit_entries_at(s, unit).1, target, from) matches Ok(None),
    ensures
        forall|j: int|
            from <= j < unit_entries_at(s, unit).1.len() ==> {
                let e = #[trigger] unit_entries_at(s, unit).1[j];
                e.tag == 0x34 ==> names_readable(s, unit, e) && !goes_by(s, unit, e, target)
            },
    decreases unit_entries_at(s, unit).1.len() - from,
{
    let entries = unit_entries_at(s, unit).1;
    if from < entries.len() {
        let e = entries[from as int];
        if e.tag == 0x34 {
            lemma_scan_names(s, unit, head, e, target, e.attrs.len());
        }
        lemma_no_entry_called(s, unit, head, target, from + 1);
    }
}

proof fn lemma_units_passed(s: SectionData, at: usize, units: Seq<usize>, target: Seq<char>)
    requires
        units_from(s, at, units),
        forall|i: int|
            0 <= i < units.len() - 1 ==> searched_in_vain(s, #[trigger] units[i], target),
    ensures
        units_search(s, at, target) == units_search(s, units.last(), target),
    decreases units.len(),
{
    if units.len() > 1 {
        let rest = units.drop_first();
        lemma_units_behind(s, at, units);
        assert(searched_in_vain(s, units[0], target));
        assert(unit_head_at(s, units[0]) is Ok);
        lemma_vain_search(s, at, unit_head_at(s, at)->Ok_0, target);
        assert forall|i: int| 0 <= i < rest.len() - 1 implies searched_in_vain(
            s,
            #[trigger] rest[i],
            target,
        ) by {
            assert(rest[i] == units[i + 1]);
        }
        lemma_units_passed(s, units[1], rest, target);
    }
}

/// A variable counts as not found only where every unit was searched from end to
/// end and none has a variable of that name.
pub proof fn law_not_found_is_in_no_unit(s: SectionData, units: Seq<usize>, target: Seq<char>)
    requires
        units_in_order(s, units),
        units_search(s, 0, target) == Err::<VariableSite, _>(SymbolError::<Seq<char>>::NotFound),
    ensures
        forall|i: int| 0 <= i < units.len() ==> searched_in_vain(s, #[trigger] units[i], target),
{
    lemma_all_searched(s, 0, units, target);
}

proof fn lemma_search_errors(s: SectionData, unit: usize, head: UnitHead, target: Seq<char>, n: nat)
    ensures
        entries_search(s, unit, head, unit_entries_at(s, unit).1, target, n) != Err::<
            Option<(u64, usize)>,
            _,
        >(SymbolError::<Seq<char>>::NotFound),
    decreases unit_entries_at(s, unit).1.len() - n,
{
    if n < unit_entries_at(s, unit).1.len() {
        lemma_search_errors(s, unit, head, target, n + 1);
    }
}

proof fn lemma_all_searched(s: SectionData, at: usize, units: Seq<usize>, target: Seq<char>)
    requires
        units_from(s, at, units),
        units_search(s, at, target) == Err::<VariableSite, _>(SymbolError::<Seq<char>>::NotFound),
    ensures
        forall|i: int| 0 <= i < units.len() ==> searched_in_vain(s, #[trigger] units[i], target),
    decreases units.len(),
{
    assert(unit_head_at(s, units[0]) is Ok);
    let head = unit_head_at(s, at)->Ok_0;
    lemma_vain_search(s, at, head, target);
    lemma_search_errors(s, at, head, target, 0);
    if units.len() > 1 {
        let rest = units.drop_first();
        lemma_units_behind(s, at, units);
        lemma_all_searched(s, units[1], rest, target);
        assert forall|i: int| 0 <= i < units.len() implies searched_in_vain(
            s,
            #[trigger] units[i],
            target,
        ) by {
            if i > 0 {
                assert(units[i] == rest[i - 1]);
            }
        }
    }
}

// ---------------------------------------------------------------------------
// Values
// ---------------------------------------------------------------------------

/// The number that bytes stand for, least significant byte first.
pub open spec fn le_number(b: Seq<u8>) -> nat
    decreases b.len(),
{
    if b.len() == 0 {
        0
    } else {
        b[0] as nat + 256 * le_number(b.drop_first())
    }
}

/// 256 to the power of `n`.
pub open spec fn pow256(n: nat) -> nat
    decreases n,
{
    if n == 0 {
        1
    } else {
        256 * pow256((n - 1) as nat)
    }
}

/// The signed number that bytes stand for in two's complement.
pub open spec fn le_signed(b: Seq<u8>) -> int {
    let v = le_number(b);
    if 2 * v >= pow256(b.len()) {
        v - pow256(b.len())
    } else {
        v as int
    }
}

/// A number that was read out of memory.
#[derive(Debug, Clone, Copy, PartialEq, Eq, Structural)]
pub enum Value {
    Signed(i64),
    Unsigned(u64),
    /// The bits of a four-byte floating-point number.
    Single(u32),
    /// The bits of an eight-byte floating-point number.
    Double(u64),
}

/// Whether a number of that size can be read in that encoding.
pub open spec fn supported(encoding: Encoding, size: usize) -> bool {
    match encoding {
        Encoding::Float => size == 4 || size == 8,
        _ => size == 1 || size == 2 || size == 4 || size == 8,
    }
}

/// The value of a scalar in the bytes `b`.
pub open spec fn value_of(encoding: Encoding, size: usize, b: Seq<u8>) -> Value {
    let bytes = b.take(size as int);
    match encoding {
        Encoding::Float => if size == 4 {
            Value::Single(le_number(bytes) as u32)
        } else {
            Value::Double(le_number(bytes) as u64)
        },
        Encoding::Signed => Value::Signed(le_signed(bytes) as i64),
        Encoding::Unsigned => Value::Unsigned(le_number(bytes) as u64),
    }
}

/// The text of each floating-point number: its bits, and whether it takes eight
/// bytes rather than four.
pub type FloatTexts = spec_fn(u64, bool) -> Seq<char>;

/// Whether a writer of floating-point numbers answers as `floats` does.
pub open spec fn writes<F: Fn(u64, bool) -> String>(show: F, floats: FloatTexts) -> bool {
    forall|bits: u64, wide: bool, r: String| #[trigger]
        call_ensures(show, (bits, wide), r) ==> r@ == floats(bits, wide)
}

/// Whether a writer of floating-point numbers takes any of them.
pub open spec fn writes_any<F: Fn(u64, bool) -> String>(show: F) -> bool {
    forall|bits: u64, wide: bool| call_requires(show, (bits, wide))
}

/// The text of a value.
pub open spec fn value_text(v: Value, floats: FloatTexts) -> Seq<char> {
    match v {
        Value::Signed(n) => dec_signed(n as int),
        Value::Unsigned(n) => dec(n as nat),
        Value::Single(b) => floats(b as u64, false),
        Value::Double(b) => floats(b, true),
    }
}

/// Writes a value. `show` writes floating-point numbers.
pub fn write_value<F: Fn(u64, bool) -> String>(v: Value, show: &F) -> (r: String)
    requires
        writes_any(*show),
    ensures
        forall|floats: FloatTexts| #[trigger]
            writes(*show, floats) ==> r@ == value_text(v, floats),
{
    match v {
        Value::Signed(n) => dec_signed_text(n),
        Value::Unsigned(n) => dec_text(n),
        Value::Single(b) => show(b as u64, false),
        Value::Double(b) => show(b, true),
    }
}

/// An encoding and a size that do not go together.
#[derive(Debug, Clone, Copy, PartialEq, Eq, Structural)]
pub struct UnsupportedValue {
    pub encoding: Encoding,
    pub size: usize,
}

impl UnsupportedValue {
    /// The wording of the refusal.
    pub open spec fn text(self) -> Seq<char> {
        "不支持的编码/大小组合："@ + self.encoding.label() + " × "@ + dec(self.size as nat)
            + " 字节"@
    }

    /// The wording of the refusal.
    pub fn message(&self) -> (r: String)
        ensures
            r@ == self.text(),
    {
        let mut s: String = String::from_str("不支持的编码/大小组合：");
        s.append(self.encoding.name());
        s.append(" × ");
        s.append(dec_text(self.size as u64).as_str());
        s.append(" 字节");
        s
    }
}

fn le_read(buf: &[u8], n: usize) -> (v: u64)
    requires
        n <= buf@.len(),
        n <= 8,
    ensures
        v == le_number(buf@.take(n as int)),
        v < pow256(n as nat),
{
    let mut v: u64 = 0;
    let mut k: usize = n;
    proof {
        reveal_with_fuel(pow256, 9);
    }
    assert(buf@.take(n as int).skip(n as int) =~= Seq::empty());
    while k > 0
        invariant
            k <= n <= buf@.len(),
            n <= 8,
            v == le_number(buf@.take(n as int).skip(k as int)),
            v < pow256((n - k) as nat),
        decreases k,
    {
        k -= 1;
        let ghost rest = buf@.take(n as int).skip(k as int);
        assert(rest.drop_first() =~= buf@.take(n as int).skip(k + 1));
        assert(rest[0] == buf@[k as int]);
        proof {
            reveal_with_fuel(pow256, 9);
        }
        v = v * 256 + buf[k] as u64;
    }
    assert(buf@.take(n as int).skip(0) =~= buf@.take(n as int));
    v
}

/// Reads a scalar out of the bytes of memory, least significant byte first.
pub fn scalar_value(encoding: Encoding, n: usize, buf: &[u8]) -> (r: Result<
    Value,
    UnsupportedValue,
>)
    requires
        supported(encoding, n) ==> buf@.len() >= n,
    ensures
        match r {
            Ok(v) => supported(encoding, n) && v == value_of(encoding, n, buf@),
            Err(e) => !supported(encoding, n) && e == (UnsupportedValue { encoding, size: n }),
        },
{
    let ok: bool = match encoding {
        Encoding::Float => n == 4 || n == 8,
        _ => n == 1 || n == 2 || n == 4 || n == 8,
    };
    if !ok {
        return Err(UnsupportedValue { encoding, size: n });
    }
    let v: u64 = le_read(buf, n);
    proof {
        reveal_with_fuel(pow256, 9);
        assert(buf@.take(n as int).len() == n);
    }
    Ok(
        match encoding {
            Encoding::Float => if n == 4 {
                Value::Single(v as u32)
            } else {
                Value::Double(v)
            },
            Encoding::Unsigned => Value::Unsigned(v),
            Encoding::Signed => {
                let modulus: i128 = if n == 1 {
                    0x100
                } else if n == 2 {
                    0x1_0000
                } else if n == 4 {
                    0x1_0000_0000
                } else {
                    0x1_0000_0000_0000_0000
                };
                let wide: i128 = v as i128;
                let signed: i64 = if 2 * wide >= modulus {
                    (wide - modulus) as i64
                } else {
                    wide as i64
                };
                Value::Signed(signed)
            },
        },
    )
}

// ---------------------------------------------------------------------------
// What types and values amount to
// ---------------------------------------------------------------------------

/// An attribute that an entry has once is the one that is found.
pub proof fn lemma_only_attr(e: EntryData, name: u16, p: int, k: nat)
    requires
        only_at(e, name, p),
        k <= p,
    ensures
        attr_index(e.attrs, name, k) == Some(p as nat),
    decreases p - k,
{
    if k < p {
        assert(e.attrs[k as int] != name);
        lemma_only_attr(e, name, p, k + 1);
    } else {
        assert(e.attrs[p] == name);
    }
}

/// Whether a tag is one of `DW_TAG_typedef`, `DW_TAG_const_type`,
/// `DW_TAG_volatile_type`, `DW_TAG_restrict_type` and `DW_TAG_atomic_type`.
pub open spec fn only_modifies(tag: u16) -> bool {
    tag == 0x16 || tag == 0x26 || tag == 0x35 || tag == 0x37 || tag == 0x47
}

/// Whether the entry at `at` refers to the type at `next`, by its one attribute
/// `DW_AT_type`.
pub open spec fn refers_to(s: SectionData, unit: usize, at: usize, next: usize) -> bool {
    &&& entry_exactly_at(s, unit, at) matches Ok(e)
    &&& exists|q: int|
        #[trigger] only_at(e, 0x49, q) && attr_value_at(s, unit, e.offset, q as usize) == Some(
            AttrValue::<Seq<u8>>::Reference(next),
        )
}

/// Whether the entries at `chain` lead from one to the next: all but the last only
/// modify the type that follows.
pub open spec fn leads_down(s: SectionData, unit: usize, chain: Seq<usize>) -> bool {
    &&& chain.len() > 0
    &&& forall|i: int|
        0 <= i < chain.len() ==> entry_exactly_at(s, unit, #[trigger] chain[i]) is Ok
    &&& forall|i: int|
        #![trigger chain[i]]
        0 <= i < chain.len() - 1 ==> only_modifies(
            (entry_exactly_at(s, unit, chain[i])->Ok_0).tag,
        ) && refers_to(s, unit, chain[i], chain[i + 1])
}

pub proof fn lemma_reference(s: SectionData, unit: usize, at: usize, next: usize)
    requires
        refers_to(s, unit, at, next),
    ensures
        type_reference(s, unit, entry_exactly_at(s, unit, at)->Ok_0) == Some(next),
{
    let e = entry_exactly_at(s, unit, at)->Ok_0;
    let q = choose|q: int|
        #[trigger] only_at(e, 0x49, q) && attr_value_at(s, unit, e.offset, q as usize) == Some(
            AttrValue::<Seq<u8>>::Reference(next),
        );
    lemma_only_attr(e, 0x49, q, 0);
}

pub proof fn lemma_chain_behind(s: SectionData, unit: usize, chain: Seq<usize>)
    requires
        leads_down(s, unit, chain),
        chain.len() > 1,
    ensures
        leads_down(s, unit, chain.drop_first()),
        chain.drop_first()[0] == chain[1],
        chain.drop_first().last() == chain.last(),
{
    let rest = chain.drop_first();
    assert forall|i: int| 0 <= i < rest.len() implies entry_exactly_at(
        s,
        unit,
        #[trigger] rest[i],
    ) is Ok by {
        assert(rest[i] == chain[i + 1]);
    }
    assert forall|i: int|
        #![trigger rest[i]]
        0 <= i < rest.len() - 1 implies only_modifies(
        (entry_exactly_at(s, unit, rest[i])->Ok_0).tag,
    ) && refers_to(s, unit, rest[i], rest[i + 1]) by {
        assert(rest[i] == chain[i + 1] && rest[i + 1] == chain[i + 2]);
    }
}

proof fn lemma_chain_passed(s: SectionData, unit: usize, chain: Seq<usize>, steps: nat)
    requires
        leads_down(s, unit, chain),
        steps >= chain.len(),
    ensures
        base_type(s, unit, chain[0], steps) == base_type(
            s,
            unit,
            chain.last(),
            (steps - chain.len() + 1) as nat,
        ),
    decreases chain.len(),
{
    if chain.len() > 1 {
        assert(only_modifies((entry_exactly_at(s, unit, chain[0])->Ok_0).tag));
        lemma_reference(s, unit, chain[0], chain[1]);
        lemma_chain_behind(s, unit, chain);
        lemma_chain_passed(s, unit, chain.drop_first(), (steps - 1) as nat);
    }
}

/// A base type is found through any number of typedefs and qualifiers, and is what
/// its name, its size and its encoding say: `DW_ATE_float` is a floating-point
/// number, `DW_ATE_signed` and `DW_ATE_signed_char` are signed, `DW_ATE_unsigned`,
/// `DW_ATE_unsigned_char` and `DW_ATE_boolean` unsigned.
pub proof fn law_modifiers_lead_to_the_base_type(
    s: SectionData,
    unit: usize,
    chain: Seq<usize>,
    name: Seq<char>,
    size: u64,
    code: u8,
    p: int,
    q: int,
    r: int,
)
    requires
        leads_down(s, unit, chain),
        chain.len() <= section_bytes(s.parts, ".debug_info"@).len(),
        entry_exactly_at(s, unit, chain.last()) matches Ok(e) && {
            &&& e.tag == 0x24
            &&& only_at(e, 0x03, p)
            &&& attr_text_at(s, unit, e.offset, p as usize) == Ok::<_, Seq<char>>(Some(name))
            &&& only_at(e, 0x0b, q)
            &&& attr_number_at(s, unit, e.offset, q as usize) == Some(size)
            &&& only_at(e, 0x3e, r)
            &&& attr_value_at(s, unit, e.offset, r as usize) == Some(
                AttrValue::<Seq<u8>>::TypeEncoding(code),
            )
        },
        size <= usize::MAX,
    ensures
        match base_type(s, unit, chain[0], chain_limit(s)) {
            Ok(b) => {
                &&& b.name == name
                &&& b.size == size
                &&& match b.encoding {
                    Encoding::Float => code == 0x04,
                    Encoding::Signed => code == 0x05 || code == 0x06,
                    Encoding::Unsigned => code == 0x07 || code == 0x08 || code == 0x02,
                }
            },
            Err(_) => code != 0x02 && !(0x04 <= code <= 0x08),
        },
{
    let e = entry_exactly_at(s, unit, chain.last())->Ok_0;
    lemma_chain_passed(s, unit, chain, chain_limit(s));
    lemma_base_attrs(s, unit, e, e.attrs.len(), name, p, q, r);
}

proof fn lemma_base_attrs(
    s: SectionData,
    unit: usize,
    e: EntryData,
    k: nat,
    name: Seq<char>,
    p: int,
    q: int,
    r: int,
)
    requires
        k <= e.attrs.len(),
        only_at(e, 0x03, p),
        attr_text_at(s, unit, e.offset, p as usize) == Ok::<_, Seq<char>>(Some(name)),
        only_at(e, 0x0b, q),
        only_at(e, 0x3e, r),
    ensures
        base_scan(s, unit, e, k) matches Ok(b) && {
            &&& p < k ==> b.name == Some(name)
            &&& q < k ==> b.size == attr_number_at(s, unit, e.offset, q as usize)
            &&& r < k ==> b.encoding == encoding_number(s, unit, e.offset, r as usize)
        },
    decreases k,
{
    if k > 0 {
        lemma_base_attrs(s, unit, e, (k - 1) as nat, name, p, q, r);
        assert(e.attrs[k - 1] == 0x03 <==> k - 1 == p);
        assert(e.attrs[k - 1] == 0x0b <==> k - 1 == q);
        assert(e.attrs[k - 1] == 0x3e <==> k - 1 == r);
    }
}

/// A type that is not a base type is told by its kind, through any number of
/// typedefs and qualifiers.
pub proof fn law_other_types_are_told_apart(s: SectionData, unit: usize, chain: Seq<usize>)
    requires
        leads_down(s, unit, chain),
        chain.len() <= section_bytes(s.parts, ".debug_info"@).len(),
    ensures
        ({
            let tag = (entry_exactly_at(s, unit, chain.last())->Ok_0).tag;
            let found = base_type(s, unit, chain[0], chain_limit(s));
            &&& tag == 0x04 ==> found == Err::<BaseData, _>(TypeError::<Seq<char>>::Enumeration)
            &&& tag == 0x13 || tag == 0x17 ==> found == Err::<BaseData, _>(
                TypeError::<Seq<char>>::Aggregate,
            )
            &&& tag == 0x01 ==> found == Err::<BaseData, _>(TypeError::<Seq<char>>::Array)
            &&& tag == 0x0f || tag == 0x10 ==> found == Err::<BaseData, _>(
                TypeError::<Seq<char>>::Pointer,
            )
        }),
{
    lemma_chain_passed(s, unit, chain, chain_limit(s));
    assert(entry_exactly_at(s, unit, chain[chain.len() - 1]) is Ok);
}

/// A scalar is read least significant byte first. A signed one with the highest
/// bit set is below zero.
pub proof fn law_scalars_are_little_endian(encoding: Encoding, size: usize, b: Seq<u8>)
    requires
        b.len() >= size,
        size == 1 || size == 2 || size == 4 || size == 8,
    ensures
        ({
            let low: int = b[0] + if size >= 2 {
                0x100 * b[1]
            } else {
                0int
            };
            let half: int = low + if size >= 4 {
                0x1_0000 * b[2] + 0x100_0000 * b[3]
            } else {
                0int
            };
            let n: int = half + if size == 8 {
                0x1_0000_0000 * b[4] + 0x100_0000_0000 * b[5] + 0x1_0000_0000_0000 * b[6]
                    + 0x100_0000_0000_0000 * b[7]
            } else {
                0int
            };
            let whole: int = if size == 1 {
                0x100
            } else if size == 2 {
                0x1_0000
            } else if size == 4 {
                0x1_0000_0000
            } else {
                0x1_0000_0000_0000_0000
            };
            &&& encoding == Encoding::Unsigned ==> (value_of(encoding, size, b) matches
                Value::Unsigned(v) && v == n)
            &&& encoding == Encoding::Signed ==> (value_of(encoding, size, b) matches
                Value::Signed(v) && v == if b[size - 1] >= 128 {
                n - whole
            } else {
                n
            })
            &&& encoding == Encoding::Float && size == 4 ==> (value_of(encoding, size, b) matches
                Value::Single(v) && v == n)
            &&& encoding == Encoding::Float && size == 8 ==> (value_of(encoding, size, b) matches
                Value::Double(v) && v == n)
            &&& supported(encoding, size) == (encoding != Encoding::Float || size >= 4)
        }),
{
    let t = b.take(size as int);
    lemma_le_unfold(t, size as nat);
    reveal_with_fuel(pow256, 9);
    assert(forall|i: int| 0 <= i < size ==> t[i] == b[i]);
}

proof fn lemma_le_step(t: Seq<u8>)
    requires
        t.len() > 0,
    ensures
        le_number(t) == t[0] + 256 * le_number(t.drop_first()),
        forall|i: int| 0 <= i < t.len() - 1 ==> t.drop_first()[i] == t[i + 1],
        t.drop_first().len() == t.len() - 1,
{
}

proof fn lemma_le_two(t: Seq<u8>)
    requires
        t.len() >= 2,
    ensures
        le_number(t) == t[0] + 0x100 * t[1] + 0x1_0000 * le_number(t.skip(2)),
{
    lemma_le_step(t);
    lemma_le_step(t.drop_first());
    assert(t.drop_first().drop_first() =~= t.skip(2));
}

proof fn lemma_le_unfold(t: Seq<u8>, n: nat)
    requires
        t.len() == n,
        n == 1 || n == 2 || n == 4 || n == 8,
    ensures
        n == 1 ==> le_number(t) == t[0],
        n == 2 ==> le_number(t) == t[0] + 0x100 * t[1],
        n == 4 ==> le_number(t) == t[0] + 0x100 * t[1] + 0x1_0000 * t[2] + 0x100_0000 * t[3],
        n == 8 ==> le_number(t) == t[0] + 0x100 * t[1] + 0x1_0000 * t[2] + 0x100_0000 * t[3]
            + 0x1_0000_0000 * t[4] + 0x100_0000_0000 * t[5] + 0x1_0000_0000_0000 * t[6]
            + 0x100_0000_0000_0000 * t[7],
{
    if n == 1 {
        lemma_le_step(t);
        assert(t.drop_first() =~= Seq::<u8>::empty());
        assert(le_number(Seq::<u8>::empty()) == 0);
    } else {
        lemma_le_two(t);
        let a = t.skip(2);
        if n == 2 {
            assert(a =~= Seq::<u8>::empty());
            assert(le_number(Seq::<u8>::empty()) == 0);
        } else {
            lemma_le_two(a);
            let c = a.skip(2);
            assert(a[0] == t[2] && a[1] == t[3]);
            if n == 4 {
                assert(c =~= Seq::<u8>::empty());
                assert(le_number(Seq::<u8>::empty()) == 0);
            } else {
                lemma_le_two(c);
                let d = c.skip(2);
                assert(c[0] == t[4] && c[1] == t[5]);
                lemma_le_two(d);
                assert(d[0] == t[6] && d[1] == t[7]);
                assert(d.skip(2) =~= Seq::<u8>::empty());
                assert(le_number(Seq::<u8>::empty()) == 0);
            }
        }
    }
}

/// A variable of the right name without an address, or at address zero, was
/// optimized away: the first variable of that name decides, in whichever unit it
/// is.
pub proof fn law_optimized_variables_say_so(
    s: SectionData,
    units: Seq<usize>,
    target: Seq<char>,
    k: int,
)
    requires
        units_in_order(s, units),
        forall|i: int|
            0 <= i < units.len() - 1 ==> searched_in_vain(s, #[trigger] units[i], target),
        unit_opens(s, units.last()) is Ok,
        0 <= k < unit_entries_at(s, units.last()).1.len(),
        none_called(s, units.last(), k, target),
        (unit_entries_at(s, units.last()).1[k]).tag == 0x34,
        names_readable(s, units.last(), unit_entries_at(s, units.last()).1[k]),
        goes_by(s, units.last(), unit_entries_at(s, units.last()).1[k], target),
    ensures
        ({
            let e = unit_entries_at(s, units.last()).1[k];
            let unit = units.last();
            &&& (forall|j: int| 0 <= j < e.attrs.len() ==> #[trigger] e.attrs[j] != 0x02)
                ==> units_search(s, 0, target) == Err::<VariableSite, _>(
                SymbolError::<Seq<char>>::OptimizedOut,
            )
            &&& (exists|p: int, q: int|
                {
                    &&& #[trigger] only_at(e, 0x02, p)
                    &&& #[trigger] only_at(e, 0x49, q)
                    &&& attr_value_at(s, unit, e.offset, p as usize) == Some(
                        AttrValue::<Seq<u8>>::Address(0),
                    )
                }) ==> units_search(s, 0, target) == Err::<VariableSite, _>(
                SymbolError::<Seq<char>>::OptimizedOut,
            )
        }),
{
    let unit = units.last();
    let e = unit_entries_at(s, unit).1[k];
    lemma_units_passed(s, 0, units, target);
    assert(unit_head_at(s, units[units.len() - 1]) is Ok);
    let head = unit_head_at(s, unit)->Ok_0;
    lemma_scan_names(s, unit, head, e, target, e.attrs.len());
    lemma_entries_passed(s, unit, head, target, 0, k as nat);
    if forall|j: int| 0 <= j < e.attrs.len() ==> #[trigger] e.attrs[j] != 0x02 {
        lemma_no_location(s, unit, head, e, target, e.attrs.len());
    }
    if exists|p: int, q: int|
        {
            &&& #[trigger] only_at(e, 0x02, p)
            &&& #[trigger] only_at(e, 0x49, q)
            &&& attr_value_at(s, unit, e.offset, p as usize) == Some(
                AttrValue::<Seq<u8>>::Address(0),
            )
        } {
        let (p, q) = choose|p: int, q: int|
            {
                &&& #[trigger] only_at(e, 0x02, p)
                &&& #[trigger] only_at(e, 0x49, q)
                &&& attr_value_at(s, unit, e.offset, p as usize) == Some(
                    AttrValue::<Seq<u8>>::Address(0),
                )
            };
        lemma_scan_values(s, unit, head, e, target, e.attrs.len(), p, q);
    }
}

proof fn lemma_no_location(
    s: SectionData,
    unit: usize,
    head: UnitHead,
    e: EntryData,
    target: Seq<char>,
    k: nat,
)
    requires
        k <= e.attrs.len(),
        forall|j: int| 0 <= j < e.attrs.len() ==> #[trigger] e.attrs[j] != 0x02,
        variable_scan(s, unit, head, e, target, k) is Ok,
    ensures
        variable_scan(s, unit, head, e, target, k) matches Ok(v) && v.address is None,
    decreases k,
{
    if k > 0 {
        lemma_no_location(s, unit, head, e, target, (k - 1) as nat);
        assert(e.attrs[k - 1] != 0x02);
    }
}

/// What is stated of a search and of a base type is stated of all that they hand
/// out.
pub proof fn law_findings_are_seen_whole(
    r: Result<VariableSite, SymbolError<String>>,
    b: Result<BaseType, TypeError<String>>,
)
    ensures
        match r {
            Ok(v) => search_result(r) == Ok::<_, SymbolError<Seq<char>>>(v),
            Err(e) => search_result(r) == Err::<VariableSite, _>(e@),
        },
        r == Err::<VariableSite, _>(SymbolError::<String>::NotFound) <==> search_result(r) == Err::<
            VariableSite,
            _,
        >(SymbolError::<Seq<char>>::NotFound),
        match b {
            Ok(x) => type_result(b) matches Ok(d) && d.name == x.name@ && d.size == x.size
                && d.encoding == x.encoding,
            Err(e) => type_result(b) == Err::<BaseData, _>(e@),
        },
{
}

/// A location that is neither an address nor an expression of one operation that
/// gives one is none: the variable has no fixed place.
pub proof fn law_other_locations_are_no_address(
    little: bool,
    head: UnitHead,
    code: Seq<u8>,
    op: LocationOp,
)
    requires
        first_operation(code, little, head) == Some(op),
    ensures
        first_operation(code.skip(op.len as int), little, head) is Some ==> location_address(
            little,
            head,
            Some(AttrValue::Expression(code)),
        ) is None,
        op.address is None ==> location_address(little, head, Some(AttrValue::Expression(code)))
            is None,
        location_address(little, head, None) is None,
        location_address(little, head, Some(AttrValue::<Seq<u8>>::Plain)) is None,
{
}

}
