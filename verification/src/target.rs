//! The targets of breakpoints: an address, a source line or a function, and the
//! address that each stands for.
use vstd::prelude::*;
use crate::code_map::{CodeMap, CodeMapData, LookupError};
use crate::number::{
    dec, digit_char, digit_value, hex, law_hex_read_back, law_numeral_read_back, lemma_dec_digits,
    lemma_digits_are_plain, lemma_ends_are_solid, lemma_hex_digits, lemma_no_prefix,
    lemma_prefixed, read_unsigned, strip_hex_prefix, strip_hex_prefix_of, unsigned_value, NumError,
};
use crate::text::{
    chars_of, contains_char, is_white_space, law_cut_at_the_last, law_trimming, lemma_absent,
    rsplit_once, rsplit_once_of, string_of, trim, trim_of,
};

verus! {

/// Why a target stands for no address. `T` is the form in which text is held.
#[derive(Debug)]
pub enum TargetError<T> {
    /// A prefix without digits.
    NoDigits,
    /// What follows the prefix is no number.
    BadHex(T, NumError),
    /// The digits are no number.
    BadAddress(T, NumError),
    /// A source line, without an image to look it up in.
    LineWithoutImage(T),
    /// A function, without an image to look it up in.
    FunctionWithoutImage(T),
    /// The image does not have it.
    Unknown(LookupError<T>),
}

impl View for TargetError<String> {
    type V = TargetError<Seq<char>>;

    open spec fn view(&self) -> TargetError<Seq<char>> {
        match *self {
            TargetError::NoDigits => TargetError::NoDigits,
            TargetError::BadHex(t, e) => TargetError::BadHex(t@, e),
            TargetError::BadAddress(t, e) => TargetError::BadAddress(t@, e),
            TargetError::LineWithoutImage(t) => TargetError::LineWithoutImage(t@),
            TargetError::FunctionWithoutImage(t) => TargetError::FunctionWithoutImage(t@),
            TargetError::Unknown(e) => TargetError::Unknown(e@),
        }
    }
}

impl TargetError<Seq<char>> {
    /// The wording of each failure.
    pub open spec fn text(self) -> Seq<char> {
        match self {
            TargetError::NoDigits => "地址不能为空"@,
            TargetError::BadHex(t, e) => "无效的十六进制地址："@ + t + ": "@ + e.text(),
            TargetError::BadAddress(t, e) => "无效的地址："@ + t + ": "@ + e.text(),
            TargetError::LineWithoutImage(t) => "目标是源文件位置 "@ + t
                + "，但配置里没有固件镜像"@,
            TargetError::FunctionWithoutImage(t) => "目标是符号 "@ + t
                + "，但配置里没有 firmware.elf"@,
            TargetError::Unknown(e) => e.text(),
        }
    }
}

impl TargetError<String> {
    /// The wording of this failure.
    pub fn message(&self) -> (r: String)
        ensures
            r@ == self@.text(),
    {
        match self {
            TargetError::NoDigits => String::from_str("地址不能为空"),
            TargetError::BadHex(t, e) => {
                let mut s: String = String::from_str("无效的十六进制地址：");
                s.append(t.as_str());
                s.append(": ");
                s.append(e.message());
                s
            },
            TargetError::BadAddress(t, e) => {
                let mut s: String = String::from_str("无效的地址：");
                s.append(t.as_str());
                s.append(": ");
                s.append(e.message());
                s
            },
            TargetError::LineWithoutImage(t) => {
                let mut s: String = String::from_str("目标是源文件位置 ");
                s.append(t.as_str());
                s.append("，但配置里没有固件镜像");
                s
            },
            TargetError::FunctionWithoutImage(t) => {
                let mut s: String = String::from_str("目标是符号 ");
                s.append(t.as_str());
                s.append("，但配置里没有 firmware.elf");
                s
            },
            TargetError::Unknown(e) => e.message(),
        }
    }
}

/// What a target names. `T` is the form in which text is held.
#[derive(Debug)]
pub enum BreakTarget<T> {
    /// An address.
    Address(u64),
    /// A line of a source file.
    Line(T, u64),
    /// A function.
    Function(T),
}

impl View for BreakTarget<String> {
    type V = BreakTarget<Seq<char>>;

    open spec fn view(&self) -> BreakTarget<Seq<char>> {
        match *self {
            BreakTarget::Address(a) => BreakTarget::Address(a),
            BreakTarget::Line(f, n) => BreakTarget::Line(f@, n),
            BreakTarget::Function(t) => BreakTarget::Function(t@),
        }
    }
}

/// Whether a text consists of hexadecimal digits.
pub open spec fn all_hex(t: Seq<char>) -> bool {
    forall|i: int| 0 <= i < t.len() ==> digit_value(#[trigger] t[i], 16) is Some
}

/// Whether a text is long enough to be taken for an address without a prefix:
/// what is shorter may be the name of a function.
pub open spec fn bare_address(t: Seq<char>) -> bool {
    t.len() >= 8 && all_hex(t)
}

/// Whether a text looks like a file: it holds a separator or a dot.
pub open spec fn like_file(f: Seq<char>) -> bool {
    f.contains('/') || f.contains('\\') || f.contains('.')
}

/// The file and the line that a target names behind its last colon.
pub open spec fn line_target(t: Seq<char>) -> Option<(Seq<char>, u64)> {
    match rsplit_once(t, ':') {
        Some((file, digits)) => match unsigned_value(digits, 10, u64::MAX as nat) {
            Ok(n) => if like_file(file) {
                Some((file, n as u64))
            } else {
                None
            },
            Err(_) => None,
        },
        None => None,
    }
}

/// What a target names.
pub open spec fn target_of(s: Seq<char>) -> Result<BreakTarget<Seq<char>>, TargetError<Seq<char>>> {
    let t = trim(s);
    match strip_hex_prefix(t) {
        Some(h) => if h.len() == 0 {
            Err(TargetError::NoDigits)
        } else {
            match unsigned_value(h, 16, u64::MAX as nat) {
                Ok(a) => Ok(BreakTarget::Address(a as u64)),
                Err(e) => Err(TargetError::BadHex(t, e)),
            }
        },
        None => if bare_address(t) {
            match unsigned_value(t, 16, u64::MAX as nat) {
                Ok(a) => Ok(BreakTarget::Address(a as u64)),
                Err(e) => Err(TargetError::BadAddress(t, e)),
            }
        } else {
            match line_target(t) {
                Some((file, line)) => Ok(BreakTarget::Line(file, line)),
                None => Ok(BreakTarget::Function(t)),
            }
        },
    }
}

/// The address that a target stands for.
pub open spec fn target_address(image: Option<CodeMapData>, s: Seq<char>) -> Result<
    u64,
    TargetError<Seq<char>>,
> {
    match target_of(s) {
        Err(e) => Err(e),
        Ok(BreakTarget::Address(a)) => Ok(a),
        Ok(BreakTarget::Line(file, line)) => match image {
            None => Err(TargetError::LineWithoutImage(trim(s))),
            Some(m) => match m.line_address(file, line) {
                Ok(a) => Ok(a),
                Err(e) => Err(TargetError::Unknown(e)),
            },
        },
        Ok(BreakTarget::Function(name)) => match image {
            None => Err(TargetError::FunctionWithoutImage(trim(s))),
            Some(m) => match m.function_address(name) {
                Ok(a) => Ok(a),
                Err(e) => Err(TargetError::Unknown(e)),
            },
        },
    }
}

fn is_bare_address(t: &[char]) -> (r: bool)
    ensures
        r == bare_address(t@),
{
    if t.len() < 8 {
        return false;
    }
    let mut i: usize = 0;
    while i < t.len()
        invariant
            i <= t@.len(),
            forall|j: int| 0 <= j < i ==> digit_value(#[trigger] t@[j], 16) is Some,
        decreases t@.len() - i,
    {
        let c: char = t[i];
        let digit: bool = ('0' <= c && c <= '9') || ('a' <= c && c <= 'f') || ('A' <= c && c <= 'F');
        assert(digit == (digit_value(t@[i as int], 16) is Some));
        if !digit {
            return false;
        }
        i += 1;
    }
    true
}

fn read_line_target(t: &[char]) -> (r: Option<(String, u64)>)
    ensures
        match r {
            Some(p) => line_target(t@) == Some((p.0@, p.1)),
            None => line_target(t@) is None,
        },
{
    match rsplit_once_of(t, ':') {
        Some((file, digits)) => match read_unsigned(digits, 10, u64::MAX) {
            Ok(n) => {
                if contains_char(file, '/') || contains_char(file, '\\') || contains_char(file, '.') {
                    Some((string_of(file), n))
                } else {
                    None
                }
            },
            Err(_) => None,
        },
        None => None,
    }
}

/// Reads what a target names.
pub fn parse_target(s: &str) -> (r: Result<BreakTarget<String>, TargetError<String>>)
    ensures
        match r {
            Ok(t) => target_of(s@) == Ok::<_, TargetError<Seq<char>>>(t@),
            Err(e) => target_of(s@) == Err::<BreakTarget<Seq<char>>, _>(e@),
        },
{
    let v: Vec<char> = chars_of(s);
    let t: &[char] = trim_of(v.as_slice());
    match strip_hex_prefix_of(t) {
        Some(h) => {
            if h.len() == 0 {
                return Err(TargetError::NoDigits);
            }
            match read_unsigned(h, 16, u64::MAX) {
                Ok(a) => Ok(BreakTarget::Address(a)),
                Err(e) => Err(TargetError::BadHex(string_of(t), e)),
            }
        },
        None => {
            if is_bare_address(t) {
                return match read_unsigned(t, 16, u64::MAX) {
                    Ok(a) => Ok(BreakTarget::Address(a)),
                    Err(e) => Err(TargetError::BadAddress(string_of(t), e)),
                };
            }
            match read_line_target(t) {
                Some((file, line)) => Ok(BreakTarget::Line(file, line)),
                None => Ok(BreakTarget::Function(string_of(t))),
            }
        },
    }
}

/// The view of an optional map.
pub open spec fn image_view(image: Option<&CodeMap>) -> Option<CodeMapData> {
    match image {
        Some(m) => Some(m@),
        None => None,
    }
}

/// Finds the address that a target stands for.
pub fn resolve_target(image: Option<&CodeMap>, s: &str) -> (r: Result<u64, TargetError<String>>)
    ensures
        match r {
            Ok(a) => target_address(image_view(image), s@) == Ok::<_, TargetError<Seq<char>>>(a),
            Err(e) => target_address(image_view(image), s@) == Err::<u64, _>(e@),
        },
{
    let target: BreakTarget<String> = match parse_target(s) {
        Ok(t) => t,
        Err(e) => {
            return Err(e);
        },
    };
    match target {
        BreakTarget::Address(a) => Ok(a),
        BreakTarget::Line(file, line) => match image {
            None => {
                let v: Vec<char> = chars_of(s);
                Err(TargetError::LineWithoutImage(string_of(trim_of(v.as_slice()))))
            },
            Some(m) => match m.line_to_address(file.as_str(), line) {
                Ok(a) => Ok(a),
                Err(e) => Err(TargetError::Unknown(e)),
            },
        },
        BreakTarget::Function(name) => match image {
            None => {
                let v: Vec<char> = chars_of(s);
                Err(TargetError::FunctionWithoutImage(string_of(trim_of(v.as_slice()))))
            },
            Some(m) => match m.code_symbol_address(name.as_str()) {
                Ok(a) => Ok(a),
                Err(e) => Err(TargetError::Unknown(e)),
            },
        },
    }
}

// ---------------------------------------------------------------------------
// Targets as they are written
// ---------------------------------------------------------------------------

/// An address is a target as it is written with its prefix.
pub proof fn law_addresses_are_targets(n: nat, width: nat, image: Option<CodeMapData>)
    requires
        n <= u64::MAX,
    ensures
        target_address(image, seq!['0', 'x'] + hex(n, width)) == Ok::<_, TargetError<Seq<char>>>(
            n as u64,
        ),
        target_address(image, seq!['0', 'X'] + hex(n, width)) == Ok::<_, TargetError<Seq<char>>>(
            n as u64,
        ),
{
    law_hex_read_back(n, width, u64::MAX as nat);
    lemma_hex_digits(n, width);
    lemma_prefixed(hex(n, width), 'x');
    lemma_prefixed(hex(n, width), 'X');
    lemma_ends_are_solid(hex(n, width), 'x');
    lemma_ends_are_solid(hex(n, width), 'X');
    lemma_untrimmed(seq!['0', 'x'] + hex(n, width));
    lemma_untrimmed(seq!['0', 'X'] + hex(n, width));
}

proof fn lemma_untrimmed(t: Seq<char>)
    requires
        t.len() > 0,
        !is_white_space(t[0]),
        !is_white_space(t.last()),
    ensures
        trim(t) == t,
{
    law_trimming(Seq::empty(), t, Seq::empty());
    assert(Seq::<char>::empty() + t + Seq::<char>::empty() =~= t);
}

/// A file with a line is a target: the address is that of the line, whatever else
/// the path holds.
pub proof fn law_lines_are_targets(file: Seq<char>, line: u64, image: CodeMapData)
    requires
        file.len() > 1,
        !is_white_space(file[0]),
        file[0] != '0',
        file.contains('.') || file.contains('/') || file.contains('\\'),
    ensures
        target_of(file + seq![':'] + dec(line as nat)) == Ok::<_, TargetError<Seq<char>>>(
            BreakTarget::Line(file, line),
        ),
        image.line_address(file, line) matches Ok(a) ==> target_address(
            Some(image),
            file + seq![':'] + dec(line as nat),
        ) == Ok::<_, TargetError<Seq<char>>>(a),
{
    let t = file + seq![':'] + dec(line as nat);
    let digits = dec(line as nat);
    lemma_dec_digits(line as nat);
    lemma_digits_are_plain(digits);
    assert(t[0] == file[0]);
    assert(t.last() == digits.last());
    assert(digits.last() == digits[digits.len() - 1]);
    lemma_untrimmed(t);
    assert(!digits.contains(':'));
    law_cut_at_the_last(file, ':', digits);
    law_numeral_read_back(line as nat, 10, u64::MAX as nat);
    lemma_no_hex_prefix(t);
    assert(t[file.len() as int] == ':');
    assert(digit_value(t[file.len() as int], 16) is None);
    assert(!all_hex(t));
}

proof fn lemma_no_hex_prefix(t: Seq<char>)
    requires
        t.len() > 0,
        t[0] != '0',
    ensures
        strip_hex_prefix(t) is None,
{
    reveal_strlit("0x");
    reveal_strlit("0X");
    if "0x"@.is_prefix_of(t) {
        assert(t[0] == "0x"@[0]);
    }
    if "0X"@.is_prefix_of(t) {
        assert(t[0] == "0X"@[0]);
    }
}

/// A name is a target: the address is that of the function of that name.
pub proof fn law_functions_are_targets(name: Seq<char>, image: CodeMapData, i: int)
    requires
        name.len() > 0,
        !is_white_space(name[0]),
        !is_white_space(name.last()),
        name[0] != '0',
        !name.contains(':'),
        0 <= i < name.len(),
        digit_value(name[i], 16) is None,
    ensures
        target_of(name) == Ok::<_, TargetError<Seq<char>>>(BreakTarget::Function(name)),
        image.function_address(name) matches Ok(a) ==> target_address(Some(image), name) == Ok::<
            _,
            TargetError<Seq<char>>,
        >(a),
{
    lemma_untrimmed(name);
    lemma_no_hex_prefix(name);
    lemma_absent(name, ':');
    assert(!all_hex(name));
}

/// Eight hexadecimal digits or more are an address without a prefix too.
pub proof fn law_bare_addresses_are_targets(n: nat, width: nat, image: Option<CodeMapData>)
    requires
        n <= u64::MAX,
        width >= 8,
    ensures
        target_address(image, hex(n, width)) == Ok::<_, TargetError<Seq<char>>>(n as u64),
{
    let t = hex(n, width);
    law_hex_read_back(n, width, u64::MAX as nat);
    lemma_hex_digits(n, width);
    lemma_ends_are_solid(t, 'x');
    lemma_untrimmed(t);
    lemma_no_prefix(t);
    assert forall|i: int| 0 <= i < t.len() implies digit_value(#[trigger] t[i], 16) is Some by {
        let d = choose|d: nat| d < 16 && #[trigger] t[i] == digit_char(d);
        assert(digit_value(digit_char(d), 16) == Some(d));
    }
}

}
