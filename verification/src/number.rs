//! Numbers as text: reading and writing decimal and hexadecimal, padding.
use vstd::prelude::*;
use vstd::slice::slice_subrange;
use crate::text::{chars_of, opt_view, strip_prefix, strip_prefix_of, trim, trim_of};

verus! {

/// Why a text is not an unsigned integer.
#[derive(Debug, Clone, Copy, PartialEq, Eq, Structural)]
pub enum NumError {
    /// There is nothing to read.
    Empty,
    /// A character is not a digit of the radix.
    InvalidDigit,
    /// The number exceeds the largest value of the type.
    TooLarge,
}

impl NumError {
    /// The wording of each failure.
    pub open spec fn text(self) -> Seq<char> {
        match self {
            NumError::Empty => "cannot parse integer from empty string"@,
            NumError::InvalidDigit => "invalid digit found in string"@,
            NumError::TooLarge => "number too large to fit in target type"@,
        }
    }

    /// The wording of this failure.
    pub fn message(&self) -> (r: &'static str)
        ensures
            r@ == self.text(),
    {
        match self {
            NumError::Empty => "cannot parse integer from empty string",
            NumError::InvalidDigit => "invalid digit found in string",
            NumError::TooLarge => "number too large to fit in target type",
        }
    }
}

/// The value of the digit `c` in `radix`.
pub open spec fn digit_value(c: char, radix: nat) -> Option<nat> {
    let v: nat = if '0' <= c <= '9' {
        (c as int - '0' as int) as nat
    } else if 'a' <= c <= 'f' {
        (c as int - 'a' as int + 10) as nat
    } else if 'A' <= c <= 'F' {
        (c as int - 'A' as int + 10) as nat
    } else {
        16
    };
    if v < radix {
        Some(v)
    } else {
        None
    }
}

/// The value of a run of digits, read from the left. The first character that
/// is no digit, or that carries the value over `max`, decides the error.
pub open spec fn digits_value(s: Seq<char>, radix: nat, max: nat) -> Result<nat, NumError>
    decreases s.len(),
{
    if s.len() == 0 {
        Ok(0)
    } else {
        match digits_value(s.drop_last(), radix, max) {
            Err(e) => Err(e),
            Ok(v) => match digit_value(s.last(), radix) {
                None => Err(NumError::InvalidDigit),
                Some(d) => if v * radix + d > max {
                    Err(NumError::TooLarge)
                } else {
                    Ok(v * radix + d)
                },
            },
        }
    }
}

/// The number that a text stands for: an optional `+`, then digits only.
pub open spec fn unsigned_value(s: Seq<char>, radix: nat, max: nat) -> Result<nat, NumError> {
    if s.len() == 0 {
        Err(NumError::Empty)
    } else if s[0] == '+' {
        if s.len() == 1 {
            Err(NumError::InvalidDigit)
        } else {
            digits_value(s.skip(1), radix, max)
        }
    } else {
        digits_value(s, radix, max)
    }
}

/// An error of a prefix is the error of the whole.
proof fn lemma_digits_error(s: Seq<char>, radix: nat, max: nat, n: int)
    requires
        0 <= n <= s.len(),
        digits_value(s.take(n), radix, max) is Err,
    ensures
        digits_value(s, radix, max) == digits_value(s.take(n), radix, max),
    decreases s.len() - n,
{
    if n < s.len() {
        assert(s.take(n + 1).drop_last() =~= s.take(n));
        lemma_digits_error(s, radix, max, n + 1);
    } else {
        assert(s.take(n) =~= s);
    }
}

fn digit_of(c: char, radix: u64) -> (r: Option<u64>)
    requires
        2 <= radix <= 16,
    ensures
        match r {
            Some(d) => digit_value(c, radix as nat) == Some(d as nat),
            None => digit_value(c, radix as nat) is None,
        },
{
    let v: u64 = if '0' <= c && c <= '9' {
        c as u64 - '0' as u64
    } else if 'a' <= c && c <= 'f' {
        c as u64 - 'a' as u64 + 10
    } else if 'A' <= c && c <= 'F' {
        c as u64 - 'A' as u64 + 10
    } else {
        16
    };
    if v < radix {
        Some(v)
    } else {
        None
    }
}

/// The spec value of an executable reading.
pub open spec fn reading(r: Result<u64, NumError>) -> Result<nat, NumError> {
    match r {
        Ok(v) => Ok(v as nat),
        Err(e) => Err(e),
    }
}

/// Reads an unsigned number of at most `max`.
pub fn read_unsigned(s: &[char], radix: u64, max: u64) -> (r: Result<u64, NumError>)
    requires
        2 <= radix <= 16,
    ensures
        reading(r) == unsigned_value(s@, radix as nat, max as nat),
{
    if s.len() == 0 {
        return Err(NumError::Empty);
    }
    if s[0] == '+' {
        if s.len() == 1 {
            return Err(NumError::InvalidDigit);
        }
        assert(s@.subrange(1, s@.len() as int) =~= s@.skip(1));
        return read_digits(slice_subrange(s, 1, s.len()), radix, max);
    }
    read_digits(s, radix, max)
}

fn read_digits(s: &[char], radix: u64, max: u64) -> (r: Result<u64, NumError>)
    requires
        2 <= radix <= 16,
    ensures
        reading(r) == digits_value(s@, radix as nat, max as nat),
{
    let mut v: u64 = 0;
    let mut i: usize = 0;
    while i < s.len()
        invariant
            i <= s.len(),
            2 <= radix <= 16,
            v <= max,
            digits_value(s@.take(i as int), radix as nat, max as nat) == Ok::<nat, NumError>(
                v as nat,
            ),
        decreases s.len() - i,
    {
        let ghost next = s@.take(i + 1);
        assert(next.drop_last() =~= s@.take(i as int));
        assert(next.last() == s@[i as int]);
        match digit_of(s[i], radix) {
            None => {
                proof {
                    lemma_digits_error(s@, radix as nat, max as nat, i + 1);
                }
                return Err(NumError::InvalidDigit);
            },
            Some(d) => {
                proof {
                    assert((v as u128) * (radix as u128) <= 0x10_0000_0000_0000_0000) by (nonlinear_arith)
                        requires
                            v <= u64::MAX,
                            radix <= 16,
                    ;
                }
                let wide: u128 = v as u128 * radix as u128 + d as u128;
                if wide > max as u128 {
                    proof {
                        lemma_digits_error(s@, radix as nat, max as nat, i + 1);
                    }
                    return Err(NumError::TooLarge);
                }
                v = wide as u64;
            },
        }
        i += 1;
    }
    assert(s@.take(i as int) =~= s@);
    Ok(v)
}

/// Reads a decimal number that fits `usize`.
pub fn read_usize(s: &[char]) -> (r: Result<usize, NumError>)
    ensures
        match r {
            Ok(v) => unsigned_value(s@, 10, usize::MAX as nat) == Ok::<nat, NumError>(v as nat),
            Err(e) => unsigned_value(s@, 10, usize::MAX as nat) == Err::<nat, NumError>(e),
        },
{
    proof {
        lemma_value_bound(s@, 10, usize::MAX as nat);
    }
    match read_unsigned(s, 10, usize::MAX as u64) {
        Ok(v) => Ok(v as usize),
        Err(e) => Err(e),
    }
}

proof fn lemma_digits_bound(s: Seq<char>, radix: nat, max: nat)
    ensures
        digits_value(s, radix, max) matches Ok(v) ==> v <= max,
{
}

/// A number that was read is at most `max`.
pub proof fn lemma_value_bound(s: Seq<char>, radix: nat, max: nat)
    ensures
        unsigned_value(s, radix, max) matches Ok(v) ==> v <= max,
{
    lemma_digits_bound(s, radix, max);
    if s.len() > 0 {
        lemma_digits_bound(s.skip(1), radix, max);
    }
}

/// The character of a digit below sixteen, lower case.
pub open spec fn digit_char(d: nat) -> char {
    if d < 10 {
        ('0' as int + d) as char
    } else {
        ('a' as int + (d - 10)) as char
    }
}

fn digit_to_char(d: u64) -> (c: char)
    requires
        d < 16,
    ensures
        c == digit_char(d as nat),
{
    if d < 10 {
        (48u8 + d as u8) as char
    } else {
        (97u8 + (d - 10) as u8) as char
    }
}

/// `n` in positional notation, most significant digit first, no leading zero.
pub open spec fn numeral(n: nat, radix: nat) -> Seq<char>
    decreases n,
{
    if radix < 2 || n < radix {
        seq![digit_char(n)]
    } else {
        proof {
            assert(n / radix < n) by (nonlinear_arith)
                requires
                    n >= radix,
                    radix >= 2,
            ;
        }
        numeral(n / radix, radix).push(digit_char(n % radix))
    }
}

/// `n` in decimal.
pub open spec fn dec(n: nat) -> Seq<char> {
    numeral(n, 10)
}

/// `n` in decimal, with a minus sign where it is negative.
pub open spec fn dec_signed(n: int) -> Seq<char> {
    if n < 0 {
        seq!['-'] + dec((-n) as nat)
    } else {
        dec(n as nat)
    }
}

/// `n` copies of `c`.
pub open spec fn copies(c: char, n: int) -> Seq<char> {
    if n > 0 {
        Seq::new(n as nat, |i: int| c)
    } else {
        Seq::empty()
    }
}

/// `s` with `c` put in front of it up to `width` characters.
pub open spec fn pad_left(s: Seq<char>, width: nat, c: char) -> Seq<char> {
    copies(c, width - s.len()) + s
}

/// `s` with spaces behind it up to `width` characters.
pub open spec fn pad_right(s: Seq<char>, width: nat) -> Seq<char> {
    s + copies(' ', width - s.len())
}

/// `n` in lower-case hexadecimal with at least `width` digits.
pub open spec fn hex(n: nat, width: nat) -> Seq<char> {
    pad_left(numeral(n, 16), width, '0')
}

fn numeral_text(n: u128, radix: u128) -> (s: String)
    requires
        2 <= radix <= 16,
    ensures
        s@ == numeral(n as nat, radix as nat),
    decreases n,
{
    if n < radix {
        let mut s: String = String::new();
        s.push(digit_to_char(n as u64));
        assert(s@ =~= seq![digit_char(n as nat)]);
        s
    } else {
        proof {
            assert(n / radix < n) by (nonlinear_arith)
                requires
                    n >= radix,
                    radix >= 2,
            ;
            assert(n % radix < radix) by (nonlinear_arith)
                requires
                    radix >= 2,
            ;
        }
        let mut s: String = numeral_text(n / radix, radix);
        s.push(digit_to_char((n % radix) as u64));
        s
    }
}

/// The decimal text of `n`.
pub fn dec_text(n: u64) -> (s: String)
    ensures
        s@ == dec(n as nat),
{
    numeral_text(n as u128, 10)
}

/// The decimal text of a number that needs more room.
pub fn dec_wide_text(n: u128) -> (s: String)
    ensures
        s@ == dec(n as nat),
{
    numeral_text(n, 10)
}

/// The decimal text of a signed number.
pub fn dec_signed_text(n: i64) -> (s: String)
    ensures
        s@ == dec_signed(n as int),
{
    if n < 0 {
        let mut s: String = String::new();
        s.push('-');
        let m: u128 = (-(n as i128)) as u128;
        s.append(numeral_text(m, 10).as_str());
        assert(s@ =~= seq!['-'] + dec(m as nat));
        s
    } else {
        numeral_text(n as u128, 10)
    }
}

/// Appends `n` copies of `c`.
pub fn push_copies(s: &mut String, c: char, n: usize)
    ensures
        final(s)@ == old(s)@ + copies(c, n as int),
{
    let ghost start = s@;
    let mut i: usize = 0;
    assert(start + copies(c, 0) =~= start);
    while i < n
        invariant
            i <= n,
            s@ == start + copies(c, i as int),
        decreases n - i,
    {
        s.push(c);
        i += 1;
        assert((start + copies(c, i - 1)).push(c) =~= start + copies(c, i as int));
    }
}

/// Pads `t` on the left up to `width` characters.
pub fn pad_left_text(t: &str, width: usize, c: char) -> (s: String)
    ensures
        s@ == pad_left(t@, width as nat, c),
{
    let n: usize = t.unicode_len();
    let mut s: String = String::new();
    if n < width {
        push_copies(&mut s, c, width - n);
    }
    s.append(t);
    assert(s@ =~= pad_left(t@, width as nat, c));
    s
}

/// Pads `t` with spaces on the right up to `width` characters.
pub fn pad_right_text(t: &str, width: usize) -> (s: String)
    ensures
        s@ == pad_right(t@, width as nat),
{
    let n: usize = t.unicode_len();
    let mut s: String = String::from_str(t);
    if n < width {
        push_copies(&mut s, ' ', width - n);
    }
    assert(s@ =~= pad_right(t@, width as nat));
    s
}

/// The hexadecimal text of `n` with at least `width` digits.
pub fn hex_text(n: u64, width: usize) -> (s: String)
    ensures
        s@ == hex(n as nat, width as nat),
{
    let t: String = numeral_text(n as u128, 16);
    pad_left_text(t.as_str(), width, '0')
}

proof fn lemma_digit_round_trip(d: nat, radix: nat)
    requires
        d < radix <= 16,
    ensures
        digit_value(digit_char(d), radix) == Some(d),
        digit_char(d) != '+',
{
}

/// A numeral is not empty and holds digits of its radix only.
pub proof fn lemma_numeral_shape(n: nat, radix: nat)
    requires
        2 <= radix <= 16,
    ensures
        numeral(n, radix).len() >= 1,
        forall|i: int|
            0 <= i < numeral(n, radix).len() ==> exists|d: nat|
                d < radix && #[trigger] numeral(n, radix)[i] == digit_char(d),
    decreases n,
{
    if n < radix {
        assert(numeral(n, radix)[0] == digit_char(n));
    } else {
        assert(n / radix < n) by (nonlinear_arith)
            requires
                n >= radix,
                radix >= 2,
        ;
        lemma_numeral_shape(n / radix, radix);
        let front = numeral(n / radix, radix);
        assert(n % radix < radix) by (nonlinear_arith)
            requires
                radix >= 2,
        ;
        assert forall|i: int| 0 <= i < numeral(n, radix).len() implies exists|d: nat|
            d < radix && #[trigger] numeral(n, radix)[i] == digit_char(d) by {
            if i < front.len() {
                assert(numeral(n, radix)[i] == front[i]);
            } else {
                assert(numeral(n, radix)[i] == digit_char(n % radix));
            }
        }
    }
}

/// Digits are neither white space nor one of the marks that lines are cut at.
pub proof fn lemma_numeral_plain(n: nat, radix: nat)
    requires
        2 <= radix <= 16,
    ensures
        forall|i: int|
            0 <= i < numeral(n, radix).len() ==> {
                &&& !crate::text::is_white_space(#[trigger] numeral(n, radix)[i])
                &&& numeral(n, radix)[i] != '+'
                &&& numeral(n, radix)[i] != '\\'
            },
{
    lemma_numeral_shape(n, radix);
}

proof fn lemma_digits_read_back(n: nat, radix: nat, max: nat)
    requires
        2 <= radix <= 16,
        n <= max,
    ensures
        digits_value(numeral(n, radix), radix, max) == Ok::<nat, NumError>(n),
    decreases n,
{
    let s = numeral(n, radix);
    if n < radix {
        lemma_digit_round_trip(n, radix);
        assert(s.drop_last() =~= Seq::empty());
        assert(digits_value(s.drop_last(), radix, max) == Ok::<nat, NumError>(0));
        assert(0 * radix == 0) by (nonlinear_arith);
    } else {
        assert(n / radix < n && n / radix <= max) by (nonlinear_arith)
            requires
                n >= radix,
                radix >= 2,
                n <= max,
        ;
        assert(n % radix < radix && (n / radix) * radix + n % radix == n) by (nonlinear_arith)
            requires
                radix >= 2,
        ;
        lemma_digits_read_back(n / radix, radix, max);
        lemma_digit_round_trip(n % radix, radix);
        assert(s.drop_last() =~= numeral(n / radix, radix));
    }
}

/// Reading a numeral gives the number back.
pub proof fn law_numeral_read_back(n: nat, radix: nat, max: nat)
    requires
        2 <= radix <= 16,
        n <= max,
    ensures
        unsigned_value(numeral(n, radix), radix, max) == Ok::<nat, NumError>(n),
{
    lemma_numeral_shape(n, radix);
    lemma_numeral_plain(n, radix);
    lemma_digits_read_back(n, radix, max);
}

/// The digits are those that everyone writes.
pub proof fn law_digits_are_usual(d: nat)
    requires
        d < 16,
    ensures
        digit_char(d) == "0123456789abcdef"@[d as int],
{
    reveal_strlit("0123456789abcdef");
}

proof fn lemma_zeros_read_back(n: nat, zeros: nat, radix: nat, max: nat)
    requires
        2 <= radix <= 16,
        n <= max,
    ensures
        digits_value(copies('0', zeros as int) + numeral(n, radix), radix, max) == Ok::<
            nat,
            NumError,
        >(n),
    decreases n,
{
    let s = copies('0', zeros as int) + numeral(n, radix);
    lemma_numeral_shape(n, radix);
    if n < radix {
        lemma_digit_round_trip(n, radix);
        assert(s.drop_last() =~= copies('0', zeros as int));
        lemma_zeros(zeros, radix, max);
        assert(0 * radix == 0) by (nonlinear_arith);
    } else {
        assert(n / radix < n && n / radix <= max) by (nonlinear_arith)
            requires
                n >= radix,
                radix >= 2,
                n <= max,
        ;
        assert(n % radix < radix && (n / radix) * radix + n % radix == n) by (nonlinear_arith)
            requires
                radix >= 2,
        ;
        lemma_zeros_read_back(n / radix, zeros, radix, max);
        lemma_digit_round_trip(n % radix, radix);
        assert(s.drop_last() =~= copies('0', zeros as int) + numeral(n / radix, radix));
    }
}

proof fn lemma_zeros(zeros: nat, radix: nat, max: nat)
    requires
        2 <= radix <= 16,
    ensures
        digits_value(copies('0', zeros as int), radix, max) == Ok::<nat, NumError>(0),
    decreases zeros,
{
    if zeros > 0 {
        lemma_zeros((zeros - 1) as nat, radix, max);
        let s = copies('0', zeros as int);
        assert(s.drop_last() =~= copies('0', zeros - 1));
        assert(0 * radix == 0) by (nonlinear_arith);
    }
}

/// Sixteen to the power of `n`.
pub open spec fn pow16(n: nat) -> nat
    decreases n,
{
    if n == 0 {
        1
    } else {
        16 * pow16((n - 1) as nat)
    }
}

proof fn lemma_numeral_length(n: nat, width: nat)
    requires
        n < pow16(width),
        width > 0,
    ensures
        numeral(n, 16).len() <= width,
    decreases width,
{
    reveal_with_fuel(pow16, 2);
    if n >= 16 {
        assert(width > 1);
        lemma_numeral_length(n / 16, (width - 1) as nat);
    }
}

/// A hexadecimal text has the digits that it is to have at least, and no more
/// where the number has no more. Reading it gives the number back.
pub proof fn law_hex_read_back(n: nat, width: nat, max: nat)
    requires
        n <= max,
    ensures
        hex(n, width).len() >= width,
        width > 0 && n < pow16(width) ==> hex(n, width).len() == width,
        unsigned_value(hex(n, width), 16, max) == Ok::<nat, NumError>(n),
{
    let t = numeral(n, 16);
    lemma_numeral_shape(n, 16);
    lemma_numeral_plain(n, 16);
    if width > 0 && n < pow16(width) {
        lemma_numeral_length(n, width);
    }
    let zeros = if width > t.len() {
        (width - t.len()) as nat
    } else {
        0
    };
    lemma_zeros_read_back(n, zeros, 16, max);
    assert(hex(n, width) =~= copies('0', zeros as int) + t);
    assert(hex(n, width)[0] == '0' || hex(n, width)[0] == t[0]);
}

/// The two digits of a byte: its upper and its lower half.
pub proof fn law_bytes_have_two_digits(b: u8)
    ensures
        hex(b as nat, 2) == seq![digit_char((b / 16) as nat), digit_char((b % 16) as nat)],
{
    reveal_with_fuel(numeral, 3);
    if b < 16 {
        assert(hex(b as nat, 2) =~= seq![digit_char(0), digit_char(b as nat)]);
    } else {
        assert(numeral(b as nat, 16) =~= seq![
            digit_char((b / 16) as nat),
            digit_char((b % 16) as nat),
        ]);
        assert(hex(b as nat, 2) =~= numeral(b as nat, 16));
    }
}

// ---------------------------------------------------------------------------
// Addresses and lengths on the command line
// ---------------------------------------------------------------------------

/// Why an address or a length is refused. The offending text is what the
/// caller passed in.
#[derive(Debug, Clone, Copy, PartialEq, Eq, Structural)]
pub enum ArgError {
    /// Nothing but a prefix.
    Missing,
    /// Not a number.
    Malformed(NumError),
}

/// What an argument stands for.
#[derive(Debug, Clone, Copy, PartialEq, Eq, Structural)]
pub enum ArgKind {
    /// An address.
    Address,
    /// A length.
    Length,
}

impl ArgError {
    /// The wording of each failure. `s` is the argument.
    pub open spec fn text(self, kind: ArgKind, s: Seq<char>) -> Seq<char> {
        match (kind, self) {
            (ArgKind::Address, ArgError::Missing) => "无效的十六进制数："@ + s,
            (ArgKind::Address, ArgError::Malformed(e)) => "解析十六进制失败 "@ + s + "："@
                + e.text(),
            (ArgKind::Length, ArgError::Missing) => "无效的长度："@ + s,
            (ArgKind::Length, ArgError::Malformed(e)) => "解析长度失败 "@ + s + "："@ + e.text(),
        }
    }

    /// The wording of this failure. `s` is the argument.
    pub fn message(&self, kind: ArgKind, s: &str) -> (r: String)
        ensures
            r@ == self.text(kind, s@),
    {
        let mut r: String;
        match self {
            ArgError::Missing => {
                r = match kind {
                    ArgKind::Address => String::from_str("无效的十六进制数："),
                    ArgKind::Length => String::from_str("无效的长度："),
                };
                r.append(s);
            },
            ArgError::Malformed(e) => {
                r = match kind {
                    ArgKind::Address => String::from_str("解析十六进制失败 "),
                    ArgKind::Length => String::from_str("解析长度失败 "),
                };
                r.append(s);
                r.append("：");
                r.append(e.message());
            },
        }
        r
    }
}

/// `s` without any leading copies of `p`.
pub open spec fn trim_start_text(s: Seq<char>, p: Seq<char>) -> Seq<char>
    decreases s.len(),
{
    if p.len() > 0 && p.is_prefix_of(s) {
        trim_start_text(s.skip(p.len() as int), p)
    } else {
        s
    }
}

fn trim_start_text_of<'a>(s: &'a [char], p: &str) -> (r: &'a [char])
    requires
        p@.len() > 0,
    ensures
        r@ == trim_start_text(s@, p@),
{
    let mut rest: &[char] = s;
    loop
        invariant
            p@.len() > 0,
            trim_start_text(rest@, p@) == trim_start_text(s@, p@),
        decreases rest@.len(),
    {
        match strip_prefix_of(rest, p) {
            None => {
                return rest;
            },
            Some(t) => {
                assert(t@ == rest@.skip(p@.len() as int));
                rest = t;
            },
        }
    }
}

/// The digits of a hexadecimal argument: white space and any `0x`, then any
/// `0X`, are cut off the front.
pub open spec fn hex_digits(s: Seq<char>) -> Seq<char> {
    trim_start_text(trim_start_text(trim(s), "0x"@), "0X"@)
}

/// The value of an address argument.
pub open spec fn hex_argument(s: Seq<char>) -> Result<nat, ArgError> {
    let t = hex_digits(s);
    if t.len() == 0 {
        Err(ArgError::Missing)
    } else {
        match unsigned_value(t, 16, u64::MAX as nat) {
            Ok(v) => Ok(v),
            Err(e) => Err(ArgError::Malformed(e)),
        }
    }
}

/// Strips `0x` or `0X` off, once.
pub open spec fn strip_hex_prefix(t: Seq<char>) -> Option<Seq<char>> {
    if strip_prefix(t, "0x"@) is Some {
        strip_prefix(t, "0x"@)
    } else {
        strip_prefix(t, "0X"@)
    }
}

/// The value of a length argument: hexadecimal behind `0x` or `0X`, else
/// decimal.
pub open spec fn len_argument(s: Seq<char>) -> Result<nat, ArgError> {
    let t = trim(s);
    match strip_hex_prefix(t) {
        Some(h) => if h.len() == 0 {
            Err(ArgError::Missing)
        } else {
            match unsigned_value(h, 16, u64::MAX as nat) {
                Ok(v) => Ok(v),
                Err(e) => Err(ArgError::Malformed(e)),
            }
        },
        None => match unsigned_value(t, 10, u64::MAX as nat) {
            Ok(v) => Ok(v),
            Err(e) => Err(ArgError::Malformed(e)),
        },
    }
}

/// The spec value of an executable argument.
pub open spec fn argument(r: Result<u64, ArgError>) -> Result<nat, ArgError> {
    match r {
        Ok(v) => Ok(v as nat),
        Err(e) => Err(e),
    }
}

/// Reads an address: hexadecimal, with or without a prefix.
pub fn parse_hex(s: &str) -> (r: Result<u64, ArgError>)
    ensures
        argument(r) == hex_argument(s@),
{
    proof {
        reveal_strlit("0x");
        reveal_strlit("0X");
    }
    let v: Vec<char> = chars_of(s);
    let t: &[char] = trim_start_text_of(trim_start_text_of(trim_of(v.as_slice()), "0x"), "0X");
    if t.len() == 0 {
        return Err(ArgError::Missing);
    }
    match read_unsigned(t, 16, u64::MAX) {
        Ok(n) => Ok(n),
        Err(e) => Err(ArgError::Malformed(e)),
    }
}

/// Strips `0x` or `0X` off, once.
pub fn strip_hex_prefix_of<'a>(t: &'a [char]) -> (r: Option<&'a [char]>)
    ensures
        opt_view(r) == strip_hex_prefix(t@),
{
    match strip_prefix_of(t, "0x") {
        Some(h) => Some(h),
        None => strip_prefix_of(t, "0X"),
    }
}

/// Reads a length: decimal, or hexadecimal behind a prefix.
pub fn parse_len(s: &str) -> (r: Result<u64, ArgError>)
    ensures
        argument(r) == len_argument(s@),
{
    let v: Vec<char> = chars_of(s);
    let t: &[char] = trim_of(v.as_slice());
    match strip_hex_prefix_of(t) {
        Some(h) => {
            if h.len() == 0 {
                return Err(ArgError::Missing);
            }
            match read_unsigned(h, 16, u64::MAX) {
                Ok(n) => Ok(n),
                Err(e) => Err(ArgError::Malformed(e)),
            }
        },
        None => match read_unsigned(t, 10, u64::MAX) {
            Ok(n) => Ok(n),
            Err(e) => Err(ArgError::Malformed(e)),
        },
    }
}

/// An address is read as it is written, with its prefix or without, and with white
/// space around it. A length without the prefix is decimal.
pub proof fn law_arguments_are_read_back(n: nat, width: nat, a: Seq<char>, b: Seq<char>)
    requires
        n <= u64::MAX,
        crate::text::hollow(a),
        crate::text::hollow(b),
    ensures
        hex_argument(a + (seq!['0', 'x'] + hex(n, width)) + b) == Ok::<nat, ArgError>(n),
        hex_argument(a + (seq!['0', 'X'] + hex(n, width)) + b) == Ok::<nat, ArgError>(n),
        hex_argument(a + hex(n, width) + b) == Ok::<nat, ArgError>(n),
        len_argument(a + (seq!['0', 'x'] + hex(n, width)) + b) == Ok::<nat, ArgError>(n),
        len_argument(a + (seq!['0', 'X'] + hex(n, width)) + b) == Ok::<nat, ArgError>(n),
        len_argument(a + dec(n) + b) == Ok::<nat, ArgError>(n),
{
    law_hex_read_back(n, width, u64::MAX as nat);
    law_numeral_read_back(n, 10, u64::MAX as nat);
    lemma_hex_digits(n, width);
    lemma_dec_digits(n);
    let h = hex(n, width);
    lemma_ends_are_solid(h, 'x');
    lemma_ends_are_solid(h, 'X');
    lemma_ends_are_solid(dec(n), 'x');
    crate::text::law_trimming(a, seq!['0', 'x'] + h, b);
    crate::text::law_trimming(a, seq!['0', 'X'] + h, b);
    crate::text::law_trimming(a, h, b);
    crate::text::law_trimming(a, dec(n), b);
    lemma_prefixed(h, 'x');
    lemma_prefixed(h, 'X');
    lemma_no_prefix(h);
    lemma_no_prefix(dec(n));
}

pub proof fn lemma_ends_are_solid(t: Seq<char>, c: char)
    requires
        all_digits(t),
        t.len() >= 1,
    ensures
        !crate::text::is_white_space(t[0]),
        !crate::text::is_white_space(t.last()),
        !crate::text::is_white_space((seq!['0', c] + t)[0]),
        !crate::text::is_white_space((seq!['0', c] + t).last()),
{
    lemma_digits_are_plain(t);
    assert((seq!['0', c] + t).last() == t.last());
    assert((seq!['0', c] + t)[0] == '0');
}

pub proof fn lemma_prefixed(h: Seq<char>, c: char)
    requires
        all_digits(h),
        h.len() >= 1,
        c == 'x' || c == 'X',
    ensures
        trim_start_text(trim_start_text(seq!['0', c] + h, "0x"@), "0X"@) == h,
        strip_hex_prefix(seq!['0', c] + h) == Some(h),
{
    reveal_strlit("0x");
    reveal_strlit("0X");
    let t = seq!['0', c] + h;
    lemma_no_prefix(h);
    assert(t.skip(2) =~= h);
    assert("0x"@ =~= seq!['0', 'x']);
    assert("0X"@ =~= seq!['0', 'X']);
    if c == 'x' {
        assert("0x"@.is_prefix_of(t)) by {
            assert(t.subrange(0, 2) =~= "0x"@);
        }
        assert(trim_start_text(t, "0x"@) == trim_start_text(h, "0x"@));
    } else {
        assert("0X"@.is_prefix_of(t)) by {
            assert(t.subrange(0, 2) =~= "0X"@);
        }
        assert(!"0x"@.is_prefix_of(t)) by {
            if "0x"@.is_prefix_of(t) {
                assert(t[1] == "0x"@[1]);
            }
        }
        assert(trim_start_text(t, "0x"@) == t);
        assert(trim_start_text(t, "0X"@) == trim_start_text(h, "0X"@));
    }
}

/// Whether a text holds digits only.
pub open spec fn all_digits(t: Seq<char>) -> bool {
    forall|i: int|
        0 <= i < t.len() ==> exists|d: nat| d < 16 && #[trigger] t[i] == digit_char(d)
}

pub proof fn lemma_hex_digits(n: nat, width: nat)
    ensures
        hex(n, width).len() >= 1,
        all_digits(hex(n, width)),
{
    lemma_numeral_shape(n, 16);
    let t = numeral(n, 16);
    let h = hex(n, width);
    assert forall|i: int| 0 <= i < h.len() implies exists|d: nat|
        d < 16 && #[trigger] h[i] == digit_char(d) by {
        let zeros = h.len() - t.len();
        if i >= zeros {
            assert(h[i] == t[i - zeros]);
        } else {
            assert(h[i] == digit_char(0));
        }
    }
}

pub proof fn lemma_dec_digits(n: nat)
    ensures
        dec(n).len() >= 1,
        all_digits(dec(n)),
{
    lemma_numeral_shape(n, 10);
    let t = numeral(n, 10);
    assert forall|i: int| 0 <= i < t.len() implies exists|d: nat|
        d < 16 && #[trigger] t[i] == digit_char(d) by {
        let d = choose|d: nat| d < 10 && #[trigger] t[i] == digit_char(d);
        assert(d < 16 && t[i] == digit_char(d));
    }
}

pub proof fn lemma_digits_are_plain(t: Seq<char>)
    requires
        all_digits(t),
    ensures
        forall|i: int|
            0 <= i < t.len() ==> {
                &&& !crate::text::is_white_space(#[trigger] t[i])
                &&& t[i] != 'x'
                &&& t[i] != 'X'
                &&& t[i] != ':'
                &&& t[i] != '+'
            },
{
    assert forall|i: int| 0 <= i < t.len() implies {
        &&& !crate::text::is_white_space(#[trigger] t[i])
        &&& t[i] != 'x'
        &&& t[i] != 'X'
        &&& t[i] != ':'
        &&& t[i] != '+'
    } by {
        let d = choose|d: nat| d < 16 && #[trigger] t[i] == digit_char(d);
        assert(d < 16);
    }
}

pub proof fn lemma_no_prefix(t: Seq<char>)
    requires
        all_digits(t),
    ensures
        !"0x"@.is_prefix_of(t),
        !"0X"@.is_prefix_of(t),
        trim_start_text(t, "0x"@) == t,
        trim_start_text(t, "0X"@) == t,
{
    reveal_strlit("0x");
    reveal_strlit("0X");
    lemma_digits_are_plain(t);
    if "0x"@.is_prefix_of(t) {
        assert(t[1] == "0x"@[1]);
    }
    if "0X"@.is_prefix_of(t) {
        assert(t[1] == "0X"@[1]);
    }
}

/// What is stated of a number that was read is stated of the number that is handed
/// out.
pub proof fn law_readings_are_seen_whole(
    r: Result<u64, NumError>,
    a: Result<u64, ArgError>,
)
    ensures
        match r {
            Ok(v) => reading(r) == Ok::<nat, NumError>(v as nat),
            Err(e) => reading(r) == Err::<nat, NumError>(e),
        },
        match a {
            Ok(v) => argument(a) == Ok::<nat, ArgError>(v as nat),
            Err(e) => argument(a) == Err::<nat, ArgError>(e),
        },
{
}

/// Padding fills up to the width and takes nothing away.
pub proof fn law_padding(s: Seq<char>, width: nat, c: char, i: int)
    ensures
        pad_left(s, width, c).len() == if s.len() < width {
            width
        } else {
            s.len()
        },
        pad_right(s, width).len() == pad_left(s, width, c).len(),
        pad_left(s, width, c).skip(pad_left(s, width, c).len() - s.len()) == s,
        pad_right(s, width).take(s.len() as int) == s,
        0 <= i < width - s.len() ==> pad_left(s, width, c)[i] == c,
        s.len() <= i < width ==> pad_right(s, width)[i] == ' ',
{
    assert(pad_left(s, width, c).skip(pad_left(s, width, c).len() - s.len()) =~= s);
    assert(pad_right(s, width).take(s.len() as int) =~= s);
}

/// A number below zero has a minus sign in front of its size.
pub proof fn law_signed_numbers(n: nat)
    ensures
        dec_signed(n as int) == dec(n),
        n > 0 ==> dec_signed(-(n as int)) == seq!['-'] + dec(n),
{
}

}
