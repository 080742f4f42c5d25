//! Source listings: a few lines around a place, the place itself marked.
use vstd::prelude::*;
use crate::code_map::{CodeMap, CodeMapData, LookupError};
use crate::number::{
    dec, dec_text, hex, hex_text, law_numeral_read_back, lemma_dec_digits, lemma_digits_are_plain,
    pad_left, pad_left_text, read_unsigned, unsigned_value, NumError,
};
use crate::target::image_view;
use crate::text::{
    chars_of, law_cut_at_the_last, lines, lines_of, rsplit_once, rsplit_once_of, string_of, views,
};

verus! {

/// How many lines a listing shows on either side of its place.
pub const CONTEXT: u64 = 5;

/// Why there is no listing. `T` is the form in which text is held.
#[derive(Debug)]
pub enum ListError<T> {
    /// The place is not written as a file and a line.
    Usage,
    /// What stands for the line is no number.
    BadLine(NumError),
    /// Lines are counted from one.
    LineZero,
    /// The image has no such source file.
    Unknown(LookupError<T>),
    /// The code at the address has no source line.
    NoSourceLine(u32),
}

impl View for ListError<String> {
    type V = ListError<Seq<char>>;

    open spec fn view(&self) -> ListError<Seq<char>> {
        match *self {
            ListError::Usage => ListError::Usage,
            ListError::BadLine(e) => ListError::BadLine(e),
            ListError::LineZero => ListError::LineZero,
            ListError::Unknown(e) => ListError::Unknown(e@),
            ListError::NoSourceLine(pc) => ListError::NoSourceLine(pc),
        }
    }
}

impl ListError<Seq<char>> {
    /// The wording of each failure.
    pub open spec fn text(self) -> Seq<char> {
        match self {
            ListError::Usage => "用法：l <文件:行号>，如 l port.c:244"@,
            ListError::BadLine(e) => "行号必须是数字: "@ + e.text(),
            ListError::LineZero => "行号不能为 0"@,
            ListError::Unknown(e) => e.text(),
            ListError::NoSourceLine(pc) => "当前 PC 0x"@ + hex(pc as nat, 8)
                + " 没有对应的源码行（汇编/库代码？）"@,
        }
    }
}

impl ListError<String> {
    /// The wording of this failure.
    pub fn message(&self) -> (r: String)
        ensures
            r@ == self@.text(),
    {
        match self {
            ListError::Usage => String::from_str("用法：l <文件:行号>，如 l port.c:244"),
            ListError::BadLine(e) => {
                let mut s: String = String::from_str("行号必须是数字: ");
                s.append(e.message());
                s
            },
            ListError::LineZero => String::from_str("行号不能为 0"),
            ListError::Unknown(e) => e.message(),
            ListError::NoSourceLine(pc) => {
                let mut s: String = String::from_str("当前 PC 0x");
                s.append(hex_text(*pc as u64, 8).as_str());
                s.append(" 没有对应的源码行（汇编/库代码？）");
                s
            },
        }
    }
}

/// The file and the line that a place names. Where there is an image, the file
/// is looked up in it; else it is taken as a path.
pub open spec fn listed_place(image: Option<CodeMapData>, loc: Seq<char>) -> Result<
    (Seq<char>, u64),
    ListError<Seq<char>>,
> {
    match rsplit_once(loc, ':') {
        None => Err(ListError::Usage),
        Some((file, digits)) => match unsigned_value(digits, 10, u64::MAX as nat) {
            Err(e) => Err(ListError::BadLine(e)),
            Ok(line) => match image {
                None => Ok((file, line as u64)),
                Some(m) => match m.source_path(file) {
                    Ok(path) => Ok((path, line as u64)),
                    Err(e) => Err(ListError::Unknown(e)),
                },
            },
        },
    }
}

/// The view of a found place.
pub open spec fn place_result(r: Result<(String, u64), ListError<String>>) -> Result<
    (Seq<char>, u64),
    ListError<Seq<char>>,
> {
    match r {
        Ok(p) => Ok((p.0@, p.1)),
        Err(e) => Err(e@),
    }
}

/// Finds the place that the argument of `list` names.
pub fn debug_list_at(image: Option<&CodeMap>, loc: &str) -> (r: Result<
    (String, u64),
    ListError<String>,
>)
    ensures
        place_result(r) == listed_place(image_view(image), loc@),
{
    let v: Vec<char> = chars_of(loc);
    match rsplit_once_of(v.as_slice(), ':') {
        None => Err(ListError::Usage),
        Some((file, digits)) => match read_unsigned(digits, 10, u64::MAX) {
            Err(e) => Err(ListError::BadLine(e)),
            Ok(line) => {
                let name: String = string_of(file);
                match image {
                    None => Ok((name, line)),
                    Some(m) => match m.resolve_source_path(name.as_str()) {
                        Ok(path) => Ok((path, line)),
                        Err(e) => Err(ListError::Unknown(e)),
                    },
                }
            },
        },
    }
}

/// Finds the place that the program counter is at.
pub fn debug_list_current(image: &CodeMap, pc: u32) -> (r: Result<
    (String, u64),
    ListError<String>,
>)
    ensures
        place_result(r) == match image@.spot(pc as u64).place {
            Some(p) => Ok(p),
            None => Err(ListError::<Seq<char>>::NoSourceLine(pc)),
        },
{
    match image.address_to_line(pc as u64) {
        Some(p) => Ok(p),
        None => Err(ListError::NoSourceLine(pc)),
    }
}

/// The first line of a listing around `center`.
pub open spec fn first_shown(center: int) -> int {
    if center - CONTEXT < 1 {
        1
    } else {
        center - CONTEXT
    }
}

/// The last line of a listing around `center` in a file of `n` lines.
pub open spec fn last_shown(center: int, n: int) -> int {
    if center + CONTEXT < n {
        center + CONTEXT
    } else {
        n
    }
}

/// One line of a listing.
pub open spec fn shown_line(n: nat, center: nat, text: Seq<char>) -> Seq<char> {
    (if n == center {
        "=> "@
    } else {
        "   "@
    }) + pad_left(dec(n), 6, ' ') + "\t"@ + text
}

/// How many lines a listing shows.
pub open spec fn shown_count(center: int, n: int) -> nat {
    if last_shown(center, n) < first_shown(center) {
        0
    } else {
        (last_shown(center, n) - first_shown(center) + 1) as nat
    }
}

/// The listing of a file around a line: a heading, and each line with its
/// number. Only lines that the file has are shown.
pub open spec fn listing(path: Seq<char>, center: nat, text: Seq<Seq<char>>) -> Seq<Seq<char>> {
    let first = first_shown(center as int);
    seq!["── "@ + path + ":"@ + dec(center) + " ──"@] + Seq::new(
        shown_count(center as int, text.len() as int),
        |k: int| shown_line((first + k) as nat, center, text[first + k - 1]),
    )
}

/// Refuses a listing around line zero.
pub fn check_center(center: u64) -> (r: Result<(), ListError<String>>)
    ensures
        match r {
            Ok(_) => center > 0,
            Err(e) => center == 0 && e@ == ListError::<Seq<char>>::LineZero,
        },
{
    if center == 0 {
        Err(ListError::LineZero)
    } else {
        Ok(())
    }
}

/// Lists the text of a file around a line.
pub fn print_source_context(path: &str, center: u64, text: &str) -> (r: Result<
    Vec<String>,
    ListError<String>,
>)
    ensures
        match r {
            Ok(v) => center > 0 && views(v@) == listing(path@, center as nat, lines(text@)),
            Err(e) => center == 0 && e@ == ListError::<Seq<char>>::LineZero,
        },
{
    match check_center(center) {
        Err(e) => {
            return Err(e);
        },
        Ok(_) => {},
    }
    let chars: Vec<char> = chars_of(text);
    let all: Vec<String> = lines_of(chars.as_slice());
    let ghost source = lines(text@);
    assert(source.len() == all@.len()) by {
        assert(views(all@).len() == all@.len());
    }
    let mut head: String = String::from_str("── ");
    head.append(path);
    head.append(":");
    head.append(dec_text(center).as_str());
    head.append(" ──");
    let mut r: Vec<String> = Vec::new();
    r.push(head);
    let first: u64 = if center <= CONTEXT + 1 {
        1
    } else {
        center - CONTEXT
    };
    let n: u64 = all.len() as u64;
    let last: u64 = if center < n && n - center > CONTEXT {
        center + CONTEXT
    } else {
        n
    };
    assert(first == first_shown(center as int));
    assert(last == last_shown(center as int, n as int));
    let ghost want = listing(path@, center as nat, source);
    let count: u64 = if last < first {
        0
    } else {
        last - first + 1
    };
    assert(count == shown_count(center as int, n as int));
    let mut k: u64 = 0;
    while k < count
        invariant
            k <= count,
            1 <= first,
            count > 0 ==> first + count == last + 1,
            last <= all@.len(),
            views(all@) == source,
            source.len() == all@.len(),
            first == first_shown(center as int),
            count == shown_count(center as int, source.len() as int),
            want == listing(path@, center as nat, source),
            r@.len() == k + 1,
            forall|j: int| 0 <= j < r@.len() ==> (#[trigger] r@[j])@ == want[j],
        decreases count - k,
    {
        let line: u64 = first + k;
        let mut s: String = if line == center {
            String::from_str("=> ")
        } else {
            String::from_str("   ")
        };
        s.append(pad_left_text(dec_text(line).as_str(), 6, ' ').as_str());
        s.append("\t");
        s.append(all[(line - 1) as usize].as_str());
        assert(source[line - 1] == all@[line - 1]@);
        assert(want[k + 1] == shown_line(line as nat, center as nat, source[line - 1]));
        r.push(s);
        k += 1;
    }
    assert(views(r@) =~= want);
    Ok(r)
}

/// What is said of a source file that cannot be read.
pub open spec fn source_failure(path: Seq<char>) -> Seq<char> {
    "读取源码失败："@ + path
        + "\n（路径来自 ELF 编译时记录；tscope 只依赖 ELF，源码文件不在本机属正常，\n想用 list 请保证该路径下存在对应源码）"@
}

/// Writes what is said of a source file that cannot be read.
pub fn source_failure_text(path: &str) -> (r: String)
    ensures
        r@ == source_failure(path@),
{
    let mut s: String = String::from_str("读取源码失败：");
    s.append(path);
    s.append(
        "\n（路径来自 ELF 编译时记录；tscope 只依赖 ELF，源码文件不在本机属正常，\n想用 list 请保证该路径下存在对应源码）",
    );
    s
}

// ---------------------------------------------------------------------------
// What a listing shows
// ---------------------------------------------------------------------------

/// A listing shows the five lines on either side of its place, as far as the file
/// has them, each with its number and its text, and marks the place itself. There
/// is nothing else but the heading.
pub proof fn law_listings_show_the_lines_around(
    path: Seq<char>,
    center: nat,
    text: Seq<Seq<char>>,
    n: int,
)
    requires
        center > 0,
    ensures
        ({
            let shown = listing(path, center, text);
            let first: int = if center <= 6 {
                1
            } else {
                center - 5
            };
            let last: int = if center + 5 < text.len() {
                (center + 5) as int
            } else {
                text.len() as int
            };
            &&& first <= n <= last ==> shown[1 + n - first] == (if n == center {
                seq!['=', '>', ' ']
            } else {
                seq![' ', ' ', ' ']
            }) + pad_left(dec(n as nat), 6, ' ') + seq!['\t'] + text[n - 1]
            &&& shown.len() == 1 + if last < first {
                0
            } else {
                last - first + 1
            }
        }),
{
    reveal_strlit("=> ");
    reveal_strlit("   ");
    reveal_strlit("\t");
    assert("=> "@ =~= seq!['=', '>', ' ']);
    assert("   "@ =~= seq![' ', ' ', ' ']);
    assert("\t"@ =~= seq!['\t']);
}

/// The place of a listing is the file and the line that stand on either side of
/// the last colon; with an image, the file is the one that the image knows by that
/// name.
pub proof fn law_listed_places(file: Seq<char>, line: u64, image: CodeMapData, path: Seq<char>)
    ensures
        listed_place(None, file + seq![':'] + dec(line as nat)) == Ok::<_, ListError<Seq<char>>>(
            (file, line),
        ),
        image.source_path(file) == Ok::<_, LookupError<Seq<char>>>(path) ==> listed_place(
            Some(image),
            file + seq![':'] + dec(line as nat),
        ) == Ok::<_, ListError<Seq<char>>>((path, line)),
{
    let digits = dec(line as nat);
    lemma_dec_digits(line as nat);
    lemma_digits_are_plain(digits);
    assert(!digits.contains(':'));
    law_cut_at_the_last(file, ':', digits);
    law_numeral_read_back(line as nat, 10, u64::MAX as nat);
}

/// What is stated of a place is stated of the place that is handed out.
pub proof fn law_places_are_seen_whole(r: Result<(String, u64), ListError<String>>)
    ensures
        match r {
            Ok(p) => place_result(r) == Ok::<_, ListError<Seq<char>>>((p.0@, p.1)),
            Err(e) => place_result(r) == Err::<(Seq<char>, u64), _>(e@),
        },
{
}

}
