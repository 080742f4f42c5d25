//! Where code lies: functions by the symbol table of a firmware image, source
//! lines by its line programs, in both directions.
use vstd::prelude::*;
use vstd::slice::slice_subrange;
use gimli::LineInstruction::AdvanceLine;
use gimli::RunTimeEndian::{Big, Little};
use gimli::{DebugInfoOffset, Dwarf, EndianSlice, Error, SectionId};
use object::{Object, ObjectSymbol, SymbolKind};
use crate::backtrace::without_thumb;
use crate::dwarf::{
    debug_sections, elf_endianness, load_debug_sections, section_bytes, unit_head, unit_head_at,
    DebugSections, SectionData,
};
use crate::number::{dec, dec_text};
use crate::stepping::{clear_thumb, Spot};
use crate::symbol::bytes_left;
use crate::units::{lemma_unit_in_front, lemma_units_behind, units_from, units_in_order};
use crate::text::{chars_of, same_chars, same_text};

verus! {

// ---------------------------------------------------------------------------
// What the image holds
// ---------------------------------------------------------------------------

/// A symbol of an image. `T` is the form in which text is held.
#[derive(Debug)]
pub struct CodeSymbol<T> {
    /// Its name, where it is text.
    pub name: Option<T>,
    /// Its address.
    pub address: u64,
    /// The bytes that it takes.
    pub size: u64,
    /// Whether it stands for code.
    pub code: bool,
}

impl View for CodeSymbol<String> {
    type V = CodeSymbol<Seq<char>>;

    open spec fn view(&self) -> CodeSymbol<Seq<char>> {
        CodeSymbol {
            name: match self.name {
                Some(t) => Some(t@),
                None => None,
            },
            address: self.address,
            size: self.size,
            code: self.code,
        }
    }
}

/// A row of a line program.
#[derive(Debug, Clone, Copy, PartialEq, Eq, Structural)]
pub struct LineRow {
    /// The address from which on it holds.
    pub address: u64,
    /// The number of its source file.
    pub file: u64,
    /// The source line; zero where there is none.
    pub line: u64,
    /// Whether it only marks the end of a run of code.
    pub end: bool,
}

/// The name of a source file as a line program holds it. `T` is the form in
/// which text is held.
#[derive(Debug)]
pub struct FileName<T> {
    /// The directory of the compilation.
    pub base: Option<T>,
    /// The directory of the file.
    pub directory: Option<T>,
    /// The file.
    pub name: T,
}

/// The view of an optional string.
pub open spec fn opt_text(t: Option<String>) -> Option<Seq<char>> {
    match t {
        Some(s) => Some(s@),
        None => None,
    }
}

impl View for FileName<String> {
    type V = FileName<Seq<char>>;

    open spec fn view(&self) -> FileName<Seq<char>> {
        FileName {
            base: opt_text(self.base),
            directory: opt_text(self.directory),
            name: self.name@,
        }
    }
}

/// The symbols of an object file, as the `object` crate lists them.
pub uninterp spec fn symbol_table(data: Seq<u8>) -> Result<
    Seq<CodeSymbol<Seq<char>>>,
    Seq<char>,
>;

/// The steps between lines in the line program of a unit, as `gimli` decodes its
/// instructions: nothing for an instruction that is no such step.
pub uninterp spec fn unit_advances(s: SectionData, unit: usize) -> Seq<Option<i64>>;

/// The rows of the line program of a unit, as `gimli` decodes them.
pub uninterp spec fn unit_rows(s: SectionData, unit: usize) -> Option<Seq<LineRow>>;

/// A source file of the line program of a unit, as `gimli` finds it.
pub uninterp spec fn unit_file(s: SectionData, unit: usize, index: u64) -> Option<
    FileName<Seq<char>>,
>;

/// The views of symbols.
pub open spec fn symbol_views(v: Seq<CodeSymbol<String>>) -> Seq<CodeSymbol<Seq<char>>> {
    v.map_values(|s: CodeSymbol<String>| s@)
}

/// `object::Object::symbols`: the symbols of an object file in the order of its
/// symbol table, or the wording of the error that `object::File::parse` gives.
/// Claimed is that the outcome depends on the bytes alone.
#[verifier::external_body]
fn elf_symbols(data: &[u8]) -> (r: Result<Vec<CodeSymbol<String>>, String>)
    ensures
        match r {
            Ok(v) => symbol_table(data@) == Ok::<_, Seq<char>>(symbol_views(v@)),
            Err(t) => symbol_table(data@) == Err::<Seq<CodeSymbol<Seq<char>>>, _>(t@),
        },
{
    let file = object::File::parse(data).map_err(|e| e.to_string())?;
    let plain = |s: object::Symbol<'_, '_>| CodeSymbol {
        name: s.name().ok().map(String::from),
        address: s.address(),
        size: s.size(),
        code: s.kind() == SymbolKind::Text,
    };
    Ok(file.symbols().map(plain).collect())
}

/// `gimli::LineInstructions::next_instruction` until it gives no further
/// instruction: for each instruction of the line program of the unit at offset
/// `unit`, up to the first that cannot be decoded, the operand of `AdvanceLine`
/// where it is that one. Claimed is that the outcome depends on the sections and
/// the offset alone.
#[verifier::external_body]
fn line_advances(s: &DebugSections, unit: usize) -> (r: Vec<Option<i64>>)
    ensures
        r@ == unit_advances(s@, unit),
{
    let mut found = Vec::new();
    let mut read = |order| {
        let dwarf = Dwarf::load(|id| Ok::<_, Error>(EndianSlice::new(s.get(id.name()), order)))?;
        let opened = dwarf.unit(dwarf.unit_header(DebugInfoOffset(unit))?)?;
        let Some(program) = opened.line_program.as_ref() else { return Ok(()) };
        let mut walk = program.header().instructions();
        while let Some(step) = walk.next_instruction(program.header())? {
            found.push(if let AdvanceLine(by) = step { Some(by) } else { None });
        }
        Ok::<(), Error>(())
    };
    read(if s.little { Little } else { Big }).ok();
    found
}

/// Whether each step between lines can be turned round.
pub open spec fn turnable(advances: Seq<Option<i64>>) -> bool {
    forall|i: int| 0 <= i < advances.len() ==> #[trigger] advances[i] != Some(i64::MIN)
}

/// Tells whether each step between lines can be turned round.
pub fn all_turnable(advances: &[Option<i64>]) -> (r: bool)
    ensures
        r == turnable(advances@),
{
    let mut i: usize = 0;
    while i < advances.len()
        invariant
            i <= advances@.len(),
            forall|k: int| 0 <= k < i ==> #[trigger] advances@[k] != Some(i64::MIN),
        decreases advances@.len() - i,
    {
        if let Some(by) = advances[i] {
            if by == i64::MIN {
                assert(advances@[i as int] == Some(i64::MIN));
                return false;
            }
        }
        i += 1;
    }
    true
}

/// `gimli::LineRows::next_row` until it gives no further row: the rows of the
/// line program of the unit at offset `unit`, and nothing where the unit cannot
/// be opened, has no line program or has one that cannot be decoded. A row
/// without a line has line zero. Claimed is that the outcome depends on the
/// sections and the offset alone. A step back is negated on the way, so the
/// lowest number, which has no opposite, must not be one.
#[verifier::external_body]
fn line_rows(s: &DebugSections, unit: usize) -> (r: Option<Vec<LineRow>>)
    requires
        turnable(unit_advances(s@, unit)),
    ensures
        match r {
            Some(v) => unit_rows(s@, unit) == Some(v@),
            None => unit_rows(s@, unit) is None,
        },
{
    let order = if s.little { Little } else { Big };
    let section = |id: SectionId| Ok::<_, Error>(EndianSlice::new(s.get(id.name()), order));
    let dwarf = Dwarf::load(section).ok()?;
    let opened = dwarf.unit(dwarf.unit_header(DebugInfoOffset(unit)).ok()?).ok()?;
    let (mut rows, mut found) = (opened.line_program?.rows(), Vec::new());
    while let Some((_, row)) = rows.next_row().ok()? {
        found.push(LineRow {
            address: row.address(),
            file: row.file_index(),
            line: row.line().map_or(0, u64::from),
            end: row.end_sequence(),
        });
    }
    Some(found)
}

/// `gimli::LineProgramHeader::file` and `directory`, `FileEntry::directory` and
/// `Dwarf::attr_string`: the name of source file number `index` of the line
/// program of the unit at offset `unit`, with its directory and directory number
/// zero, which is that of the compilation. Claimed is that the outcome depends on
/// the sections, the offset and the number alone.
#[verifier::external_body]
fn line_file(s: &DebugSections, unit: usize, index: u64) -> (r: Option<FileName<String>>)
    ensures
        match r {
            Some(f) => unit_file(s@, unit, index) == Some(f@),
            None => unit_file(s@, unit, index) is None,
        },
{
    let order = if s.little { Little } else { Big };
    let section = |id: SectionId| Ok::<_, Error>(EndianSlice::new(s.get(id.name()), order));
    let dwarf = Dwarf::load(section).ok()?;
    let opened = dwarf.unit(dwarf.unit_header(DebugInfoOffset(unit)).ok()?).ok()?;
    let header = opened.line_program.as_ref()?.header();
    let file = header.file(index)?;
    let text = |v| Some(dwarf.attr_string(&opened, v).ok()?.to_string_lossy().into_owned());
    Some(FileName {
        base: header.directory(0).and_then(text),
        directory: file.directory(header).and_then(text),
        name: text(file.path_name())?,
    })
}

// ---------------------------------------------------------------------------
// Source files
// ---------------------------------------------------------------------------

/// Whether a path starts at a root: with a separator or a drive.
pub open spec fn rooted(p: Seq<char>) -> bool {
    p.len() > 0 && (p[0] == '/' || p[0] == '\\' || p.len() > 1 && p[1] == ':')
}

/// One path below another.
pub open spec fn below(a: Seq<char>, b: Seq<char>) -> Seq<char> {
    a + "/"@ + b
}

/// The path of a source file: its name, below its directory, below the directory
/// of the compilation, as far as each is needed and known.
pub open spec fn file_path(f: FileName<Seq<char>>) -> Seq<char> {
    if rooted(f.name) {
        f.name
    } else {
        let d = match f.directory {
            Some(d) => below(d, f.name),
            None => f.name,
        };
        match f.base {
            Some(b) => if rooted(d) {
                d
            } else {
                below(b, d)
            },
            None => d,
        }
    }
}

fn is_rooted(p: &str) -> (r: bool)
    ensures
        r == rooted(p@),
{
    let v: Vec<char> = chars_of(p);
    v.len() > 0 && (v[0] == '/' || v[0] == '\\' || (v.len() > 1 && v[1] == ':'))
}

fn join_below(a: &str, b: &str) -> (r: String)
    ensures
        r@ == below(a@, b@),
{
    let mut s: String = String::from_str(a);
    s.append("/");
    s.append(b);
    s
}

fn path_of(f: &FileName<String>) -> (r: String)
    ensures
        r@ == file_path(f@),
{
    if is_rooted(f.name.as_str()) {
        return String::from_str(f.name.as_str());
    }
    let d: String = match &f.directory {
        Some(d) => join_below(d.as_str(), f.name.as_str()),
        None => String::from_str(f.name.as_str()),
    };
    match &f.base {
        Some(b) => {
            if is_rooted(d.as_str()) {
                d
            } else {
                join_below(b.as_str(), d.as_str())
            }
        },
        None => d,
    }
}

fn is_separator(c: char) -> (r: bool)
    ensures
        r == (c == '/' || c == '\\'),
{
    c == '/' || c == '\\'
}

/// Whether `file` names the source file `path`: as a whole, or as its last
/// parts.
pub open spec fn names_file(path: Seq<char>, file: Seq<char>) -> bool {
    ||| path == file
    ||| {
        &&& path.len() > file.len()
        &&& path.skip(path.len() - file.len()) == file
        &&& (path[path.len() - file.len() - 1] == '/' || path[path.len() - file.len() - 1] == '\\')
    }
}

fn is_named(path: &str, file: &str) -> (r: bool)
    ensures
        r == names_file(path@, file@),
{
    let p: Vec<char> = chars_of(path);
    let f: Vec<char> = chars_of(file);
    if p.len() > f.len() {
        let cut: usize = p.len() - f.len();
        assert(p@.subrange(cut as int, p@.len() as int) =~= p@.skip(cut as int));
        is_separator(p[cut - 1]) && same_chars(
            slice_subrange(p.as_slice(), cut, p.len()),
            f.as_slice(),
        )
    } else {
        same_chars(p.as_slice(), f.as_slice())
    }
}

// ---------------------------------------------------------------------------
// Lines
// ---------------------------------------------------------------------------

/// A row of a line program with its place in the source. `T` is the form in
/// which text is held.
#[derive(Debug)]
pub struct SourceRow<T> {
    /// The address from which on it holds.
    pub address: u64,
    /// The source file and the line.
    pub place: Option<(T, u64)>,
    /// Whether it only marks the end of a run of code.
    pub end: bool,
}

impl View for SourceRow<String> {
    type V = SourceRow<Seq<char>>;

    open spec fn view(&self) -> SourceRow<Seq<char>> {
        SourceRow {
            address: self.address,
            place: match self.place {
                Some(p) => Some((p.0@, p.1)),
                None => None,
            },
            end: self.end,
        }
    }
}

/// The views of rows.
pub open spec fn row_views(v: Seq<SourceRow<String>>) -> Seq<SourceRow<Seq<char>>> {
    v.map_values(|r: SourceRow<String>| r@)
}

/// A row of a unit with its place. A row without a line, or with a file that the
/// program does not name, has none.
pub open spec fn placed(s: SectionData, unit: usize, row: LineRow) -> SourceRow<Seq<char>> {
    SourceRow {
        address: row.address,
        place: match unit_file(s, unit, row.file) {
            Some(f) => if row.line == 0 {
                None
            } else {
                Some((file_path(f), row.line))
            },
            None => None,
        },
        end: row.end,
    }
}

/// The rows of a unit with their places; none where they cannot be had.
pub open spec fn unit_places(s: SectionData, unit: usize) -> Seq<SourceRow<Seq<char>>> {
    if turnable(unit_advances(s, unit)) {
        match unit_rows(s, unit) {
            Some(rows) => rows.map_values(|row: LineRow| placed(s, unit, row)),
            None => Seq::empty(),
        }
    } else {
        Seq::empty()
    }
}

/// The rows of the units from offset `at` on, with their places. The rows end
/// where the head of a unit cannot be read.
pub open spec fn placed_rows(s: SectionData, at: usize) -> Seq<SourceRow<Seq<char>>>
    decreases bytes_left(at, section_bytes(s.parts, ".debug_info"@).len() as int),
{
    if at >= section_bytes(s.parts, ".debug_info"@).len() {
        Seq::empty()
    } else {
        match unit_head_at(s, at) {
            Err(_) => Seq::empty(),
            Ok(head) => unit_places(s, at) + (
            if head.size == 0 || at + head.size > usize::MAX {
                Seq::empty()
            } else {
                placed_rows(s, (at + head.size) as usize)
            }),
        }
    }
}

/// The path of a source file of a unit.
pub open spec fn unit_path(s: SectionData, unit: usize, index: u64) -> Option<Seq<char>> {
    match unit_file(s, unit, index) {
        Some(f) => Some(file_path(f)),
        None => None,
    }
}

fn read_path(s: &DebugSections, unit: usize, index: u64) -> (r: Option<String>)
    ensures
        opt_text(r) == unit_path(s@, unit, index),
{
    match line_file(s, unit, index) {
        Some(f) => Some(path_of(&f)),
        None => None,
    }
}

/// Appends the rows of a unit, with their places.
fn push_rows(s: &DebugSections, unit: usize, out: &mut Vec<SourceRow<String>>)
    ensures
        row_views(final(out)@) == row_views(old(out)@) + unit_places(s@, unit),
{
    let ghost start = row_views(out@);
    if !all_turnable(line_advances(s, unit).as_slice()) {
        assert(start + unit_places(s@, unit) =~= start);
        return;
    }
    let rows: Vec<LineRow> = match line_rows(s, unit) {
        Some(v) => v,
        None => {
            assert(start + unit_places(s@, unit) =~= start);
            return;
        },
    };
    let ghost all = rows@.map_values(|row: LineRow| placed(s@, unit, row));
    if rows.len() == 0 {
        assert(start + all =~= start);
        return;
    }
    let mut known: u64 = rows[0].file;
    let mut path: Option<String> = read_path(s, unit, known);
    let mut i: usize = 0;
    assert(start + all.take(0) =~= start);
    while i < rows.len()
        invariant
            i <= rows@.len(),
            all == rows@.map_values(|row: LineRow| placed(s@, unit, row)),
            row_views(out@) == start + all.take(i as int),
            opt_text(path) == unit_path(s@, unit, known),
        decreases rows@.len() - i,
    {
        let row: LineRow = rows[i];
        if row.file != known {
            known = row.file;
            path = read_path(s, unit, known);
        }
        let place: Option<(String, u64)> = match &path {
            Some(p) => {
                if row.line == 0 {
                    None
                } else {
                    Some((String::from_str(p.as_str()), row.line))
                }
            },
            None => None,
        };
        let found: SourceRow<String> = SourceRow {
            address: row.address,
            place,
            end: row.end,
        };
        assert(found@ == placed(s@, unit, row));
        let ghost before = row_views(out@);
        out.push(found);
        assert(row_views(out@) =~= before.push(all[i as int]));
        assert(all.take(i + 1) =~= all.take(i as int).push(all[i as int]));
        assert(row_views(out@) =~= start + all.take(i + 1));
        i += 1;
    }
    assert(all.take(i as int) =~= all);
}

fn load_rows(s: &DebugSections) -> (r: Vec<SourceRow<String>>)
    ensures
        row_views(r@) == placed_rows(s@, 0),
{
    let len: usize = s.get(".debug_info").len();
    let mut r: Vec<SourceRow<String>> = Vec::new();
    let mut at: usize = 0;
    assert(row_views(r@) + placed_rows(s@, 0) =~= placed_rows(s@, 0));
    while at < len
        invariant
            len == section_bytes(s@.parts, ".debug_info"@).len(),
            at <= len,
            row_views(r@) + placed_rows(s@, at) == placed_rows(s@, 0),
        decreases len - at,
    {
        let ghost before = row_views(r@);
        match unit_head(s, at) {
            Err(_) => {
                assert(before + placed_rows(s@, at) =~= before);
                return r;
            },
            Ok(head) => {
                push_rows(s, at, &mut r);
                let ghost here = unit_places(s@, at);
                let ghost rest = placed_rows(s@, (at + head.size) as usize);
                assert(before + (here + rest) =~= (before + here) + rest);
                at += head.size;
            },
        }
    }
    assert(row_views(r@) + placed_rows(s@, at) =~= row_views(r@));
    r
}

/// Whether row `i` covers an address: it holds from its own address up to that
/// of the row behind it.
pub open spec fn covers(rows: Seq<SourceRow<Seq<char>>>, i: int, pc: u64) -> bool {
    0 <= i && i + 1 < rows.len() && !rows[i].end && rows[i].address <= pc < rows[i + 1].address
}

/// The first row from `i` on that covers an address.
pub open spec fn covering(rows: Seq<SourceRow<Seq<char>>>, pc: u64, i: int) -> Option<int>
    decreases rows.len() - i,
{
    if i >= rows.len() {
        None
    } else if covers(rows, i, pc) {
        Some(i)
    } else {
        covering(rows, pc, i + 1)
    }
}

/// The place in the source that an address belongs to.
pub open spec fn line_at(rows: Seq<SourceRow<Seq<char>>>, pc: u64) -> Option<(Seq<char>, u64)> {
    match covering(rows, pc, 0) {
        Some(i) => rows[i].place,
        None => None,
    }
}

/// Whether code of a source line starts at a row.
pub open spec fn starts_line(row: SourceRow<Seq<char>>, file: Seq<char>, line: u64) -> bool {
    !row.end && (row.place matches Some(p) && p.1 == line && names_file(p.0, file))
}

/// The lowest address among the first `n` rows at which code of a source line
/// starts.
pub open spec fn lowest_start(
    rows: Seq<SourceRow<Seq<char>>>,
    file: Seq<char>,
    line: u64,
    n: int,
) -> Option<u64>
    decreases n,
{
    if n <= 0 {
        None
    } else {
        let found = lowest_start(rows, file, line, n - 1);
        if starts_line(rows[n - 1], file, line) && (found matches Some(a) ==> rows[n - 1].address
            < a) {
            Some(rows[n - 1].address)
        } else {
            found
        }
    }
}

/// The path of the first source file from row `i` on that `file` names.
pub open spec fn source_named(
    rows: Seq<SourceRow<Seq<char>>>,
    file: Seq<char>,
    i: int,
) -> Option<Seq<char>>
    decreases rows.len() - i,
{
    if i < 0 || i >= rows.len() {
        None
    } else {
        match rows[i].place {
            Some(p) => if names_file(p.0, file) {
                Some(p.0)
            } else {
                source_named(rows, file, i + 1)
            },
            None => source_named(rows, file, i + 1),
        }
    }
}

// ---------------------------------------------------------------------------
// Functions
// ---------------------------------------------------------------------------

/// Whether a symbol is a function around an address.
pub open spec fn holds(f: CodeSymbol<Seq<char>>, pc: u64) -> bool {
    f.code && f.name is Some && without_thumb(f.address) <= without_thumb(pc) < without_thumb(
        f.address,
    ) + f.size
}

/// The name of the first function from `i` on that holds an address.
pub open spec fn function_around(
    symbols: Seq<CodeSymbol<Seq<char>>>,
    pc: u64,
    i: int,
) -> Option<Seq<char>>
    decreases symbols.len() - i,
{
    if i < 0 || i >= symbols.len() {
        None
    } else if holds(symbols[i], pc) {
        symbols[i].name
    } else {
        function_around(symbols, pc, i + 1)
    }
}

/// The address of the first function from `i` on with a name, without the Thumb
/// bit.
pub open spec fn function_named(
    symbols: Seq<CodeSymbol<Seq<char>>>,
    name: Seq<char>,
    i: int,
) -> Option<u64>
    decreases symbols.len() - i,
{
    if i < 0 || i >= symbols.len() {
        None
    } else if symbols[i].code && symbols[i].name == Some(name) {
        Some(without_thumb(symbols[i].address))
    } else {
        function_named(symbols, name, i + 1)
    }
}

// ---------------------------------------------------------------------------
// The map
// ---------------------------------------------------------------------------

/// Why a place in the code is not found. `T` is the form in which text is held.
#[derive(Debug)]
pub enum LookupError<T> {
    /// No function has that name.
    NoFunction(T),
    /// No code starts at that line of that file.
    NoCode(T, u64),
    /// No source file has that name.
    NoSource(T),
}

impl View for LookupError<String> {
    type V = LookupError<Seq<char>>;

    open spec fn view(&self) -> LookupError<Seq<char>> {
        match *self {
            LookupError::NoFunction(t) => LookupError::NoFunction(t@),
            LookupError::NoCode(t, n) => LookupError::NoCode(t@, n),
            LookupError::NoSource(t) => LookupError::NoSource(t@),
        }
    }
}

impl LookupError<Seq<char>> {
    /// The wording of each failure.
    pub open spec fn text(self) -> Seq<char> {
        match self {
            LookupError::NoFunction(name) => "在 ELF 里没有找到函数 "@ + name,
            LookupError::NoCode(file, line) => file + ":"@ + dec(line as nat)
                + " 没有对应的代码（检查文件名与行号）"@,
            LookupError::NoSource(file) => "ELF 行号表里没有源文件 "@ + file,
        }
    }
}

impl LookupError<String> {
    /// The wording of this failure.
    pub fn message(&self) -> (r: String)
        ensures
            r@ == self@.text(),
    {
        match self {
            LookupError::NoFunction(name) => {
                let mut s: String = String::from_str("在 ELF 里没有找到函数 ");
                s.append(name.as_str());
                s
            },
            LookupError::NoCode(file, line) => {
                let mut s: String = String::from_str(file.as_str());
                s.append(":");
                s.append(dec_text(*line).as_str());
                s.append(" 没有对应的代码（检查文件名与行号）");
                s
            },
            LookupError::NoSource(file) => {
                let mut s: String = String::from_str("ELF 行号表里没有源文件 ");
                s.append(file.as_str());
                s
            },
        }
    }
}

/// Where the code of an image lies.
#[derive(Debug)]
pub struct CodeMap {
    /// Its symbols.
    pub symbols: Vec<CodeSymbol<String>>,
    /// The rows of its line programs.
    pub rows: Vec<SourceRow<String>>,
}

/// What a [`CodeMap`] holds.
pub struct CodeMapData {
    pub symbols: Seq<CodeSymbol<Seq<char>>>,
    pub rows: Seq<SourceRow<Seq<char>>>,
}

impl View for CodeMap {
    type V = CodeMapData;

    open spec fn view(&self) -> CodeMapData {
        CodeMapData { symbols: symbol_views(self.symbols@), rows: row_views(self.rows@) }
    }
}

/// The map of an image, or why there is none.
pub open spec fn code_map_of(data: Seq<u8>) -> Result<CodeMapData, Seq<char>> {
    match symbol_table(data) {
        Err(t) => Err(t),
        Ok(symbols) => match elf_endianness(data) {
            Err(t) => Err(t),
            Ok(little) => Ok(
                CodeMapData { symbols, rows: placed_rows(debug_sections(data, little), 0) },
            ),
        },
    }
}

impl CodeMapData {
    /// What is known of the code at an address.
    pub open spec fn spot(self, pc: u64) -> Spot<Seq<char>> {
        Spot { function: function_around(self.symbols, pc, 0), place: line_at(self.rows, pc) }
    }

    /// The address of a function.
    pub open spec fn function_address(self, name: Seq<char>) -> Result<
        u64,
        LookupError<Seq<char>>,
    > {
        match function_named(self.symbols, name, 0) {
            Some(a) => Ok(a),
            None => Err(LookupError::NoFunction(name)),
        }
    }

    /// The address of a source line.
    pub open spec fn line_address(self, file: Seq<char>, line: u64) -> Result<
        u64,
        LookupError<Seq<char>>,
    > {
        match lowest_start(self.rows, file, line, self.rows.len() as int) {
            Some(a) => Ok(a),
            None => Err(LookupError::NoCode(file, line)),
        }
    }

    /// The path of a source file.
    pub open spec fn source_path(self, file: Seq<char>) -> Result<
        Seq<char>,
        LookupError<Seq<char>>,
    > {
        match source_named(self.rows, file, 0) {
            Some(p) => Ok(p),
            None => Err(LookupError::NoSource(file)),
        }
    }
}

/// The view of a lookup for an address.
pub open spec fn address_result(r: Result<u64, LookupError<String>>) -> Result<
    u64,
    LookupError<Seq<char>>,
> {
    match r {
        Ok(a) => Ok(a),
        Err(e) => Err(e@),
    }
}

impl CodeMap {
    /// Reads the map of an image.
    pub fn load(data: &[u8]) -> (r: Result<CodeMap, String>)
        ensures
            match r {
                Ok(m) => code_map_of(data@) == Ok::<_, Seq<char>>(m@),
                Err(t) => code_map_of(data@) == Err::<CodeMapData, _>(t@),
            },
    {
        let symbols: Vec<CodeSymbol<String>> = match elf_symbols(data) {
            Ok(v) => v,
            Err(t) => {
                return Err(t);
            },
        };
        match load_debug_sections(data) {
            Err(t) => Err(t),
            Ok(s) => {
                let rows: Vec<SourceRow<String>> = load_rows(&s);
                Ok(CodeMap { symbols, rows })
            },
        }
    }

    /// The function that holds an address.
    pub fn function_name_at(&self, pc: u64) -> (r: Option<String>)
        ensures
            opt_text(r) == function_around(self@.symbols, pc, 0),
    {
        let ghost all = self@.symbols;
        let mut i: usize = 0;
        while i < self.symbols.len()
            invariant
                i <= self.symbols@.len(),
                all == symbol_views(self.symbols@),
                function_around(all, pc, 0) == function_around(all, pc, i as int),
            decreases self.symbols@.len() - i,
        {
            let f: &CodeSymbol<String> = &self.symbols[i];
            assert(all[i as int] == f@);
            if f.code {
                if let Some(name) = &f.name {
                    let start: u64 = clear_thumb(f.address);
                    let here: u64 = clear_thumb(pc);
                    if start <= here && here - start < f.size {
                        return Some(String::from_str(name.as_str()));
                    }
                }
            }
            i += 1;
        }
        None
    }

    /// The source line that an address belongs to.
    pub fn address_to_line(&self, pc: u64) -> (r: Option<(String, u64)>)
        ensures
            match r {
                Some(p) => line_at(self@.rows, pc) == Some((p.0@, p.1)),
                None => line_at(self@.rows, pc) is None,
            },
    {
        let ghost all = self@.rows;
        let mut i: usize = 0;
        while i < self.rows.len()
            invariant
                i <= self.rows@.len(),
                all == row_views(self.rows@),
                covering(all, pc, 0) == covering(all, pc, i as int),
            decreases self.rows@.len() - i,
        {
            assert(all[i as int] == self.rows@[i as int]@);
            if i + 1 < self.rows.len() {
                assert(all[i + 1] == self.rows@[i + 1]@);
                if !self.rows[i].end && self.rows[i].address <= pc && pc < self.rows[i + 1].address {
                    return match &self.rows[i].place {
                        Some(p) => Some((String::from_str(p.0.as_str()), p.1)),
                        None => None,
                    };
                }
            }
            i += 1;
        }
        None
    }

    /// What is known of the code at an address.
    pub fn spot(&self, pc: u64) -> (r: Spot<String>)
        ensures
            r@ == self@.spot(pc),
    {
        Spot { function: self.function_name_at(pc), place: self.address_to_line(pc) }
    }

    /// The address of a function, without the Thumb bit.
    pub fn code_symbol_address(&self, name: &str) -> (r: Result<u64, LookupError<String>>)
        ensures
            address_result(r) == self@.function_address(name@),
    {
        let ghost all = self@.symbols;
        let mut i: usize = 0;
        while i < self.symbols.len()
            invariant
                i <= self.symbols@.len(),
                all == symbol_views(self.symbols@),
                function_named(all, name@, 0) == function_named(all, name@, i as int),
            decreases self.symbols@.len() - i,
        {
            let f: &CodeSymbol<String> = &self.symbols[i];
            assert(all[i as int] == f@);
            if f.code {
                if let Some(t) = &f.name {
                    if same_text(t.as_str(), name) {
                        return Ok(clear_thumb(f.address));
                    }
                }
            }
            i += 1;
        }
        Err(LookupError::NoFunction(String::from_str(name)))
    }

    /// The address of a source line.
    pub fn line_to_address(&self, file: &str, line: u64) -> (r: Result<u64, LookupError<String>>)
        ensures
            address_result(r) == self@.line_address(file@, line),
    {
        let ghost all = self@.rows;
        let mut found: Option<u64> = None;
        let mut i: usize = 0;
        while i < self.rows.len()
            invariant
                i <= self.rows@.len(),
                all == row_views(self.rows@),
                found == lowest_start(all, file@, line, i as int),
            decreases self.rows@.len() - i,
        {
            let row: &SourceRow<String> = &self.rows[i];
            assert(all[i as int] == row@);
            if !row.end {
                if let Some(p) = &row.place {
                    if p.1 == line && is_named(p.0.as_str(), file) {
                        match found {
                            Some(a) => {
                                if row.address < a {
                                    found = Some(row.address);
                                }
                            },
                            None => {
                                found = Some(row.address);
                            },
                        }
                    }
                }
            }
            i += 1;
        }
        match found {
            Some(a) => Ok(a),
            None => Err(LookupError::NoCode(String::from_str(file), line)),
        }
    }

    /// The path of the source file that `file` names.
    pub fn resolve_source_path(&self, file: &str) -> (r: Result<String, LookupError<String>>)
        ensures
            match r {
                Ok(p) => self@.source_path(file@) == Ok::<_, LookupError<Seq<char>>>(p@),
                Err(e) => self@.source_path(file@) == Err::<Seq<char>, _>(e@),
            },
    {
        let ghost all = self@.rows;
        let mut i: usize = 0;
        while i < self.rows.len()
            invariant
                i <= self.rows@.len(),
                all == row_views(self.rows@),
                source_named(all, file@, 0) == source_named(all, file@, i as int),
            decreases self.rows@.len() - i,
        {
            assert(all[i as int] == self.rows@[i as int]@);
            if let Some(p) = &self.rows[i].place {
                if is_named(p.0.as_str(), file) {
                    return Ok(String::from_str(p.0.as_str()));
                }
            }
            i += 1;
        }
        Err(LookupError::NoSource(String::from_str(file)))
    }
}

/// A line that has code is where a search for it leads: code of that line starts
/// at the address found, and none starts lower.
pub proof fn law_line_address_is_its_lowest(
    rows: Seq<SourceRow<Seq<char>>>,
    file: Seq<char>,
    line: u64,
)
    ensures
        match lowest_start(rows, file, line, rows.len() as int) {
            Some(a) => {
                &&& exists|i: int|
                    0 <= i < rows.len() && starts_line(#[trigger] rows[i], file, line)
                        && rows[i].address == a
                &&& forall|i: int|
                    0 <= i < rows.len() && starts_line(#[trigger] rows[i], file, line) ==> a
                        <= rows[i].address
            },
            None => forall|i: int|
                0 <= i < rows.len() ==> !starts_line(#[trigger] rows[i], file, line),
        },
{
    lemma_lowest(rows, file, line, rows.len() as int);
}

proof fn lemma_lowest(rows: Seq<SourceRow<Seq<char>>>, file: Seq<char>, line: u64, n: int)
    requires
        0 <= n <= rows.len(),
    ensures
        match lowest_start(rows, file, line, n) {
            Some(a) => {
                &&& exists|i: int|
                    0 <= i < n && starts_line(#[trigger] rows[i], file, line) && rows[i].address
                        == a
                &&& forall|i: int|
                    0 <= i < n && starts_line(#[trigger] rows[i], file, line) ==> a
                        <= rows[i].address
            },
            None => forall|i: int| 0 <= i < n ==> !starts_line(#[trigger] rows[i], file, line),
        },
    decreases n,
{
    if n > 0 {
        lemma_lowest(rows, file, line, n - 1);
        if starts_line(rows[n - 1], file, line) {
            assert(rows[n - 1].address == rows[n - 1].address);
        }
    }
}

// ---------------------------------------------------------------------------
// The rows of all units
// ---------------------------------------------------------------------------

/// Whether `row` is row number `k` of the line program of a unit, with its place:
/// the path of its file and its line, where it has both.
pub open spec fn is_unit_row(
    s: SectionData,
    unit: usize,
    k: int,
    row: SourceRow<Seq<char>>,
) -> bool {
    &&& unit_rows(s, unit) matches Some(rows)
    &&& 0 <= k < rows.len()
    &&& row.address == rows[k].address
    &&& row.end == rows[k].end
    &&& match (row.place, unit_file(s, unit, rows[k].file)) {
        (Some(place), Some(f)) => place.0 == file_path(f) && place.1 == rows[k].line && place.1
            != 0,
        (Some(_), None) => false,
        (None, Some(_)) => rows[k].line == 0,
        (None, None) => true,
    }
}

/// The map of an image holds the rows of every unit of `.debug_info`, whichever
/// unit it is.
pub proof fn law_rows_of_every_unit_are_mapped(
    data: Seq<u8>,
    map: CodeMapData,
    little: bool,
    units: Seq<usize>,
    u: int,
    k: int,
)
    requires
        code_map_of(data) == Ok::<_, Seq<char>>(map),
        elf_endianness(data) == Ok::<_, Seq<char>>(little),
        units_in_order(debug_sections(data, little), units),
        0 <= u < units.len(),
        turnable(unit_advances(debug_sections(data, little), units[u])),
        unit_rows(debug_sections(data, little), units[u]) matches Some(rows) && 0 <= k < rows.len(),
    ensures
        exists|j: int|
            0 <= j < map.rows.len() && is_unit_row(
                debug_sections(data, little),
                units[u],
                k,
                #[trigger] map.rows[j],
            ),
{
    let s = debug_sections(data, little);
    let j = lemma_unit_rows_mapped(s, 0, units, u, k);
    assert(is_unit_row(s, units[u], k, map.rows[j]));
}

proof fn lemma_unit_rows_mapped(
    s: SectionData,
    at: usize,
    units: Seq<usize>,
    u: int,
    k: int,
) -> (j: int)
    requires
        units_from(s, at, units),
        0 <= u < units.len(),
        turnable(unit_advances(s, units[u])),
        unit_rows(s, units[u]) matches Some(rows) && 0 <= k < rows.len(),
    ensures
        0 <= j < placed_rows(s, at).len(),
        is_unit_row(s, units[u], k, placed_rows(s, at)[j]),
    decreases units.len(),
{
    assert(unit_head_at(s, units[0]) is Ok);
    let here = unit_places(s, at);
    if u == 0 {
        assert(here[k] == placed(s, at, unit_rows(s, at)->0[k]));
        assert(placed_rows(s, at)[k] == here[k]);
        k
    } else {
        lemma_units_behind(s, at, units);
        let rest = units.drop_first();
        assert(rest[u - 1] == units[u]);
        let i = lemma_unit_rows_mapped(s, units[1], rest, u - 1, k);
        assert(placed_rows(s, at) == here + placed_rows(s, units[1]));
        assert(placed_rows(s, at)[here.len() + i] == placed_rows(s, units[1])[i]);
        here.len() + i
    }
}

/// The rows of a map come from the line programs of the units, and from nowhere
/// else.
pub proof fn law_mapped_rows_come_from_units(s: SectionData, j: int)
    requires
        0 <= j < placed_rows(s, 0).len(),
    ensures
        exists|units: Seq<usize>, k: int|
            #![trigger units_in_order(s, units), is_unit_row(
                s,
                units.last(),
                k,
                placed_rows(s, 0)[j],
            )]
            units_in_order(s, units) && is_unit_row(s, units.last(), k, placed_rows(s, 0)[j]),
{
    let (units, k) = lemma_row_has_unit(s, 0, j);
    assert(units_in_order(s, units));
}

proof fn lemma_row_has_unit(s: SectionData, at: usize, j: int) -> (r: (Seq<usize>, int))
    requires
        0 <= j < placed_rows(s, at).len(),
    ensures
        units_from(s, at, r.0),
        is_unit_row(s, r.0.last(), r.1, placed_rows(s, at)[j]),
    decreases bytes_left(at, section_bytes(s.parts, ".debug_info"@).len() as int),
{
    let here = unit_places(s, at);
    let head = unit_head_at(s, at)->Ok_0;
    if j < here.len() {
        assert(placed_rows(s, at)[j] == here[j]);
        assert(here[j] == placed(s, at, unit_rows(s, at)->0[j]));
        (seq![at], j)
    } else {
        let next = (at + head.size) as usize;
        assert(placed_rows(s, at)[j] == placed_rows(s, next)[j - here.len()]);
        let (rest, k) = lemma_row_has_unit(s, next, j - here.len());
        lemma_unit_in_front(s, at, rest);
        (seq![at] + rest, k)
    }
}

/// A source line that has code in some unit can be looked up: the address found is
/// no higher than that of any row of that line.
pub proof fn law_lines_of_every_unit_are_found(
    data: Seq<u8>,
    map: CodeMapData,
    little: bool,
    units: Seq<usize>,
    u: int,
    k: int,
    path: Seq<char>,
    file: Seq<char>,
    line: u64,
)
    requires
        code_map_of(data) == Ok::<_, Seq<char>>(map),
        elf_endianness(data) == Ok::<_, Seq<char>>(little),
        units_in_order(debug_sections(data, little), units),
        0 <= u < units.len(),
        turnable(unit_advances(debug_sections(data, little), units[u])),
        unit_rows(debug_sections(data, little), units[u]) matches Some(rows) && {
            &&& 0 <= k < rows.len()
            &&& !rows[k].end
            &&& rows[k].line == line
            &&& unit_file(debug_sections(data, little), units[u], rows[k].file) matches Some(f)
            &&& path == file_path(f)
        },
        line != 0,
        names_file(path, file),
    ensures
        map.line_address(file, line) matches Ok(a) && a <= (unit_rows(
            debug_sections(data, little),
            units[u],
        )->0[k]).address,
{
    let s = debug_sections(data, little);
    let j = lemma_unit_rows_mapped(s, 0, units, u, k);
    assert(is_unit_row(s, units[u], k, map.rows[j]));
    law_line_address_is_its_lowest(map.rows, file, line);
    assert(starts_line(map.rows[j], file, line));
}

// ---------------------------------------------------------------------------
// What is at an address, and where a name is
// ---------------------------------------------------------------------------

/// Whether row `i` is the one that an address belongs to by its neighbour: it is
/// not the mark of an end, and the address lies from it on, before the next row.
pub open spec fn lies_in(rows: Seq<SourceRow<Seq<char>>>, i: int, pc: u64) -> bool {
    &&& 0 <= i < rows.len() - 1
    &&& !rows[i].end
    &&& rows[i].address <= pc
    &&& pc < rows[i + 1].address
}

/// An address has the place of the first row that it lies in, and none where it
/// lies in no row.
pub proof fn law_addresses_have_the_line_of_their_row(
    rows: Seq<SourceRow<Seq<char>>>,
    pc: u64,
    i: int,
)
    ensures
        lies_in(rows, i, pc) && (forall|j: int| 0 <= j < i ==> !#[trigger] lies_in(rows, j, pc))
            ==> line_at(rows, pc) == rows[i].place,
        (forall|j: int| 0 <= j < rows.len() ==> !#[trigger] lies_in(rows, j, pc)) ==> line_at(
            rows,
            pc,
        ) is None,
{
    if lies_in(rows, i, pc) && (forall|j: int| 0 <= j < i ==> !#[trigger] lies_in(rows, j, pc)) {
        lemma_covering(rows, pc, 0, i);
    }
    if forall|j: int| 0 <= j < rows.len() ==> !#[trigger] lies_in(rows, j, pc) {
        lemma_covering(rows, pc, 0, rows.len() as int);
    }
}

proof fn lemma_covering(rows: Seq<SourceRow<Seq<char>>>, pc: u64, from: int, to: int)
    requires
        0 <= from <= to <= rows.len(),
        forall|j: int| from <= j < to ==> !#[trigger] lies_in(rows, j, pc),
    ensures
        covering(rows, pc, from) == covering(rows, pc, to),
    decreases to - from,
{
    if from < to {
        assert(!lies_in(rows, from, pc));
        lemma_covering(rows, pc, from + 1, to);
    }
}

/// Whether a symbol is a named function whose instructions lie around an address.
/// The lowest bit of an address does not count.
pub open spec fn runs_at(f: CodeSymbol<Seq<char>>, pc: u64) -> bool {
    &&& f.code
    &&& f.name is Some
    &&& f.address / 2 <= pc / 2
    &&& 2 * (pc / 2) < 2 * (f.address / 2) + f.size
}

/// An address belongs to the first function around it, and to none where there is
/// none.
pub proof fn law_addresses_belong_to_their_function(
    symbols: Seq<CodeSymbol<Seq<char>>>,
    pc: u64,
    i: int,
)
    ensures
        0 <= i < symbols.len() && runs_at(symbols[i], pc) && (forall|j: int|
            0 <= j < i ==> !#[trigger] runs_at(symbols[j], pc)) ==> function_around(symbols, pc, 0)
            == symbols[i].name,
        (forall|j: int| 0 <= j < symbols.len() ==> !#[trigger] runs_at(symbols[j], pc))
            ==> function_around(symbols, pc, 0) is None,
{
    if 0 <= i < symbols.len() && (forall|j: int|
        0 <= j < i ==> !#[trigger] runs_at(symbols[j], pc)) {
        lemma_function_around(symbols, pc, 0, i);
    }
    if forall|j: int| 0 <= j < symbols.len() ==> !#[trigger] runs_at(symbols[j], pc) {
        lemma_function_around(symbols, pc, 0, symbols.len() as int);
    }
}

proof fn lemma_function_around(symbols: Seq<CodeSymbol<Seq<char>>>, pc: u64, from: int, to: int)
    requires
        0 <= from <= to <= symbols.len(),
        forall|j: int| from <= j < to ==> !#[trigger] runs_at(symbols[j], pc),
    ensures
        function_around(symbols, pc, from) == function_around(symbols, pc, to),
    decreases to - from,
{
    if from < to {
        assert(!runs_at(symbols[from], pc));
        lemma_function_around(symbols, pc, from + 1, to);
    }
}

/// A function is where the first code symbol of its name is, at an even address;
/// a name that no code symbol has is not found.
pub proof fn law_functions_are_found_by_name(
    map: CodeMapData,
    name: Seq<char>,
    i: int,
)
    ensures
        0 <= i < map.symbols.len() && map.symbols[i].code && map.symbols[i].name == Some(name) && (
        forall|j: int|
            0 <= j < i ==> !(#[trigger] map.symbols[j]).code || map.symbols[j].name != Some(name))
            ==> map.function_address(name) == Ok::<_, LookupError<Seq<char>>>(
            (map.symbols[i].address - map.symbols[i].address % 2) as u64,
        ),
        (forall|j: int|
            0 <= j < map.symbols.len() ==> !(#[trigger] map.symbols[j]).code || map.symbols[j].name
                != Some(name)) ==> map.function_address(name) == Err::<u64, _>(
            LookupError::NoFunction(name),
        ),
{
    let symbols = map.symbols;
    if 0 <= i < symbols.len() && (forall|j: int|
        0 <= j < i ==> !(#[trigger] symbols[j]).code || symbols[j].name != Some(name)) {
        lemma_function_named(symbols, name, 0, i);
    }
    if forall|j: int|
        0 <= j < symbols.len() ==> !(#[trigger] symbols[j]).code || symbols[j].name != Some(name) {
        lemma_function_named(symbols, name, 0, symbols.len() as int);
    }
}

proof fn lemma_function_named(
    symbols: Seq<CodeSymbol<Seq<char>>>,
    name: Seq<char>,
    from: int,
    to: int,
)
    requires
        0 <= from <= to <= symbols.len(),
        forall|j: int|
            from <= j < to ==> !(#[trigger] symbols[j]).code || symbols[j].name != Some(name),
    ensures
        function_named(symbols, name, from) == function_named(symbols, name, to),
    decreases to - from,
{
    if from < to {
        assert(!symbols[from].code || symbols[from].name != Some(name));
        lemma_function_named(symbols, name, from + 1, to);
    }
}

/// A source file goes by its whole path and by its last parts, and by nothing that
/// starts in the middle of a part.
pub proof fn law_files_go_by_their_last_parts(
    front: Seq<char>,
    separator: char,
    file: Seq<char>,
    other: Seq<char>,
)
    ensures
        names_file(file, file),
        separator == '/' || separator == '\\' ==> names_file(
            front.push(separator) + file,
            file,
        ),
        separator != '/' && separator != '\\' ==> !names_file(front.push(separator) + file, file),
        names_file(other, file) ==> other.len() >= file.len() && other.skip(
            other.len() - file.len(),
        ) == file,
{
    let path = front.push(separator) + file;
    assert(path.skip(path.len() - file.len()) =~= file);
    assert(path[path.len() - file.len() - 1] == separator);
    assert(other.skip(0) =~= other);
}

/// The path of a source file: an absolute name stands for itself, a relative one
/// stands below its directory, and that below the directory of the compilation
/// unless it is absolute itself.
pub proof fn law_source_paths(f: FileName<Seq<char>>, d: Seq<char>, b: Seq<char>)
    requires
        f.directory == Some(d),
        f.base == Some(b),
    ensures
        f.name.len() > 0 && f.name[0] == '/' ==> file_path(f) == f.name,
        f.name.len() > 1 && f.name[1] == ':' ==> file_path(f) == f.name,
        f.name.len() > 1 && f.name[0] != '/' && f.name[0] != '\\' && f.name[1] != ':' ==> {
            &&& d.len() > 0 && d[0] == '/' ==> file_path(f) == d.push('/') + f.name
            &&& d.len() > 1 && d[1] == ':' ==> file_path(f) == d.push('/') + f.name
            &&& d.len() > 1 && d[0] != '/' && d[0] != '\\' && d[1] != ':' ==> file_path(f)
                == b.push('/') + d.push('/') + f.name
        },
{
    reveal_strlit("/");
    assert(below(d, f.name) =~= d.push('/') + f.name);
    assert(below(b, below(d, f.name)) =~= b.push('/') + d.push('/') + f.name);
}

/// A source file that some row names by that name has its path found: that of the
/// first such row.
pub proof fn law_source_files_are_found(map: CodeMapData, file: Seq<char>, i: int)
    requires
        0 <= i < map.rows.len(),
        map.rows[i].place matches Some(p) && names_file(p.0, file),
        forall|j: int|
            0 <= j < i ==> ((#[trigger] map.rows[j]).place matches Some(p) ==> !names_file(
                p.0,
                file,
            )),
    ensures
        map.source_path(file) == Ok::<_, LookupError<Seq<char>>>((map.rows[i].place->0).0),
{
    lemma_source_named(map.rows, file, 0, i);
}

proof fn lemma_source_named(
    rows: Seq<SourceRow<Seq<char>>>,
    file: Seq<char>,
    from: int,
    to: int,
)
    requires
        0 <= from <= to < rows.len(),
        forall|j: int|
            from <= j < to ==> ((#[trigger] rows[j]).place matches Some(p) ==> !names_file(
                p.0,
                file,
            )),
    ensures
        source_named(rows, file, from) == source_named(rows, file, to),
    decreases to - from,
{
    if from < to {
        assert(rows[from].place matches Some(p) ==> !names_file(p.0, file));
        lemma_source_named(rows, file, from + 1, to);
    }
}

/// What is stated of an address that was looked up is stated of the address that
/// is handed out, and what is stated of a map of all its rows and symbols.
pub proof fn law_maps_are_seen_whole(m: CodeMap, r: Result<u64, LookupError<String>>, i: int)
    ensures
        match r {
            Ok(a) => address_result(r) == Ok::<_, LookupError<Seq<char>>>(a),
            Err(e) => address_result(r) == Err::<u64, _>(e@),
        },
        m@.rows.len() == m.rows@.len(),
        m@.symbols.len() == m.symbols@.len(),
        0 <= i < m.rows@.len() ==> {
            &&& m@.rows[i].address == m.rows@[i].address
            &&& m@.rows[i].end == m.rows@[i].end
            &&& match m.rows@[i].place {
                Some(p) => m@.rows[i].place == Some((p.0@, p.1)),
                None => m@.rows[i].place is None,
            }
        },
        0 <= i < m.symbols@.len() ==> {
            &&& m@.symbols[i].address == m.symbols@[i].address
            &&& m@.symbols[i].size == m.symbols@[i].size
            &&& m@.symbols[i].code == m.symbols@[i].code
        },
{
}

/// The map of an image holds all symbols of the image, in their order.
pub proof fn law_all_symbols_are_mapped(data: Seq<u8>, map: CodeMapData)
    requires
        code_map_of(data) == Ok::<_, Seq<char>>(map),
    ensures
        symbol_table(data) == Ok::<_, Seq<char>>(map.symbols),
{
}

/// The address that is found for a line is that of a row of that line.
pub proof fn law_lines_and_addresses_agree(map: CodeMapData, file: Seq<char>, line: u64, a: u64)
    requires
        map.line_address(file, line) == Ok::<_, LookupError<Seq<char>>>(a),
    ensures
        exists|i: int|
            0 <= i < map.rows.len() && (#[trigger] map.rows[i]).address == a && !map.rows[i].end
                && (map.rows[i].place matches Some(p) && p.1 == line && names_file(p.0, file)),
{
    law_line_address_is_its_lowest(map.rows, file, line);
    let i = choose|i: int|
        0 <= i < map.rows.len() && starts_line(#[trigger] map.rows[i], file, line)
            && map.rows[i].address == a;
    assert(map.rows[i].address == a);
}

}
