//! Debug information as plain values.
//!
//! The `object` crate finds the sections of an ELF file and the `gimli` crate
//! decodes them. Both are called here, one step at a time, and what they hand
//! out is turned into plain values that the rest of the library reads.
use vstd::prelude::*;
use gimli::AttributeValue::{Addr, Encoding, Exprloc, UnitRef};
use gimli::RunTimeEndian::{Big, Little};
use gimli::{
    DebugInfoOffset, Dwarf, EndianSlice, Error, Expression, Format, Operation, SectionId,
    UnitOffset,
};
use object::{Object, ObjectSection};
use crate::text::same_text;

verus! {

// ---------------------------------------------------------------------------
// Sections
// ---------------------------------------------------------------------------

/// The debug sections of an ELF file.
#[derive(Debug)]
pub struct DebugSections {
    /// Whether the file is little endian.
    pub little: bool,
    /// The name and the bytes of each section.
    pub parts: Vec<(String, Vec<u8>)>,
}

/// What [`DebugSections`] holds.
pub struct SectionData {
    pub little: bool,
    pub parts: Seq<(Seq<char>, Seq<u8>)>,
}

/// The names and bytes of a list of sections.
pub open spec fn part_views(parts: Seq<(String, Vec<u8>)>) -> Seq<(Seq<char>, Seq<u8>)> {
    parts.map_values(|p: (String, Vec<u8>)| (p.0@, p.1@))
}

impl View for DebugSections {
    type V = SectionData;

    open spec fn view(&self) -> SectionData {
        SectionData { little: self.little, parts: part_views(self.parts@) }
    }
}

/// The bytes of the section called `name`; an absent section is empty.
pub open spec fn section_bytes(parts: Seq<(Seq<char>, Seq<u8>)>, name: Seq<char>) -> Seq<u8>
    decreases parts.len(),
{
    if parts.len() == 0 {
        Seq::empty()
    } else if parts[0].0 == name {
        parts[0].1
    } else {
        section_bytes(parts.drop_first(), name)
    }
}

impl DebugSections {
    /// The bytes of the section called `name`; an absent section is empty.
    pub fn get(&self, name: &str) -> (r: &[u8])
        ensures
            r@ == section_bytes(self@.parts, name@),
    {
        let ghost all = part_views(self.parts@);
        let mut i: usize = 0;
        assert(all.skip(0) =~= all);
        while i < self.parts.len()
            invariant
                i <= self.parts.len(),
                all == part_views(self.parts@),
                section_bytes(all, name@) == section_bytes(all.skip(i as int), name@),
            decreases self.parts.len() - i,
        {
            assert(all.skip(i as int)[0] == (self.parts@[i as int].0@, self.parts@[i as int].1@));
            assert(all.skip(i as int).drop_first() =~= all.skip(i + 1));
            if same_text(self.parts[i].0.as_str(), name) {
                return self.parts[i].1.as_slice();
            }
            i += 1;
        }
        let none: &[u8] = &[];
        assert(none@ =~= Seq::empty());
        none
    }
}

/// What the `object` crate makes of the file's byte order.
pub uninterp spec fn elf_endianness(data: Seq<u8>) -> Result<bool, Seq<char>>;

/// What the `object` crate finds in the section of that name.
pub uninterp spec fn elf_section_data(data: Seq<u8>, name: Seq<char>) -> Option<Seq<u8>>;

/// The view of a result whose error is a text.
pub open spec fn text_err<A>(r: Result<A, String>) -> Result<A, Seq<char>> {
    match r {
        Ok(a) => Ok(a),
        Err(e) => Err(e@),
    }
}

/// `object::File::parse` and `Object::is_little_endian`: the byte order of an
/// object file, or the wording of the error that `parse` gives. Claimed is that
/// the outcome depends on the bytes alone.
#[verifier::external_body]
pub(crate) fn elf_little_endian(data: &[u8]) -> (r: Result<bool, String>)
    ensures
        text_err(r) == elf_endianness(data@),
{
    match object::File::parse(data) {
        Ok(file) => Ok(file.is_little_endian()),
        Err(e) => Err(e.to_string()),
    }
}

/// `object::Object::section_by_name` and `ObjectSection::data`: the bytes of a
/// section, where the file can be parsed, has the section and its bytes can be
/// had. Claimed is that the outcome depends on the file and the name alone.
#[verifier::external_body]
fn elf_section(data: &[u8], name: &str) -> (r: Option<Vec<u8>>)
    ensures
        match r {
            Some(v) => elf_section_data(data@, name@) == Some(v@),
            None => elf_section_data(data@, name@) is None,
        },
{
    let file = object::File::parse(data).ok()?;
    let section = file.section_by_name(name)?;
    section.data().ok().map(|bytes| bytes.to_vec())
}

/// The sections that debug information is spread over.
pub open spec fn section_names() -> Seq<Seq<char>> {
    seq![
        ".debug_abbrev"@,
        ".debug_addr"@,
        ".debug_aranges"@,
        ".debug_info"@,
        ".debug_line"@,
        ".debug_line_str"@,
        ".debug_macinfo"@,
        ".debug_macro"@,
        ".debug_names"@,
        ".debug_str"@,
        ".debug_str_offsets"@,
        ".debug_types"@,
        ".debug_loc"@,
        ".debug_loclists"@,
        ".debug_ranges"@,
        ".debug_rnglists"@,
    ]
}

fn section_name(i: usize) -> (r: &'static str)
    requires
        i < 16,
    ensures
        r@ == section_names()[i as int],
{
    match i {
        0 => ".debug_abbrev",
        1 => ".debug_addr",
        2 => ".debug_aranges",
        3 => ".debug_info",
        4 => ".debug_line",
        5 => ".debug_line_str",
        6 => ".debug_macinfo",
        7 => ".debug_macro",
        8 => ".debug_names",
        9 => ".debug_str",
        10 => ".debug_str_offsets",
        11 => ".debug_types",
        12 => ".debug_loc",
        13 => ".debug_loclists",
        14 => ".debug_ranges",
        _ => ".debug_rnglists",
    }
}

/// The bytes of one section of a file; a section that is absent or cannot be
/// had is empty.
pub open spec fn section_or_empty(data: Seq<u8>, name: Seq<char>) -> Seq<u8> {
    match elf_section_data(data, name) {
        Some(bytes) => bytes,
        None => Seq::empty(),
    }
}

/// The debug sections of a file.
pub open spec fn debug_sections(data: Seq<u8>, little: bool) -> SectionData {
    SectionData {
        little,
        parts: section_names().map_values(|n: Seq<char>| (n, section_or_empty(data, n))),
    }
}

/// The bytes of the section called `name`; empty where there is none to be had.
pub fn load_section(data: &[u8], name: &str) -> (r: Vec<u8>)
    ensures
        r@ == section_or_empty(data@, name@),
{
    match elf_section(data, name) {
        Some(v) => v,
        None => Vec::new(),
    }
}

/// Loads the debug sections of an ELF file.
pub fn load_debug_sections(data: &[u8]) -> (r: Result<DebugSections, String>)
    ensures
        match r {
            Ok(s) => elf_endianness(data@) == Ok::<bool, Seq<char>>(s.little) && s@
                == debug_sections(data@, s.little),
            Err(e) => elf_endianness(data@) == Err::<bool, Seq<char>>(e@),
        },
{
    let little: bool = match elf_little_endian(data) {
        Ok(b) => b,
        Err(e) => {
            return Err(e);
        },
    };
    let mut parts: Vec<(String, Vec<u8>)> = Vec::new();
    let mut i: usize = 0;
    while i < 16
        invariant
            i <= 16,
            parts@.len() == i,
            forall|j: int|
                0 <= j < i ==> (#[trigger] parts@[j]).0@ == section_names()[j] && parts@[j].1@
                    == section_or_empty(data@, section_names()[j]),
        decreases 16 - i,
    {
        let name: &'static str = section_name(i);
        parts.push((String::from_str(name), load_section(data, name)));
        i += 1;
    }
    assert(part_views(parts@) =~= debug_sections(data@, little).parts);
    Ok(DebugSections { little, parts })
}

/// Every section that debug information may need is loaded as the file has it.
pub proof fn law_debug_sections_are_loaded(data: Seq<u8>, little: bool, name: Seq<char>)
    requires
        ({
            ||| name == ".debug_abbrev"@
            ||| name == ".debug_addr"@
            ||| name == ".debug_info"@
            ||| name == ".debug_line"@
            ||| name == ".debug_line_str"@
            ||| name == ".debug_str"@
            ||| name == ".debug_str_offsets"@
            ||| name == ".debug_types"@
            ||| name == ".debug_loc"@
            ||| name == ".debug_loclists"@
            ||| name == ".debug_ranges"@
            ||| name == ".debug_rnglists"@
        }),
    ensures
        debug_sections(data, little).little == little,
        match elf_section_data(data, name) {
            Some(bytes) => section_bytes(debug_sections(data, little).parts, name) == bytes,
            None => section_bytes(debug_sections(data, little).parts, name).len() == 0,
        },
{
    let names = section_names();
    let parts = debug_sections(data, little).parts;
    assert(names.contains(name)) by {
        assert(names[0] == ".debug_abbrev"@);
        assert(names[1] == ".debug_addr"@);
        assert(names[3] == ".debug_info"@);
        assert(names[4] == ".debug_line"@);
        assert(names[5] == ".debug_line_str"@);
        assert(names[9] == ".debug_str"@);
        assert(names[10] == ".debug_str_offsets"@);
        assert(names[11] == ".debug_types"@);
        assert(names[12] == ".debug_loc"@);
        assert(names[13] == ".debug_loclists"@);
        assert(names[14] == ".debug_ranges"@);
        assert(names[15] == ".debug_rnglists"@);
    }
    let i = choose|i: int| 0 <= i < names.len() && names[i] == name;
    assert(parts[i].0 == name);
    lemma_section_found(data, parts, name, i);
}

proof fn lemma_section_found(
    data: Seq<u8>,
    parts: Seq<(Seq<char>, Seq<u8>)>,
    name: Seq<char>,
    i: int,
)
    requires
        0 <= i < parts.len(),
        parts[i].0 == name,
        forall|j: int|
            0 <= j < parts.len() ==> (#[trigger] parts[j]).1 == section_or_empty(data, parts[j].0),
    ensures
        section_bytes(parts, name) == section_or_empty(data, name),
    decreases parts.len(),
{
    if parts[0].0 != name {
        let rest = parts.drop_first();
        assert(rest[i - 1] == parts[i]);
        assert forall|j: int| 0 <= j < rest.len() implies (#[trigger] rest[j]).1
            == section_or_empty(data, rest[j].0) by {
            assert(rest[j] == parts[j + 1]);
        }
        lemma_section_found(data, rest, name, i - 1);
    }
}

// ---------------------------------------------------------------------------
// Units and entries
// ---------------------------------------------------------------------------

/// The head of a unit of `.debug_info`.
#[derive(Debug, Clone, Copy, PartialEq, Eq, Structural)]
pub struct UnitHead {
    /// The bytes that the unit takes, its length field included.
    pub size: usize,
    /// The size of an address.
    pub address_size: u8,
    /// The DWARF version.
    pub version: u16,
    /// Whether offsets take eight bytes.
    pub dwarf64: bool,
}

/// What an attribute of an entry holds, as far as the library reads it. `B` is
/// the form in which bytes are held.
#[derive(Debug)]
pub enum AttrValue<B> {
    /// An address.
    Address(u64),
    /// The offset of another entry of the unit.
    Reference(usize),
    /// The encoding of a base type.
    TypeEncoding(u8),
    /// A location expression.
    Expression(B),
    /// Anything else.
    Plain,
}

impl View for AttrValue<Vec<u8>> {
    type V = AttrValue<Seq<u8>>;

    open spec fn view(&self) -> AttrValue<Seq<u8>> {
        match *self {
            AttrValue::Address(a) => AttrValue::Address(a),
            AttrValue::Reference(o) => AttrValue::Reference(o),
            AttrValue::TypeEncoding(e) => AttrValue::TypeEncoding(e),
            AttrValue::Expression(b) => AttrValue::Expression(b@),
            AttrValue::Plain => AttrValue::Plain,
        }
    }
}

/// An entry of a unit.
#[derive(Debug)]
pub struct Entry {
    /// Where it starts, from the start of the unit.
    pub offset: usize,
    /// What it describes.
    pub tag: u16,
    /// Which attributes it has, in order.
    pub attrs: Vec<u16>,
}

/// What an [`Entry`] holds.
pub struct EntryData {
    pub offset: usize,
    pub tag: u16,
    pub attrs: Seq<u16>,
}

impl View for Entry {
    type V = EntryData;

    open spec fn view(&self) -> EntryData {
        EntryData { offset: self.offset, tag: self.tag, attrs: self.attrs@ }
    }
}

/// One operation of a location expression.
#[derive(Debug, Clone, Copy, PartialEq, Eq, Structural)]
pub struct LocationOp {
    /// The address, where the operation is a constant address.
    pub address: Option<u64>,
    /// The bytes that the operation takes.
    pub len: usize,
}

/// The head of the unit at an offset of `.debug_info`, as `gimli` decodes it.
pub uninterp spec fn unit_head_at(s: SectionData, at: usize) -> Result<UnitHead, Seq<char>>;

/// Whether `gimli` can open the unit at an offset of `.debug_info`.
pub uninterp spec fn unit_opens(s: SectionData, at: usize) -> Result<(), Seq<char>>;

/// What stops `gimli`'s walk over the entries of a unit before its end, and the
/// entries up to there.
pub uninterp spec fn unit_entries_at(s: SectionData, unit: usize) -> (
    Option<Seq<char>>,
    Seq<EntryData>,
);

/// The entry of a unit at an offset, as `gimli` decodes it.
pub uninterp spec fn entry_exactly_at(s: SectionData, unit: usize, offset: usize) -> Result<
    EntryData,
    Seq<char>,
>;

/// The value of an attribute of an entry, as `gimli` decodes it.
pub uninterp spec fn attr_value_at(
    s: SectionData,
    unit: usize,
    entry: usize,
    attr: usize,
) -> Option<AttrValue<Seq<u8>>>;

/// The unsigned value of an attribute of an entry, as `gimli` decodes it.
pub uninterp spec fn attr_number_at(
    s: SectionData,
    unit: usize,
    entry: usize,
    attr: usize,
) -> Option<u64>;

/// The signed value of an attribute of an entry, as `gimli` decodes it.
pub uninterp spec fn attr_signed_at(
    s: SectionData,
    unit: usize,
    entry: usize,
    attr: usize,
) -> Option<i64>;

/// The offsets of the children of an entry, as `gimli` walks them.
pub uninterp spec fn children_at(s: SectionData, unit: usize, entry: usize) -> Seq<usize>;

/// The text of an attribute of an entry, as `gimli` finds it.
pub uninterp spec fn attr_text_at(
    s: SectionData,
    unit: usize,
    entry: usize,
    attr: usize,
) -> Result<Option<Seq<char>>, Seq<char>>;

/// The first operation of a location expression, as `gimli` decodes it.
pub uninterp spec fn first_operation(code: Seq<u8>, little: bool, unit: UnitHead) -> Option<
    LocationOp,
>;

/// `gimli::Dwarf::unit_header` on the given sections: the head of the unit at
/// offset `at` of `.debug_info`, or the wording of gimli's error. Claimed is
/// that the outcome depends on the sections and the offset alone, and that a
/// unit is not empty and ends inside the section.
#[verifier::external_body]
pub(crate) fn unit_head(s: &DebugSections, at: usize) -> (r: Result<UnitHead, String>)
    ensures
        text_err(r) == unit_head_at(s@, at),
        r matches Ok(h) ==> 0 < h.size && at + h.size <= section_bytes(
            s@.parts,
            ".debug_info"@,
        ).len(),
{
    let order = if s.little { Little } else { Big };
    let section = |id: SectionId| Ok::<_, Error>(EndianSlice::new(s.get(id.name()), order));
    let dwarf = Dwarf::load(section).map_err(|e| e.to_string())?;
    let head = dwarf.unit_header(DebugInfoOffset(at)).map_err(|e| e.to_string())?;
    Ok(UnitHead {
        size: head.length_including_self(),
        address_size: head.address_size(),
        version: head.version(),
        dwarf64: head.format() == Format::Dwarf64,
    })
}

/// `gimli::Dwarf::unit`: whether the unit at offset `at` can be opened, or the
/// wording of gimli's error. Claimed is that the outcome depends on the sections
/// and the offset alone.
#[verifier::external_body]
pub(crate) fn open_unit(s: &DebugSections, at: usize) -> (r: Result<(), String>)
    ensures
        text_err(r) == unit_opens(s@, at),
{
    let order = if s.little { Little } else { Big };
    let section = |id: SectionId| Ok::<_, Error>(EndianSlice::new(s.get(id.name()), order));
    let dwarf = Dwarf::load(section).map_err(|e| e.to_string())?;
    let head = dwarf.unit_header(DebugInfoOffset(at)).map_err(|e| e.to_string())?;
    dwarf.unit(head).map(|_unit| ()).map_err(|e| e.to_string())
}

/// The views of entries.
pub open spec fn entry_views(entries: Seq<Entry>) -> Seq<EntryData> {
    entries.map_values(|e: Entry| e@)
}

/// `gimli::EntriesCursor::next_dfs` until there is no further entry: the entries
/// of a unit in the order in which they stand, and the wording of gimli's error
/// where one ends the walk. Claimed is that the outcome depends on the sections
/// and the offset alone.
#[verifier::external_body]
pub(crate) fn unit_entries(s: &DebugSections, unit: usize) -> (r: (Option<String>, Vec<Entry>))
    ensures
        match r.0 {
            Some(t) => unit_entries_at(s@, unit).0 == Some(t@),
            None => unit_entries_at(s@, unit).0 is None,
        },
        entry_views(r.1@) == unit_entries_at(s@, unit).1,
{
    let mut found = Vec::new();
    let mut read = |order| {
        let dwarf = Dwarf::load(|id| Ok::<_, Error>(EndianSlice::new(s.get(id.name()), order)))?;
        let opened = dwarf.unit(dwarf.unit_header(DebugInfoOffset(unit))?)?;
        let mut walk = opened.entries();
        while let Some(e) = walk.next_dfs()? {
            found.push(Entry {
                offset: e.offset().0,
                tag: e.tag().0,
                attrs: e.attrs().iter().map(|a| a.name().0).collect()
            });
        }
        Ok(())
    };
    (read(if s.little { Little } else { Big }).err().as_ref().map(Error::to_string), found)
}

/// `gimli::Unit::entry`: the entry at offset `offset` of a unit, or the wording
/// of gimli's error. Claimed is that the outcome depends on the sections and the
/// offsets alone.
#[verifier::external_body]
pub(crate) fn entry_at(s: &DebugSections, unit: usize, offset: usize) -> (r: Result<
    Entry,
    String,
>)
    ensures
        match r {
            Ok(e) => entry_exactly_at(s@, unit, offset) == Ok::<_, Seq<char>>(e@),
            Err(t) => entry_exactly_at(s@, unit, offset) == Err::<EntryData, _>(t@),
        },
        r matches Ok(e) ==> e.offset == offset,
{
    let order = if s.little { Little } else { Big };
    let section = |id: SectionId| Ok::<_, Error>(EndianSlice::new(s.get(id.name()), order));
    let read = || {
        let dwarf = Dwarf::load(section)?;
        let opened = dwarf.unit(dwarf.unit_header(DebugInfoOffset(unit))?)?;
        let e = opened.entry(UnitOffset(offset))?;
        Ok(Entry {
            offset: e.offset().0,
            tag: e.tag().0,
            attrs: e.attrs().iter().map(|a| a.name().0).collect(),
        })
    };
    read().map_err(|e: Error| e.to_string())
}

/// `gimli::Attribute::value` of attribute number `attr` of the entry at an
/// offset of a unit. Claimed is that the outcome depends on the sections, the
/// offsets and the number alone. There is none where the entry cannot be read or
/// has fewer attributes.
#[verifier::external_body]
pub(crate) fn attr_value(s: &DebugSections, unit: usize, entry: usize, attr: usize) -> (r: Option<
    AttrValue<Vec<u8>>,
>)
    ensures
        match r {
            Some(v) => attr_value_at(s@, unit, entry, attr) == Some(v@),
            None => attr_value_at(s@, unit, entry, attr) is None,
        },
{
    let order = if s.little { Little } else { Big };
    let section = |id: SectionId| Ok::<_, Error>(EndianSlice::new(s.get(id.name()), order));
    let dwarf = Dwarf::load(section).ok()?;
    let opened = dwarf.unit(dwarf.unit_header(DebugInfoOffset(unit)).ok()?).ok()?;
    Some(match opened.entry(UnitOffset(entry)).ok()?.attrs().get(attr)?.value() {
        Addr(a) => AttrValue::Address(a),
        UnitRef(o) => AttrValue::Reference(o.0),
        Encoding(e) => AttrValue::TypeEncoding(e.0),
        Exprloc(x) => AttrValue::Expression(x.0.slice().to_vec()),
        _ => AttrValue::Plain,
    })
}

/// `gimli::AttributeValue::udata_value` of attribute number `attr` of the entry
/// at an offset of a unit: the value as an unsigned number. Claimed is that the
/// outcome depends on the sections, the offsets and the number alone.
#[verifier::external_body]
pub(crate) fn attr_number(s: &DebugSections, unit: usize, entry: usize, attr: usize) -> (r: Option<
    u64,
>)
    ensures
        r == attr_number_at(s@, unit, entry, attr),
{
    let order = if s.little { Little } else { Big };
    let section = |id: SectionId| Ok::<_, Error>(EndianSlice::new(s.get(id.name()), order));
    let dwarf = Dwarf::load(section).ok()?;
    let opened = dwarf.unit(dwarf.unit_header(DebugInfoOffset(unit)).ok()?).ok()?;
    opened.entry(UnitOffset(entry)).ok()?.attrs().get(attr)?.value().udata_value()
}

/// `gimli::AttributeValue::sdata_value` of attribute number `attr` of the entry
/// at an offset of a unit: the value as a signed number. Claimed is that the
/// outcome depends on the sections, the offsets and the number alone.
#[verifier::external_body]
pub(crate) fn attr_signed(s: &DebugSections, unit: usize, entry: usize, attr: usize) -> (r: Option<
    i64,
>)
    ensures
        r == attr_signed_at(s@, unit, entry, attr),
{
    let order = if s.little { Little } else { Big };
    let section = |id: SectionId| Ok::<_, Error>(EndianSlice::new(s.get(id.name()), order));
    let dwarf = Dwarf::load(section).ok()?;
    let opened = dwarf.unit(dwarf.unit_header(DebugInfoOffset(unit)).ok()?).ok()?;
    opened.entry(UnitOffset(entry)).ok()?.attrs().get(attr)?.value().sdata_value()
}

/// `gimli::EntriesTreeIter::next` on the tree of the entry at an offset of a
/// unit: the offsets of the children of that entry, in order, up to the first
/// that cannot be decoded. Claimed is that the outcome depends on the sections
/// and the offsets alone.
#[verifier::external_body]
pub(crate) fn child_offsets(s: &DebugSections, unit: usize, entry: usize) -> (r: Vec<usize>)
    ensures
        r@ == children_at(s@, unit, entry),
{
    let mut found = Vec::new();
    let mut read = || {
        let order = if s.little { Little } else { Big };
        let dwarf = Dwarf::load(|id| Ok::<_, Error>(EndianSlice::new(s.get(id.name()), order)))?;
        let opened = dwarf.unit(dwarf.unit_header(DebugInfoOffset(unit))?)?;
        let mut tree = opened.entries_tree(Some(UnitOffset(entry)))?;
        let mut children = tree.root()?.children();
        while let Some(child) = children.next()? {
            found.push(child.entry().offset().0);
        }
        Ok::<(), Error>(())
    };
    read().ok();
    found
}

/// `gimli::Dwarf::attr_string` and `Reader::to_string_lossy` of attribute number
/// `attr` of the entry at an offset of a unit: the text, or the wording of
/// gimli's error; no text where the entry has fewer attributes. Claimed is that
/// the outcome depends on the sections, the offsets and the number alone.
#[verifier::external_body]
pub(crate) fn attr_text(s: &DebugSections, unit: usize, entry: usize, attr: usize) -> (r: Result<
    Option<String>,
    String,
>)
    ensures
        match r {
            Ok(Some(t)) => attr_text_at(s@, unit, entry, attr) == Ok::<_, Seq<char>>(Some(t@)),
            Ok(None) => attr_text_at(s@, unit, entry, attr) == Ok::<Option<Seq<char>>, Seq<char>>(
                None,
            ),
            Err(t) => attr_text_at(s@, unit, entry, attr) == Err::<Option<Seq<char>>, _>(t@),
        },
{
    let order = if s.little { Little } else { Big };
    let section = |id: SectionId| Ok::<_, Error>(EndianSlice::new(s.get(id.name()), order));
    let read = || {
        let dwarf = Dwarf::load(section)?;
        let opened = dwarf.unit(dwarf.unit_header(DebugInfoOffset(unit))?)?;
        let Some(found) = opened.entry(UnitOffset(entry))?.attrs().get(attr).cloned() else {
            return Ok(None);
        };
        let text = dwarf.attr_string(&opened, found.value())?;
        Ok(Some(text.to_string_lossy().into_owned()))
    };
    read().map_err(|e: Error| e.to_string())
}

/// `gimli::OperationIter::next` on the expression `code`: its first operation,
/// where there is one and it can be decoded. Claimed is that the outcome depends
/// on the bytes, the byte order and the encoding parameters of the unit alone,
/// and that an operation takes at least one byte of those given.
#[verifier::external_body]
pub(crate) fn operation(code: &[u8], little: bool, unit: UnitHead) -> (r: Option<LocationOp>)
    ensures
        r == first_operation(code@, little, unit),
        r matches Some(op) ==> 0 < op.len <= code@.len(),
{
    let expression = Expression(EndianSlice::new(code, if little { Little } else { Big }));
    let mut operations = expression.operations(gimli::Encoding {
        address_size: unit.address_size,
        format: if unit.dwarf64 { Format::Dwarf64 } else { Format::Dwarf32 },
        version: unit.version,
    });
    let found = operations.next().ok()??;
    Some(LocationOp {
        address: if let Operation::Address { address } = found { Some(address) } else { None },
        len: operations.offset_from(&expression),
    })
}

}
