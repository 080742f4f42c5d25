//! Types out of debug information: what the entry of a variable's type, and the
//! entries that it refers to, amount to as a [`TypeDesc`].
use vstd::prelude::*;
use crate::dwarf::{
    attr_number, attr_number_at, attr_signed, attr_signed_at, attr_text, attr_text_at,
    attr_value_at, child_offsets, children_at, entry_at, entry_exactly_at, section_bytes,
    unit_head, unit_head_at, AttrValue, DebugSections, Entry, EntryData, SectionData,
};
use crate::layout::{
    members_leaves, members_sound, name_views, sound, type_size, EnumData, EnumType, Leaf, Member,
    ScalarData, ScalarType, TypeDesc,
};
use crate::likeness::{alike, lemma_alike_sizes, lemma_members_alike_sizes, members_alike};
use crate::symbol::{
    attr_index, base_type, chain_limit, find_attr, is_modifier, law_other_types_are_told_apart,
    leads_down, lemma_chain_behind, lemma_only_attr, lemma_reference, modifies, only_at, only_modifies, referred_type,
    resolve_base_type, type_reference, TypeError, AT_BYTE_SIZE, AT_NAME, TAG_TYPEDEF,
};

verus! {

pub const TAG_MEMBER: u16 = 0x0d;

pub const TAG_SUBRANGE: u16 = 0x21;

pub const TAG_ENUMERATOR: u16 = 0x28;

pub const AT_BIT_SIZE: u16 = 0x0d;

pub const AT_CONST_VALUE: u16 = 0x1c;

pub const AT_UPPER_BOUND: u16 = 0x2f;

pub const AT_COUNT: u16 = 0x37;

pub const AT_DATA_MEMBER_LOCATION: u16 = 0x38;

// ---------------------------------------------------------------------------
// Attributes
// ---------------------------------------------------------------------------

/// The number of the first attribute `name` of an entry.
pub open spec fn number_of(s: SectionData, unit: usize, e: EntryData, name: u16) -> Option<u64> {
    match attr_index(e.attrs, name, 0) {
        None => None,
        Some(k) => attr_number_at(s, unit, e.offset, k as usize),
    }
}

/// The name of an entry.
pub open spec fn name_of(s: SectionData, unit: usize, e: EntryData) -> Option<Seq<char>> {
    match attr_index(e.attrs, AT_NAME, 0) {
        None => None,
        Some(k) => match attr_text_at(s, unit, e.offset, k as usize) {
            Ok(t) => t,
            Err(_) => None,
        },
    }
}

fn read_number(s: &DebugSections, unit: usize, e: &Entry, name: u16) -> (r: Option<u64>)
    ensures
        r == number_of(s@, unit, e@, name),
{
    match find_attr(&e.attrs, name) {
        None => None,
        Some(k) => attr_number(s, unit, e.offset, k),
    }
}

/// The view of a text that may be missing.
pub open spec fn opt_text(t: Option<String>) -> Option<Seq<char>> {
    match t {
        Some(s) => Some(s@),
        None => None,
    }
}

fn read_name(s: &DebugSections, unit: usize, e: &Entry) -> (r: Option<String>)
    ensures
        opt_text(r) == name_of(s@, unit, e@),
{
    match find_attr(&e.attrs, AT_NAME) {
        None => None,
        Some(k) => match attr_text(s, unit, e.offset, k) {
            Ok(t) => t,
            Err(_) => None,
        },
    }
}

/// The entry at the end of a chain of modifiers, and the name of the outermost
/// typedef on the way there.
pub open spec fn chain_end(s: SectionData, unit: usize, at: usize, steps: nat) -> Option<
    (Option<Seq<char>>, EntryData),
>
    decreases steps,
{
    if steps == 0 {
        None
    } else {
        match entry_exactly_at(s, unit, at) {
            Err(_) => None,
            Ok(e) => if is_modifier(e.tag) {
                match type_reference(s, unit, e) {
                    None => None,
                    Some(next) => under(
                        typedef_name(s, unit, e),
                        chain_end(s, unit, next, (steps - 1) as nat),
                    ),
                }
            } else {
                Some((None, e))
            },
        }
    }
}

/// The name that an entry gives to what it leads to: only a typedef gives one.
pub open spec fn typedef_name(s: SectionData, unit: usize, e: EntryData) -> Option<Seq<char>> {
    if e.tag == TAG_TYPEDEF {
        name_of(s, unit, e)
    } else {
        None
    }
}

/// The end of a chain under an outer name, which hides the inner ones.
pub open spec fn under(
    outer: Option<Seq<char>>,
    end: Option<(Option<Seq<char>>, EntryData)>,
) -> Option<(Option<Seq<char>>, EntryData)> {
    match end {
        None => None,
        Some((inner, e)) => Some(
            (
                if outer is Some {
                    outer
                } else {
                    inner
                },
                e,
            ),
        ),
    }
}

/// The view of the end of a chain.
pub open spec fn end_view(r: Option<(Option<String>, Entry)>) -> Option<
    (Option<Seq<char>>, EntryData),
> {
    match r {
        None => None,
        Some((label, e)) => Some((opt_text(label), e@)),
    }
}

/// Follows a chain of modifiers to its end.
fn follow_chain(s: &DebugSections, unit: usize, offset: usize) -> (r: Option<
    (Option<String>, Entry),
>)
    ensures
        end_view(r) == chain_end(s@, unit, offset, chain_limit(s@)),
{
    let info: &[u8] = s.get(".debug_info");
    let mut left: u128 = info.len() as u128 + 1;
    let mut at: usize = offset;
    let mut label: Option<String> = None;
    while left > 0
        invariant
            chain_end(s@, unit, offset, chain_limit(s@)) == under(
                opt_text(label),
                chain_end(s@, unit, at, left as nat),
            ),
        decreases left,
    {
        let e: Entry = match entry_at(s, unit, at) {
            Ok(e) => e,
            Err(_) => {
                return None;
            },
        };
        if !modifies(e.tag) {
            return Some((label, e));
        }
        if label.is_none() && e.tag == TAG_TYPEDEF {
            label = read_name(s, unit, &e);
        }
        match referred_type(s, unit, &e) {
            None => {
                return None;
            },
            Some(next) => {
                at = next;
            },
        }
        left -= 1;
    }
    None
}

// ---------------------------------------------------------------------------
// Enumerations
// ---------------------------------------------------------------------------

/// The value that an entry gives a constant: an unsigned number, or else the
/// bits of a signed one.
pub open spec fn constant_of(s: SectionData, unit: usize, e: EntryData) -> Option<u64> {
    match attr_index(e.attrs, AT_CONST_VALUE, 0) {
        None => None,
        Some(k) => match attr_number_at(s, unit, e.offset, k as usize) {
            Some(n) => Some(n),
            None => match attr_signed_at(s, unit, e.offset, k as usize) {
                Some(n) => Some(n as u64),
                None => None,
            },
        },
    }
}

/// The value and the name of an enumerator; none where the entry is none or
/// lacks one of them.
pub open spec fn enumerator(s: SectionData, unit: usize, at: usize) -> Option<(u64, Seq<char>)> {
    match entry_exactly_at(s, unit, at) {
        Err(_) => None,
        Ok(e) => if e.tag == TAG_ENUMERATOR {
            match (constant_of(s, unit, e), name_of(s, unit, e)) {
                (Some(v), Some(name)) => Some((v, name)),
                _ => None,
            }
        } else {
            None
        },
    }
}

/// The enumerators among the first `n` entries.
pub open spec fn enumerators(s: SectionData, unit: usize, entries: Seq<usize>, n: nat) -> Seq<
    (u64, Seq<char>),
>
    decreases n,
{
    if n == 0 {
        Seq::empty()
    } else {
        let before = enumerators(s, unit, entries, (n - 1) as nat);
        match enumerator(s, unit, entries[n - 1]) {
            Some(x) => before.push(x),
            None => before,
        }
    }
}

/// The name of a type whose entry is `e` and that a typedef may name.
pub open spec fn label_of(
    s: SectionData,
    unit: usize,
    typedef: Option<Seq<char>>,
    e: EntryData,
) -> Seq<char> {
    match typedef {
        Some(n) => n,
        None => match name_of(s, unit, e) {
            Some(n) => n,
            None => "匿名"@,
        },
    }
}

/// The size of a type, `otherwise` where none is given.
pub open spec fn size_of(s: SectionData, unit: usize, e: EntryData, otherwise: u64) -> usize {
    match number_of(s, unit, e, AT_BYTE_SIZE) {
        Some(n) => n as usize,
        None => otherwise as usize,
    }
}

/// The enumeration whose entry is `e`.
pub open spec fn enumeration(
    s: SectionData,
    unit: usize,
    typedef: Option<Seq<char>>,
    e: EntryData,
) -> EnumData {
    let entries = children_at(s, unit, e.offset);
    EnumData {
        label: label_of(s, unit, typedef, e),
        size: size_of(s, unit, e, 4),
        names: enumerators(s, unit, entries, entries.len()),
    }
}

/// The size of an address in a unit; four bytes where the unit cannot be read.
pub open spec fn address_size_of(s: SectionData, unit: usize) -> u64 {
    match unit_head_at(s, unit) {
        Ok(h) => h.address_size as u64,
        Err(_) => 4,
    }
}

fn read_constant(s: &DebugSections, unit: usize, e: &Entry) -> (r: Option<u64>)
    ensures
        r == constant_of(s@, unit, e@),
{
    match find_attr(&e.attrs, AT_CONST_VALUE) {
        None => None,
        Some(k) => match attr_number(s, unit, e.offset, k) {
            Some(n) => Some(n),
            None => match attr_signed(s, unit, e.offset, k) {
                Some(n) => Some(n as u64),
                None => None,
            },
        },
    }
}

fn read_label(s: &DebugSections, unit: usize, typedef: Option<String>, e: &Entry) -> (r: String)
    ensures
        r@ == label_of(s@, unit, opt_text(typedef), e@),
{
    match typedef {
        Some(n) => n,
        None => match read_name(s, unit, e) {
            Some(n) => n,
            None => String::from_str("匿名"),
        },
    }
}

fn read_size(s: &DebugSections, unit: usize, e: &Entry, otherwise: u64) -> (r: usize)
    ensures
        r == size_of(s@, unit, e@, otherwise),
{
    match read_number(s, unit, e, AT_BYTE_SIZE) {
        Some(n) => n as usize,
        None => otherwise as usize,
    }
}

fn read_enumeration(s: &DebugSections, unit: usize, typedef: Option<String>, e: &Entry) -> (r:
    EnumType)
    ensures
        r@ == enumeration(s@, unit, opt_text(typedef), e@),
{
    let entries: Vec<usize> = child_offsets(s, unit, e.offset);
    let mut names: Vec<(u64, String)> = Vec::new();
    let mut i: usize = 0;
    assert(name_views(names@) =~= Seq::empty());
    while i < entries.len()
        invariant
            i <= entries@.len(),
            name_views(names@) == enumerators(s@, unit, entries@, i as nat),
        decreases entries@.len() - i,
    {
        if let Ok(c) = entry_at(s, unit, entries[i]) {
            if c.tag == TAG_ENUMERATOR {
                let value: Option<u64> = read_constant(s, unit, &c);
                let name: Option<String> = read_name(s, unit, &c);
                if let Some(v) = value {
                    if let Some(n) = name {
                        let ghost before = names@;
                        names.push((v, n));
                        assert(name_views(names@) =~= name_views(before).push((v, n@)));
                    }
                }
            }
        }
        i += 1;
    }
    EnumType { label: read_label(s, unit, typedef, e), size: read_size(s, unit, e, 4), names }
}

fn read_address_size(s: &DebugSections, unit: usize) -> (r: u64)
    ensures
        r == address_size_of(s@, unit),
{
    match unit_head(s, unit) {
        Ok(h) => h.address_size as u64,
        Err(_) => 4,
    }
}

// ---------------------------------------------------------------------------
// Arrays
// ---------------------------------------------------------------------------

/// The length that an entry gives a dimension of an array: a count, or one more
/// than the highest index; none at all for an open one.
pub open spec fn dimension(s: SectionData, unit: usize, e: EntryData) -> usize {
    match number_of(s, unit, e, AT_COUNT) {
        Some(n) => n as usize,
        None => match number_of(s, unit, e, AT_UPPER_BOUND) {
            Some(n) => if n < u64::MAX {
                (n + 1) as u64 as usize
            } else {
                0
            },
            None => 0,
        },
    }
}

/// The lengths of an array among the first `n` entries, outermost first.
pub open spec fn dimensions(s: SectionData, unit: usize, entries: Seq<usize>, n: nat) -> Seq<usize>
    decreases n,
{
    if n == 0 {
        Seq::empty()
    } else {
        let before = dimensions(s, unit, entries, (n - 1) as nat);
        match entry_exactly_at(s, unit, entries[n - 1]) {
            Ok(e) => if e.tag == TAG_SUBRANGE {
                before.push(dimension(s, unit, e))
            } else {
                before
            },
            Err(_) => before,
        }
    }
}

/// An array of these lengths.
pub open spec fn array_type(lengths: Seq<usize>, element: TypeDesc) -> TypeDesc
    decreases lengths.len(),
{
    if lengths.len() == 0 {
        element
    } else {
        TypeDesc::Array(lengths[0], Box::new(array_type(lengths.drop_first(), element)))
    }
}

fn read_dimension(s: &DebugSections, unit: usize, e: &Entry) -> (r: usize)
    ensures
        r == dimension(s@, unit, e@),
{
    match read_number(s, unit, e, AT_COUNT) {
        Some(n) => n as usize,
        None => match read_number(s, unit, e, AT_UPPER_BOUND) {
            Some(n) => if n < u64::MAX {
                (n + 1) as usize
            } else {
                0
            },
            None => 0,
        },
    }
}

fn read_dimensions(s: &DebugSections, unit: usize, e: &Entry) -> (r: Vec<usize>)
    ensures
        r@ == dimensions(
            s@,
            unit,
            children_at(s@, unit, e@.offset),
            children_at(s@, unit, e@.offset).len(),
        ),
{
    let entries: Vec<usize> = child_offsets(s, unit, e.offset);
    let mut r: Vec<usize> = Vec::new();
    let mut i: usize = 0;
    while i < entries.len()
        invariant
            i <= entries@.len(),
            r@ == dimensions(s@, unit, entries@, i as nat),
        decreases entries@.len() - i,
    {
        if let Ok(c) = entry_at(s, unit, entries[i]) {
            if c.tag == TAG_SUBRANGE {
                r.push(read_dimension(s, unit, &c));
            }
        }
        i += 1;
    }
    r
}

/// A type that is not read, and why.
pub open spec fn is_opaque(t: TypeDesc, why: Seq<char>) -> bool {
    t matches TypeDesc::Plain(Leaf::Opaque(x)) && x@ == why
}

fn opaque(why: &str) -> (t: TypeDesc)
    ensures
        is_opaque(t, why@),
        sound(t),
{
    TypeDesc::Plain(Leaf::Opaque(String::from_str(why)))
}

/// Whether `t` is an array of these lengths, or says that there is no counting
/// it.
pub open spec fn is_array(t: TypeDesc, lengths: Seq<usize>, element: TypeDesc) -> bool {
    if sound(array_type(lengths, element)) {
        t == array_type(lengths, element)
    } else {
        is_opaque(t, "类型太大"@)
    }
}

proof fn lemma_inner_array_sound(lengths: Seq<usize>, element: TypeDesc, i: int)
    requires
        0 <= i <= lengths.len(),
        sound(array_type(lengths, element)),
    ensures
        sound(array_type(lengths.skip(i), element)),
    decreases i,
{
    if i == 0 {
        assert(lengths.skip(0) =~= lengths);
    } else {
        assert(lengths.skip(i) =~= lengths.drop_first().skip(i - 1));
        lemma_inner_array_sound(lengths.drop_first(), element, i - 1);
    }
}

fn make_array(lengths: &Vec<usize>, element: TypeDesc) -> (t: TypeDesc)
    requires
        sound(element),
    ensures
        is_array(t, lengths@, element),
        sound(t),
{
    let ghost bottom = element;
    let mut t: TypeDesc = element;
    let mut i: usize = lengths.len();
    assert(lengths@.skip(i as int) =~= Seq::empty());
    while i > 0
        invariant
            i <= lengths@.len(),
            bottom == element,
            sound(t),
            t == array_type(lengths@.skip(i as int), bottom),
        decreases i,
    {
        i -= 1;
        let count: usize = lengths[i];
        let ghost here = lengths@.skip(i as int);
        let ghost outer = TypeDesc::Array(count, Box::new(t));
        assert(here.drop_first() =~= lengths@.skip(i + 1));
        assert(array_type(here, bottom) == outer);
        let size: usize = t.size();
        let leaves: usize = t.leaves();
        if count.checked_mul(size).is_none() || count.checked_mul(leaves).is_none() {
            proof {
                assert(!sound(outer));
                if sound(array_type(lengths@, bottom)) {
                    lemma_inner_array_sound(lengths@, bottom, i as int);
                }
            }
            return opaque("类型太大");
        }
        t = TypeDesc::Array(count, Box::new(t));
        assert(sound(t));
    }
    assert(lengths@.skip(0) =~= lengths@);
    t
}

// ---------------------------------------------------------------------------
// Structures, unions and types as a whole
// ---------------------------------------------------------------------------

/// Where a member starts, as far as that is a plain number; at the start of its
/// structure where nothing is said.
pub open spec fn member_offset(s: SectionData, unit: usize, e: EntryData) -> Option<usize> {
    match attr_index(e.attrs, AT_DATA_MEMBER_LOCATION, 0) {
        None => Some(0usize),
        Some(k) => match attr_number_at(s, unit, e.offset, k as usize) {
            Some(n) => Some(n as usize),
            None => None,
        },
    }
}

/// The start of the structure stands for a place that is not known.
pub open spec fn offset_or_start(offset: Option<usize>) -> usize {
    match offset {
        Some(n) => n,
        None => 0,
    }
}

/// The name of a member.
pub open spec fn member_name(s: SectionData, unit: usize, e: EntryData) -> Seq<char> {
    match name_of(s, unit, e) {
        Some(n) => n,
        None => "(匿名)"@,
    }
}

/// Whether `m` is the member of that name, place and type in a structure of
/// `size` bytes. A member that would not lie inside is not read.
pub open spec fn is_placed(
    m: Member,
    name: Seq<char>,
    offset: usize,
    kind: TypeDesc,
    size: usize,
) -> bool {
    &&& m.name@ == name
    &&& if offset + type_size(kind) <= size {
        m.offset == offset && m.kind == kind
    } else {
        m.offset == 0 && is_opaque(m.kind, "成员超出类型范围"@)
    }
}

/// Whether `t` is the structure or the union with these members, or says that
/// there is no counting it.
pub open spec fn is_compound(t: TypeDesc, label: Seq<char>, size: usize, ms: Seq<Member>) -> bool {
    if members_leaves(ms, ms.len()) <= usize::MAX {
        t matches TypeDesc::Compound(l, n, v) && l@ == label && n == size && v@ == ms
    } else {
        is_opaque(t, "类型太大"@)
    }
}

/// The levels that a type can still be read down.
pub open spec fn levels_left(s: SectionData, open: Seq<usize>) -> nat {
    if open.len() < chain_limit(s) {
        (chain_limit(s) - open.len()) as nat
    } else {
        0
    }
}

/// Whether an array, a structure or a union stands in itself, if it stands in
/// those whose entries are `open`: its entry is among them, or there are more of
/// them than there are bytes for an entry to start at.
pub open spec fn in_itself(s: SectionData, open: Seq<usize>, at: usize) -> bool {
    open.contains(at) || open.len() >= chain_limit(s)
}

fn reentered(s: &DebugSections, open: &Vec<usize>, at: usize) -> (r: bool)
    ensures
        r == in_itself(s@, open@, at),
{
    let info: &[u8] = s.get(".debug_info");
    if open.len() as u128 >= info.len() as u128 + 1 {
        return true;
    }
    let mut i: usize = 0;
    while i < open.len()
        invariant
            i <= open@.len(),
            forall|k: int| 0 <= k < i ==> open@[k] != at,
        decreases open@.len() - i,
    {
        if open[i] == at {
            return true;
        }
        i += 1;
    }
    false
}

fn entered(open: &Vec<usize>, at: usize) -> (r: Vec<usize>)
    ensures
        r@ == open@.push(at),
{
    let mut r: Vec<usize> = Vec::new();
    let mut i: usize = 0;
    while i < open.len()
        invariant
            i <= open@.len(),
            r@ == open@.take(i as int),
        decreases open@.len() - i,
    {
        r.push(open[i]);
        i += 1;
        assert(r@ =~= open@.take(i as int));
    }
    assert(open@.take(i as int) =~= open@);
    r.push(at);
    r
}

/// Whether `t` is the type whose entry stands at `at`: a scalar, an enumeration,
/// a pointer, an array, a structure or a union. The latter three may stand in
/// each other as deep as they will; `open` are the entries of those that this type
/// stands in. Anything else is kept with the reason for which it is not read, and
/// so is a type that stands in itself.
pub open spec fn is_type(
    s: SectionData,
    unit: usize,
    at: usize,
    open: Seq<usize>,
    t: TypeDesc,
) -> bool
    decreases levels_left(s, open), 0nat,
{
    match base_type(s, unit, at, chain_limit(s)) {
        Ok(b) => t matches TypeDesc::Plain(Leaf::Scalar(x)) && x@ == (ScalarData {
            label: b.name,
            size: b.size,
            encoding: b.encoding,
        }),
        Err(why) => match chain_end(s, unit, at, chain_limit(s)) {
            None => is_opaque(t, why.text()),
            Some((typedef, e)) => match why {
                TypeError::Enumeration => t matches TypeDesc::Plain(Leaf::Enumeration(x)) && x@
                    == enumeration(s, unit, typedef, e),
                TypeError::Pointer => t matches TypeDesc::Plain(Leaf::Pointer(n)) && n == size_of(
                    s,
                    unit,
                    e,
                    address_size_of(s, unit),
                ),
                TypeError::Array => if in_itself(s, open, e.offset) {
                    is_opaque(t, "类型包含自身"@)
                } else {
                    is_array_type(s, unit, e, open.push(e.offset), t)
                },
                TypeError::Aggregate => if in_itself(s, open, e.offset) {
                    is_opaque(t, "类型包含自身"@)
                } else {
                    is_compound_type(s, unit, typedef, e, open.push(e.offset), t)
                },
                _ => is_opaque(t, why.text()),
            },
        },
    }
}

/// Whether `t` is the array whose entry is `e`.
pub open spec fn is_array_type(
    s: SectionData,
    unit: usize,
    e: EntryData,
    open: Seq<usize>,
    t: TypeDesc,
) -> bool
    decreases levels_left(s, open), 2nat,
{
    let entries = children_at(s, unit, e.offset);
    let lengths = dimensions(s, unit, entries, entries.len());
    exists|element: TypeDesc|
        is_referred(s, unit, e, open, element) && #[trigger] is_array(t, lengths, element)
}

/// Whether `t` is the structure or the union whose entry is `e` and that a
/// typedef may name.
pub open spec fn is_compound_type(
    s: SectionData,
    unit: usize,
    typedef: Option<Seq<char>>,
    e: EntryData,
    open: Seq<usize>,
    t: TypeDesc,
) -> bool
    decreases levels_left(s, open), 5 + children_at(s, unit, e.offset).len(),
{
    let entries = children_at(s, unit, e.offset);
    let size = size_of(s, unit, e, 0);
    let label = label_of(s, unit, typedef, e);
    exists|ms: Seq<Member>|
        are_members(s, unit, size, entries, entries.len(), open, ms) && #[trigger] is_compound(
            t,
            label,
            size,
            ms,
        )
}

/// Whether `t` is the type that the entry `e` refers to.
pub open spec fn is_referred(
    s: SectionData,
    unit: usize,
    e: EntryData,
    open: Seq<usize>,
    t: TypeDesc,
) -> bool
    decreases levels_left(s, open), 1nat,
{
    match type_reference(s, unit, e) {
        None => is_opaque(t, TypeError::<Seq<char>>::Broken.text()),
        Some(next) => is_type(s, unit, next, open, t),
    }
}

/// Whether `t` is the type of the member whose entry is `e`.
pub open spec fn is_member_type(
    s: SectionData,
    unit: usize,
    e: EntryData,
    open: Seq<usize>,
    t: TypeDesc,
) -> bool
    decreases levels_left(s, open), 2nat,
{
    if attr_index(e.attrs, AT_BIT_SIZE, 0) is Some {
        t == TypeDesc::Plain(Leaf::BitField)
    } else if member_offset(s, unit, e) is None {
        is_opaque(t, "成员位置暂不支持"@)
    } else {
        is_referred(s, unit, e, open, t)
    }
}

/// Whether `m` is the member whose entry is `e`, in a structure of `size` bytes.
pub open spec fn is_member(
    s: SectionData,
    unit: usize,
    size: usize,
    e: EntryData,
    open: Seq<usize>,
    m: Member,
) -> bool
    decreases levels_left(s, open), 3nat,
{
    exists|kind: TypeDesc|
        is_member_type(s, unit, e, open, kind) && #[trigger] is_placed(
            m,
            member_name(s, unit, e),
            offset_or_start(member_offset(s, unit, e)),
            kind,
            size,
        )
}

/// Whether `ms` are the members among the first `n` entries, in a structure of
/// `size` bytes.
pub open spec fn are_members(
    s: SectionData,
    unit: usize,
    size: usize,
    entries: Seq<usize>,
    n: nat,
    open: Seq<usize>,
    ms: Seq<Member>,
) -> bool
    decreases levels_left(s, open), 4 + n,
{
    if n == 0 {
        ms.len() == 0
    } else {
        let i = (n - 1) as nat;
        match entry_exactly_at(s, unit, entries[i as int]) {
            Ok(e) => if e.tag == TAG_MEMBER {
                &&& ms.len() > 0
                &&& is_member(s, unit, size, e, open, ms.last())
                &&& are_members(s, unit, size, entries, i, open, ms.drop_last())
            } else {
                are_members(s, unit, size, entries, i, open, ms)
            },
            Err(_) => are_members(s, unit, size, entries, i, open, ms),
        }
    }
}

/// The type that the entry `e` refers to.
fn read_referred(s: &DebugSections, unit: usize, e: &Entry, open: &Vec<usize>) -> (t: TypeDesc)
    ensures
        is_referred(s@, unit, e@, open@, t),
        sound(t),
    decreases levels_left(s@, open@), 1nat,
{
    match referred_type(s, unit, e) {
        None => opaque("类型修饰链断裂（缺少 DW_AT_type）"),
        Some(next) => read_type(s, unit, next, open),
    }
}

fn read_member(s: &DebugSections, unit: usize, size: usize, e: &Entry, open: &Vec<usize>) -> (m: Member)
    ensures
        is_member(s@, unit, size, e@, open@, m),
        sound(m.kind),
        m.offset + type_size(m.kind) <= size,
    decreases levels_left(s@, open@), 3nat,
{
    let place: Option<usize> = match find_attr(&e.attrs, AT_DATA_MEMBER_LOCATION) {
        None => Some(0),
        Some(k) => match attr_number(s, unit, e.offset, k) {
            Some(n) => Some(n as usize),
            None => None,
        },
    };
    let name: String = match read_name(s, unit, e) {
        Some(n) => n,
        None => String::from_str("(匿名)"),
    };
    let kind: TypeDesc = if find_attr(&e.attrs, AT_BIT_SIZE).is_some() {
        TypeDesc::Plain(Leaf::BitField)
    } else if place.is_none() {
        opaque("成员位置暂不支持")
    } else {
        read_referred(s, unit, e, open)
    };
    assert(is_member_type(s@, unit, e@, open@, kind));
    let offset: usize = match place {
        Some(n) => n,
        None => 0,
    };
    let taken: usize = kind.size();
    let ghost whole = kind;
    let m: Member = if offset <= size && taken <= size - offset {
        Member { name, offset, kind }
    } else {
        Member { name, offset: 0, kind: opaque("成员超出类型范围") }
    };
    proof {
        reveal_with_fuel(is_member, 2);
        assert(is_placed(
            m,
            member_name(s@, unit, e@),
            offset_or_start(member_offset(s@, unit, e@)),
            whole,
            size,
        ));
    }
    m
}

/// Reads the type whose entry stands at `at`.
pub fn read_type(s: &DebugSections, unit: usize, at: usize, open: &Vec<usize>) -> (t: TypeDesc)
    ensures
        is_type(s@, unit, at, open@, t),
        sound(t),
    decreases levels_left(s@, open@), 0nat,
{
    let why: TypeError<String> = match resolve_base_type(s, unit, at) {
        Ok(b) => {
            return TypeDesc::Plain(
                Leaf::Scalar(ScalarType { label: b.name, size: b.size, encoding: b.encoding }),
            );
        },
        Err(why) => why,
    };
    let (typedef, e): (Option<String>, Entry) = match follow_chain(s, unit, at) {
        None => {
            return opaque(why.message().as_str());
        },
        Some(end) => end,
    };
    match why {
        TypeError::Enumeration => TypeDesc::Plain(
            Leaf::Enumeration(read_enumeration(s, unit, typedef, &e)),
        ),
        TypeError::Pointer => TypeDesc::Plain(
            Leaf::Pointer(read_size(s, unit, &e, read_address_size(s, unit))),
        ),
        TypeError::Array => {
            if reentered(s, open, e.offset) {
                return opaque("类型包含自身");
            }
            let within: Vec<usize> = entered(open, e.offset);
            let element: TypeDesc = read_referred(s, unit, &e, &within);
            let ghost bottom = element;
            assert(is_referred(s@, unit, e@, open@.push(e@.offset), bottom));
            let t: TypeDesc = make_array(&read_dimensions(s, unit, &e), element);
            proof {
                reveal_with_fuel(is_array_type, 2);
                assert(is_array_type(s@, unit, e@, open@.push(e@.offset), t));
            }
            t
        },
        TypeError::Aggregate => {
            if reentered(s, open, e.offset) {
                return opaque("类型包含自身");
            }
            let within: Vec<usize> = entered(open, e.offset);
            let size: usize = read_size(s, unit, &e, 0);
            let entries: Vec<usize> = child_offsets(s, unit, e.offset);
            let mut members: Vec<Member> = Vec::new();
            let mut leaves: Option<usize> = Some(0);
            let mut i: usize = 0;
            while i < entries.len()
                invariant
                    i <= entries@.len(),
                    within@ == open@.push(e@.offset),
                    !in_itself(s@, open@, e@.offset),
                    are_members(
                        s@,
                        unit,
                        size,
                        entries@,
                        i as nat,
                        open@.push(e@.offset),
                        members@,
                    ),
                    members_sound(members@, members@.len(), size),
                    match leaves {
                        Some(n) => n == members_leaves(members@, members@.len()),
                        None => members_leaves(members@, members@.len()) > usize::MAX,
                    },
                decreases entries@.len() - i,
            {
                let mut found: Option<Member> = None;
                if let Ok(c) = entry_at(s, unit, entries[i]) {
                    if c.tag == TAG_MEMBER {
                        found = Some(read_member(s, unit, size, &c, &within));
                    }
                }
                if let Some(m) = found {
                    let more: usize = m.kind.leaves();
                    let ghost before = members@;
                    members.push(m);
                    proof {
                        assert(members@.drop_last() =~= before);
                        lemma_members_prefix(members@, before, size);
                    }
                    leaves = match leaves {
                        None => None,
                        Some(n) => n.checked_add(more),
                    };
                }
                i += 1;
            }
            let label: String = read_label(s, unit, typedef, &e);
            let ghost ms = members@;
            let t: TypeDesc = if leaves.is_some() {
                TypeDesc::Compound(label, size, members)
            } else {
                opaque("类型太大")
            };
            proof {
                reveal_with_fuel(is_compound_type, 2);
                assert(is_compound(t, label_of(s@, unit, opt_text(typedef), e@), size, ms));
                assert(is_compound_type(
                    s@,
                    unit,
                    opt_text(typedef),
                    e@,
                    open@.push(e@.offset),
                    t,
                ));
            }
            t
        },
        other => opaque(other.message().as_str()),
    }
}

/// What holds of members holds of them with another one behind.
proof fn lemma_members_prefix(ms: Seq<Member>, before: Seq<Member>, size: usize)
    requires
        ms.len() == before.len() + 1,
        ms.drop_last() == before,
    ensures
        members_leaves(ms, before.len()) == members_leaves(before, before.len()),
        members_sound(ms, before.len(), size) == members_sound(before, before.len(), size),
{
    lemma_same_members(ms, before, size, before.len());
}

proof fn lemma_same_members(a: Seq<Member>, b: Seq<Member>, size: usize, n: nat)
    requires
        n <= b.len() < a.len(),
        a.drop_last() == b,
        a.len() == b.len() + 1,
    ensures
        members_leaves(a, n) == members_leaves(b, n),
        members_sound(a, n, size) == members_sound(b, n, size),
    decreases n,
{
    if n > 0 {
        lemma_same_members(a, b, size, (n - 1) as nat);
        assert(a[n - 1] == b[n - 1]);
    }
}

// ---------------------------------------------------------------------------
// One type for each entry
// ---------------------------------------------------------------------------

/// Debug information leaves no doubt about a type: whatever is read at an entry is
/// the same type each time.
pub proof fn law_entries_fix_types(
    s: SectionData,
    unit: usize,
    at: usize,
    open: Seq<usize>,
    t: TypeDesc,
    u: TypeDesc,
)
    requires
        is_type(s, unit, at, open, t),
        is_type(s, unit, at, open, u),
    ensures
        alike(t, u),
    decreases levels_left(s, open), 0nat,
{
    if let Err(why) = base_type(s, unit, at, chain_limit(s)) {
        if let Some((typedef, e)) = chain_end(s, unit, at, chain_limit(s)) {
            if !in_itself(s, open, e.offset) {
                match why {
                    TypeError::Array => {
                        lemma_one_array(s, unit, e, open.push(e.offset), t, u);
                    },
                    TypeError::Aggregate => {
                        lemma_one_compound(s, unit, typedef, e, open.push(e.offset), t, u);
                    },
                    _ => {},
                }
            }
        }
    }
}

proof fn lemma_arrays_alike(lengths: Seq<usize>, a: TypeDesc, b: TypeDesc)
    requires
        alike(a, b),
    ensures
        alike(array_type(lengths, a), array_type(lengths, b)),
    decreases lengths.len(),
{
    if lengths.len() > 0 {
        lemma_arrays_alike(lengths.drop_first(), a, b);
    }
}

proof fn lemma_one_array(
    s: SectionData,
    unit: usize,
    e: EntryData,
    open: Seq<usize>,
    t: TypeDesc,
    u: TypeDesc,
)
    requires
        is_array_type(s, unit, e, open, t),
        is_array_type(s, unit, e, open, u),
    ensures
        alike(t, u),
    decreases levels_left(s, open), 2nat,
{
    reveal_with_fuel(is_array_type, 2);
    let entries = children_at(s, unit, e.offset);
    let lengths = dimensions(s, unit, entries, entries.len());
    let a = choose|x: TypeDesc|
        is_referred(s, unit, e, open, x) && #[trigger] is_array(t, lengths, x);
    let b = choose|x: TypeDesc|
        is_referred(s, unit, e, open, x) && #[trigger] is_array(u, lengths, x);
    lemma_one_referred(s, unit, e, open, a, b);
    lemma_arrays_alike(lengths, a, b);
    lemma_alike_sizes(array_type(lengths, a), array_type(lengths, b));
}

proof fn lemma_one_referred(
    s: SectionData,
    unit: usize,
    e: EntryData,
    open: Seq<usize>,
    t: TypeDesc,
    u: TypeDesc,
)
    requires
        is_referred(s, unit, e, open, t),
        is_referred(s, unit, e, open, u),
    ensures
        alike(t, u),
    decreases levels_left(s, open), 1nat,
{
    if let Some(next) = type_reference(s, unit, e) {
        law_entries_fix_types(s, unit, next, open, t, u);
    }
}

proof fn lemma_one_compound(
    s: SectionData,
    unit: usize,
    typedef: Option<Seq<char>>,
    e: EntryData,
    open: Seq<usize>,
    t: TypeDesc,
    u: TypeDesc,
)
    requires
        is_compound_type(s, unit, typedef, e, open, t),
        is_compound_type(s, unit, typedef, e, open, u),
    ensures
        alike(t, u),
    decreases levels_left(s, open), 5 + children_at(s, unit, e.offset).len(),
{
    reveal_with_fuel(is_compound_type, 2);
    let entries = children_at(s, unit, e.offset);
    let size = size_of(s, unit, e, 0);
    let label = label_of(s, unit, typedef, e);
    let n = entries.len();
    let a = choose|ms: Seq<Member>|
        are_members(s, unit, size, entries, n, open, ms) && #[trigger] is_compound(
            t,
            label,
            size,
            ms,
        );
    let b = choose|ms: Seq<Member>|
        are_members(s, unit, size, entries, n, open, ms) && #[trigger] is_compound(
            u,
            label,
            size,
            ms,
        );
    lemma_one_member_list(s, unit, size, entries, n, open, a, b);
    lemma_members_alike_sizes(a, b, a.len(), size);
}

proof fn lemma_one_member_list(
    s: SectionData,
    unit: usize,
    size: usize,
    entries: Seq<usize>,
    n: nat,
    open: Seq<usize>,
    a: Seq<Member>,
    b: Seq<Member>,
)
    requires
        are_members(s, unit, size, entries, n, open, a),
        are_members(s, unit, size, entries, n, open, b),
    ensures
        a.len() == b.len(),
        members_alike(a, b, a.len()),
    decreases levels_left(s, open), 4 + n,
{
    reveal_with_fuel(are_members, 2);
    if n > 0 {
        let i = (n - 1) as nat;
        match entry_exactly_at(s, unit, entries[i as int]) {
            Ok(e) => {
                if e.tag == TAG_MEMBER {
                    let x = a.drop_last();
                    let y = b.drop_last();
                    lemma_one_member_list(s, unit, size, entries, i, open, x, y);
                    lemma_one_member(s, unit, size, e, open, a.last(), b.last());
                    lemma_members_alike_prefix(a, b, x.len());
                } else {
                    lemma_one_member_list(s, unit, size, entries, i, open, a, b);
                }
            },
            Err(_) => {
                lemma_one_member_list(s, unit, size, entries, i, open, a, b);
            },
        }
    }
}

proof fn lemma_members_alike_prefix(a: Seq<Member>, b: Seq<Member>, n: nat)
    requires
        n < a.len(),
        a.len() == b.len(),
        members_alike(a.drop_last(), b.drop_last(), n),
    ensures
        members_alike(a, b, n),
    decreases n,
{
    if n > 0 {
        lemma_members_alike_prefix(a, b, (n - 1) as nat);
        assert(a.drop_last()[n - 1] == a[n - 1]);
        assert(b.drop_last()[n - 1] == b[n - 1]);
    }
}

proof fn lemma_one_member(
    s: SectionData,
    unit: usize,
    size: usize,
    e: EntryData,
    open: Seq<usize>,
    a: Member,
    b: Member,
)
    requires
        is_member(s, unit, size, e, open, a),
        is_member(s, unit, size, e, open, b),
    ensures
        a.name@ == b.name@,
        a.offset == b.offset,
        alike(a.kind, b.kind),
    decreases levels_left(s, open), 3nat,
{
    reveal_with_fuel(is_member, 2);
    let name = member_name(s, unit, e);
    let offset = offset_or_start(member_offset(s, unit, e));
    let x = choose|kind: TypeDesc|
        is_member_type(s, unit, e, open, kind) && #[trigger] is_placed(a, name, offset, kind, size);
    let y = choose|kind: TypeDesc|
        is_member_type(s, unit, e, open, kind) && #[trigger] is_placed(b, name, offset, kind, size);
    if attr_index(e.attrs, AT_BIT_SIZE, 0) is None && member_offset(s, unit, e) is Some {
        lemma_one_referred(s, unit, e, open, x, y);
    }
    assert(alike(x, y));
    lemma_alike_sizes(x, y);
}

// ---------------------------------------------------------------------------
// Nothing is left out
// ---------------------------------------------------------------------------

/// How many of the first `n` entries have a tag.
pub open spec fn tagged(s: SectionData, unit: usize, entries: Seq<usize>, tag: u16, n: int) -> int
    decreases n,
{
    if n <= 0 {
        0
    } else {
        tagged(s, unit, entries, tag, n - 1) + match entry_exactly_at(s, unit, entries[n - 1]) {
            Ok(e) => if e.tag == tag {
                1
            } else {
                0int
            },
            Err(_) => 0,
        }
    }
}

/// A structure has a member for each of its entries `DW_TAG_member`, in order.
pub proof fn law_structures_have_all_members(
    s: SectionData,
    unit: usize,
    size: usize,
    entries: Seq<usize>,
    n: nat,
    open: Seq<usize>,
    ms: Seq<Member>,
    i: int,
)
    requires
        are_members(s, unit, size, entries, n, open, ms),
        0 <= i < n,
    ensures
        ms.len() == tagged(s, unit, entries, 0x0d, n as int),
        entry_exactly_at(s, unit, entries[i]) matches Ok(e) && e.tag == 0x0d ==> {
            let k = tagged(s, unit, entries, 0x0d, i);
            &&& 0 <= k < ms.len()
            &&& is_member(s, unit, size, entry_exactly_at(s, unit, entries[i])->Ok_0, open, ms[k])
        },
    decreases n,
{
    reveal_with_fuel(are_members, 2);
    lemma_tagged(s, unit, entries, 0x0d, i, n as int);
    let j = (n - 1) as nat;
    let member = match entry_exactly_at(s, unit, entries[j as int]) {
        Ok(e) => e.tag == TAG_MEMBER,
        Err(_) => false,
    };
    let before = if member {
        ms.drop_last()
    } else {
        ms
    };
    if j == 0 {
        assert(are_members(s, unit, size, entries, 0, open, before));
        assert(before.len() == 0);
    } else {
        law_structures_have_all_members(
            s,
            unit,
            size,
            entries,
            j,
            open,
            before,
            if i < j {
                i
            } else {
                0
            },
        );
    }
}

proof fn lemma_tagged(s: SectionData, unit: usize, entries: Seq<usize>, tag: u16, i: int, n: int)
    requires
        0 <= i < n,
    ensures
        0 <= tagged(s, unit, entries, tag, i) <= tagged(s, unit, entries, tag, n),
    decreases n,
{
    if i > 0 {
        lemma_tagged(s, unit, entries, tag, 0, i);
    }
    if i < n - 1 {
        lemma_tagged(s, unit, entries, tag, i, n - 1);
    }
}

/// A member stands where `DW_AT_data_member_location` says, with the name that
/// `DW_AT_name` gives and the type that `DW_AT_type` refers to, as far as that
/// fits into the structure.
pub proof fn law_members_stand_where_they_say(
    s: SectionData,
    unit: usize,
    size: usize,
    e: EntryData,
    open: Seq<usize>,
    m: Member,
    p: int,
    q: int,
    r: int,
    name: Seq<char>,
    offset: u64,
    at: usize,
)
    requires
        is_member(s, unit, size, e, open, m),
        only_at(e, 0x03, p),
        attr_text_at(s, unit, e.offset, p as usize) == Ok::<_, Seq<char>>(Some(name)),
        only_at(e, 0x38, q),
        attr_number_at(s, unit, e.offset, q as usize) == Some(offset),
        offset <= usize::MAX,
        only_at(e, 0x49, r),
        attr_value_at(s, unit, e.offset, r as usize) == Some(AttrValue::<Seq<u8>>::Reference(at)),
        forall|j: int| 0 <= j < e.attrs.len() ==> (#[trigger] e.attrs[j]) != 0x0d,
    ensures
        m.name@ == name,
        exists|kind: TypeDesc| #[trigger]
            is_type(s, unit, at, open, kind) && if offset + type_size(kind) <= size {
                m.offset == offset && m.kind == kind
            } else {
                m.kind matches TypeDesc::Plain(Leaf::Opaque(_))
            },
{
    reveal_with_fuel(is_member, 2);
    lemma_only_attr(e, 0x03, p, 0);
    lemma_only_attr(e, 0x38, q, 0);
    lemma_only_attr(e, 0x49, r, 0);
    lemma_no_attr(e, 0x0d, 0);
    let place = offset_or_start(member_offset(s, unit, e));
    let kind = choose|kind: TypeDesc|
        is_member_type(s, unit, e, open, kind) && #[trigger] is_placed(
            m,
            member_name(s, unit, e),
            place,
            kind,
            size,
        );
    assert(place == offset);
    assert(is_member_type(s, unit, e, open, kind));
    assert(is_referred(s, unit, e, open, kind));
    assert(is_type(s, unit, at, open, kind));
}

proof fn lemma_no_attr(e: EntryData, name: u16, k: nat)
    requires
        forall|j: int| 0 <= j < e.attrs.len() ==> (#[trigger] e.attrs[j]) != name,
    ensures
        attr_index(e.attrs, name, k) is None,
    decreases e.attrs.len() - k,
{
    if k < e.attrs.len() {
        assert(e.attrs[k as int] != name);
        lemma_no_attr(e, name, k + 1);
    }
}

/// An array has a dimension for each of its entries `DW_TAG_subrange_type`, the
/// outermost first: as long as `DW_AT_count` says, or one more than
/// `DW_AT_upper_bound`.
pub proof fn law_arrays_have_all_dimensions(
    s: SectionData,
    unit: usize,
    entries: Seq<usize>,
    n: nat,
    i: int,
    p: int,
    v: u64,
)
    requires
        0 <= i < n,
    ensures
        dimensions(s, unit, entries, n).len() == tagged(s, unit, entries, 0x21, n as int),
        entry_exactly_at(s, unit, entries[i]) matches Ok(e) && e.tag == 0x21 && attr_number_at(
            s,
            unit,
            e.offset,
            p as usize,
        ) == Some(v) && v < usize::MAX ==> {
            let e = entry_exactly_at(s, unit, entries[i])->Ok_0;
            let k = tagged(s, unit, entries, 0x21, i);
            &&& 0 <= k < dimensions(s, unit, entries, n).len()
            &&& only_at(e, 0x37, p) ==> dimensions(s, unit, entries, n)[k] == v
            &&& only_at(e, 0x2f, p) && (forall|j: int|
                0 <= j < e.attrs.len() ==> (#[trigger] e.attrs[j]) != 0x37) ==> dimensions(
                s,
                unit,
                entries,
                n,
            )[k] == v + 1
        },
    decreases n,
{
    lemma_tagged(s, unit, entries, 0x21, i, n as int);
    let j = (n - 1) as nat;
    if j > 0 {
        law_arrays_have_all_dimensions(
            s,
            unit,
            entries,
            j,
            if i < j {
                i
            } else {
                0
            },
            p,
            v,
        );
    } else {
        assert(dimensions(s, unit, entries, 0).len() == 0);
    }
    if i == j {
        if let Ok(e) = entry_exactly_at(s, unit, entries[i]) {
            if only_at(e, 0x37, p) {
                lemma_only_attr(e, 0x37, p, 0);
            }
            if only_at(e, 0x2f, p) && (forall|k: int|
                0 <= k < e.attrs.len() ==> (#[trigger] e.attrs[k]) != 0x37) {
                lemma_only_attr(e, 0x2f, p, 0);
                lemma_no_attr(e, 0x37, 0);
            }
        }
    }
}

/// An array of some lengths has its outermost length first, and its elements are
/// arrays of the others.
pub proof fn law_dimensions_are_nested(outer: usize, inner: Seq<usize>, element: TypeDesc)
    ensures
        array_type(Seq::empty(), element) == element,
        array_type(seq![outer] + inner, element) matches TypeDesc::Array(n, t) && n == outer && *t
            == array_type(inner, element),
{
    assert((seq![outer] + inner).drop_first() =~= inner);
}

/// An enumeration names every value that an entry `DW_TAG_enumerator` gives it.
pub proof fn law_enumerations_have_all_values(
    s: SectionData,
    unit: usize,
    entries: Seq<usize>,
    n: nat,
    i: int,
    p: int,
    q: int,
    name: Seq<char>,
    v: u64,
)
    requires
        0 <= i < n,
        entry_exactly_at(s, unit, entries[i]) matches Ok(e) && {
            &&& e.tag == 0x28
            &&& only_at(e, 0x03, p)
            &&& attr_text_at(s, unit, e.offset, p as usize) == Ok::<_, Seq<char>>(Some(name))
            &&& only_at(e, 0x1c, q)
            &&& attr_number_at(s, unit, e.offset, q as usize) == Some(v)
        },
    ensures
        enumerators(s, unit, entries, n).contains((v, name)),
    decreases n,
{
    let all = enumerators(s, unit, entries, n);
    let before = enumerators(s, unit, entries, (n - 1) as nat);
    if i < n - 1 {
        law_enumerations_have_all_values(s, unit, entries, (n - 1) as nat, i, p, q, name, v);
        let k = choose|k: int| 0 <= k < before.len() && before[k] == (v, name);
        assert(all[k] == (v, name));
    } else {
        let e = entry_exactly_at(s, unit, entries[i])->Ok_0;
        lemma_only_attr(e, 0x03, p, 0);
        lemma_only_attr(e, 0x1c, q, 0);
        assert(all[before.len() as int] == (v, name));
    }
}

/// A chain of typedefs and qualifiers ends at the entry of the type itself, and a
/// typedef at its front names it.
pub proof fn law_typedefs_name_their_type(
    s: SectionData,
    unit: usize,
    chain: Seq<usize>,
    p: int,
    name: Seq<char>,
)
    requires
        leads_down(s, unit, chain),
        chain.len() <= section_bytes(s.parts, ".debug_info"@).len(),
        !only_modifies((entry_exactly_at(s, unit, chain.last())->Ok_0).tag),
    ensures
        chain_end(s, unit, chain[0], chain_limit(s)) matches Some((label, e)) && {
            let front = entry_exactly_at(s, unit, chain[0])->Ok_0;
            &&& entry_exactly_at(s, unit, chain.last()) == Ok::<_, Seq<char>>(e)
            &&& chain.len() == 1 ==> label is None
            &&& only_at(front, 0x03, p) && front.tag == 0x16 && attr_text_at(
                s,
                unit,
                front.offset,
                p as usize,
            ) == Ok::<_, Seq<char>>(Some(name)) ==> label == Some(name)
        },
{
    lemma_chain_ends(s, unit, chain, chain_limit(s));
    let front = entry_exactly_at(s, unit, chain[0])->Ok_0;
    if only_at(front, 0x03, p) {
        lemma_only_attr(front, 0x03, p, 0);
    }
    if chain.len() > 1 {
        lemma_reference(s, unit, chain[0], chain[1]);
        lemma_chain_behind(s, unit, chain);
        lemma_chain_ends(s, unit, chain.drop_first(), (chain_limit(s) - 1) as nat);
    }
}

proof fn lemma_chain_ends(s: SectionData, unit: usize, chain: Seq<usize>, steps: nat)
    requires
        leads_down(s, unit, chain),
        steps >= chain.len(),
        !only_modifies((entry_exactly_at(s, unit, chain.last())->Ok_0).tag),
    ensures
        chain_end(s, unit, chain[0], steps) matches Some((label, e)) && {
            &&& entry_exactly_at(s, unit, chain.last()) == Ok::<_, Seq<char>>(e)
            &&& chain.len() == 1 ==> label is None
        },
    decreases chain.len(),
{
    assert(entry_exactly_at(s, unit, chain[chain.len() - 1]) is Ok);
    if chain.len() > 1 {
        assert(only_modifies((entry_exactly_at(s, unit, chain[0])->Ok_0).tag));
        lemma_reference(s, unit, chain[0], chain[1]);
        lemma_chain_behind(s, unit, chain);
        lemma_chain_ends(s, unit, chain.drop_first(), (steps - 1) as nat);
    }
}

/// A type is what the entry at the end of its chain is: a pointer of its size, an
/// enumeration with its values, an array of what it refers to, or a structure or a
/// union with its members. A typedef names it, or else its own name does. How deep
/// it stands in other types does not matter.
pub proof fn law_types_are_what_their_entry_is(
    s: SectionData,
    unit: usize,
    chain: Seq<usize>,
    open: Seq<usize>,
    t: TypeDesc,
    q: int,
    size: u64,
    name: Seq<char>,
)
    requires
        leads_down(s, unit, chain),
        chain.len() <= section_bytes(s.parts, ".debug_info"@).len(),
        is_type(s, unit, chain[0], open, t),
        entry_exactly_at(s, unit, chain.last()) matches Ok(e) && {
            &&& only_at(e, 0x0b, q)
            &&& attr_number_at(s, unit, e.offset, q as usize) == Some(size)
            &&& !open.contains(e.offset)
        },
        open.len() <= section_bytes(s.parts, ".debug_info"@).len(),
        size <= usize::MAX,
    ensures
        ({
            let e = entry_exactly_at(s, unit, chain.last())->Ok_0;
            let children = children_at(s, unit, e.offset);
            let label = (chain_end(s, unit, chain[0], chain_limit(s))->0).0;
            let named = label == Some(name) || label is None && name_of(s, unit, e) == Some(name);
            &&& e.tag == 0x0f ==> (t matches TypeDesc::Plain(Leaf::Pointer(n)) && n == size)
            &&& e.tag == 0x04 ==> (t matches TypeDesc::Plain(Leaf::Enumeration(x)) && x.size
                == size && (named ==> x.label@ == name) && x@.names == enumerators(
                s,
                unit,
                children,
                children.len(),
            ))
            &&& e.tag == 0x01 ==> exists|element: TypeDesc|
                is_referred(s, unit, e, open.push(e.offset), element) && #[trigger] is_array(
                    t,
                    dimensions(s, unit, children, children.len()),
                    element,
                )
            &&& e.tag == 0x13 || e.tag == 0x17 ==> exists|ms: Seq<Member>| #[trigger]
                are_members(
                    s,
                    unit,
                    size as usize,
                    children,
                    children.len(),
                    open.push(e.offset),
                    ms,
                ) && (members_leaves(ms, ms.len()) <= usize::MAX ==> (t matches
                    TypeDesc::Compound(l, n, v) && (named ==> l@ == name) && n == size && v@ == ms))
        }),
{
    let e = entry_exactly_at(s, unit, chain.last())->Ok_0;
    let children = children_at(s, unit, e.offset);
    law_other_types_are_told_apart(s, unit, chain);
    lemma_only_attr(e, 0x0b, q, 0);
    if !only_modifies(e.tag) {
        lemma_chain_ends(s, unit, chain, chain_limit(s));
    }
    if e.tag == 0x01 {
        assert(is_array_type(s, unit, e, open.push(e.offset), t));
    }
    if e.tag == 0x13 || e.tag == 0x17 {
        let typedef = (chain_end(s, unit, chain[0], chain_limit(s))->0).0;
        assert(is_compound_type(s, unit, typedef, e, open.push(e.offset), t));
        reveal_with_fuel(is_compound_type, 2);
        let ms = choose|ms: Seq<Member>|
            are_members(
                s,
                unit,
                size as usize,
                children,
                children.len(),
                open.push(e.offset),
                ms,
            ) && #[trigger] is_compound(t, label_of(s, unit, typedef, e), size as usize, ms);
        assert(are_members(
            s,
            unit,
            size as usize,
            children,
            children.len(),
            open.push(e.offset),
            ms,
        ));
    }
}

/// An array is kept where its bytes and its parts can be counted, which is where
/// its lengths times those of an element can.
pub proof fn law_arrays_that_fit_are_kept(
    t: TypeDesc,
    lengths: Seq<usize>,
    element: TypeDesc,
    count: usize,
)
    requires
        sound(element),
    ensures
        count * type_size(element) <= usize::MAX && count * crate::layout::leaf_count(element)
            <= usize::MAX ==> sound(TypeDesc::Array(count, Box::new(element))),
        is_array(t, lengths, element) && sound(array_type(lengths, element)) ==> t == array_type(
            lengths,
            element,
        ),
{
}

/// A member with a number of bits (`DW_AT_bit_size`) is a bit field, whatever its
/// type.
pub proof fn law_bit_fields_are_told(
    s: SectionData,
    unit: usize,
    size: usize,
    e: EntryData,
    open: Seq<usize>,
    m: Member,
    p: int,
)
    requires
        is_member(s, unit, size, e, open, m),
        only_at(e, 0x0d, p),
    ensures
        m.kind == TypeDesc::Plain(Leaf::BitField) || m.kind matches TypeDesc::Plain(
            Leaf::Opaque(_),
        ),
        offset_or_start(member_offset(s, unit, e)) <= size ==> m.kind == TypeDesc::Plain(
            Leaf::BitField,
        ),
{
    reveal_with_fuel(is_member, 2);
    lemma_only_attr(e, 0x0d, p, 0);
    let kind = choose|kind: TypeDesc|
        is_member_type(s, unit, e, open, kind) && #[trigger] is_placed(
            m,
            member_name(s, unit, e),
            offset_or_start(member_offset(s, unit, e)),
            kind,
            size,
        );
    assert(kind == TypeDesc::Plain(Leaf::BitField));
}

}
