//! The values of variables as text: one line for a leaf, a tree of lines for an
//! array, a structure or a union.
use vstd::prelude::*;
use vstd::slice::slice_subrange;
use crate::layout::{
    leaf_label, leaf_size, lemma_members_are_smaller, lemma_members_sound_at, members_sound, sound,
    type_label, type_size, EnumType, Leaf, LeafData, LeafType, Member, ScalarType, TypeDesc,
};
use crate::number::{dec, dec_text, hex, hex_text};
use crate::symbol::{
    pow256, scalar_value, supported, value_of, value_text, write_value, writes, writes_any,
    Encoding, FloatTexts, UnsupportedValue, Value,
};
use crate::text::views;

verus! {

// ---------------------------------------------------------------------------
// Leaves
// ---------------------------------------------------------------------------

/// How the bytes of a leaf are read, and how many; nothing for what is not read.
pub open spec fn leaf_encoding(l: LeafData) -> Option<(Encoding, usize)> {
    match l {
        Leaf::Scalar(s) => Some((s.encoding, s.size)),
        Leaf::Enumeration(e) => Some((Encoding::Unsigned, e.size)),
        Leaf::Pointer(n) => Some((Encoding::Unsigned, n)),
        Leaf::BitField => None,
        Leaf::Opaque(_) => None,
    }
}

/// The number that a leaf holds in the bytes that start with it, where it can be
/// read.
pub open spec fn leaf_value(l: LeafData, bytes: Seq<u8>) -> Option<Value> {
    match leaf_encoding(l) {
        None => None,
        Some((encoding, size)) => if supported(encoding, size) {
            Some(value_of(encoding, size, bytes))
        } else {
            None
        },
    }
}

/// The name of the first of the values from number `from` on that agrees with
/// `v` in its low `size` bytes.
pub open spec fn value_name(
    names: Seq<(u64, Seq<char>)>,
    size: usize,
    v: u64,
    from: nat,
) -> Option<Seq<char>>
    decreases names.len() - from,
{
    if from >= names.len() {
        None
    } else if names[from as int].0 as nat % pow256(size as nat) == v {
        Some(names[from as int].1)
    } else {
        value_name(names, size, v, from + 1)
    }
}

/// The text of the number that a leaf holds.
pub open spec fn bare_text(l: LeafData, v: Value, floats: FloatTexts) -> Seq<char> {
    match (l, v) {
        (Leaf::Enumeration(e), Value::Unsigned(n)) => enum_text(e.names, e.size, n),
        (Leaf::Pointer(_), Value::Unsigned(n)) => pointer_text(n),
        _ => value_text(v, floats),
    }
}

/// The text of a leaf in the bytes that start with it: the value with its type,
/// the address alone for a pointer, a note for what is not read.
pub open spec fn leaf_text(l: LeafData, bytes: Seq<u8>, floats: FloatTexts) -> Seq<char> {
    match leaf_encoding(l) {
        None => match l {
            Leaf::Opaque(t) => "〈"@ + t + "〉"@,
            _ => "〈位域暂不支持〉"@,
        },
        Some((encoding, size)) => if supported(encoding, size) {
            let bare = bare_text(l, value_of(encoding, size, bytes), floats);
            if l is Pointer {
                bare
            } else {
                bare + " ("@ + leaf_label(l) + ")"@
            }
        } else {
            (UnsupportedValue { encoding, size }).text()
        },
    }
}

/// The text of a value of an enumeration: its name, or the number where it has
/// none.
pub open spec fn enum_text(names: Seq<(u64, Seq<char>)>, size: usize, v: u64) -> Seq<char> {
    match value_name(names, size, v, 0) {
        Some(name) => name,
        None => dec(v as nat),
    }
}

/// The text of an address.
pub open spec fn pointer_text(v: u64) -> Seq<char> {
    if v == 0 {
        "NULL"@
    } else {
        "0x"@ + hex(v as nat, 8)
    }
}

/// The low `size` bytes of a number.
fn low_bytes(v: u64, size: usize) -> (r: u64)
    requires
        supported(Encoding::Unsigned, size),
    ensures
        r == v as nat % pow256(size as nat),
{
    proof {
        reveal_with_fuel(pow256, 9);
        assert(pow256(1) == 0x100);
        assert(pow256(2) == 0x1_0000);
        assert(pow256(4) == 0x1_0000_0000);
        assert(pow256(8) == 0x1_0000_0000_0000_0000);
        vstd::arithmetic::div_mod::lemma_small_mod(v as nat, pow256(8));
    }
    if size == 1 {
        v % 0x100
    } else if size == 2 {
        v % 0x1_0000
    } else if size == 4 {
        v % 0x1_0000_0000
    } else {
        v
    }
}

impl EnumType {
    /// The name of a value, or its number where it has no name.
    pub fn text_of(&self, v: u64) -> (r: String)
        requires
            supported(Encoding::Unsigned, self.size),
        ensures
            r@ == enum_text(self@.names, self.size, v),
    {
        let mut i: usize = 0;
        while i < self.names.len()
            invariant
                i <= self.names@.len(),
                supported(Encoding::Unsigned, self.size),
                value_name(self@.names, self.size, v, 0) == value_name(
                    self@.names,
                    self.size,
                    v,
                    i as nat,
                ),
            decreases self.names@.len() - i,
        {
            assert(self@.names[i as int] == (self.names@[i as int].0, self.names@[i as int].1@));
            if low_bytes(self.names[i].0, self.size) == v {
                return String::from_str(self.names[i].1.as_str());
            }
            i += 1;
        }
        dec_text(v)
    }
}

impl Leaf<ScalarType, EnumType, String> {
    /// How the bytes of the leaf are read, and how many.
    pub fn encoding(&self) -> (r: Option<(Encoding, usize)>)
        ensures
            r == leaf_encoding(self@),
    {
        match self {
            Leaf::Scalar(s) => Some((s.encoding, s.size)),
            Leaf::Enumeration(e) => Some((Encoding::Unsigned, e.size)),
            Leaf::Pointer(n) => Some((Encoding::Unsigned, *n)),
            Leaf::BitField => None,
            Leaf::Opaque(_) => None,
        }
    }

    /// The number that the leaf holds in the bytes that start with it.
    pub fn value(&self, bytes: &[u8]) -> (r: Option<Value>)
        requires
            leaf_size(self@) <= bytes@.len(),
        ensures
            r == leaf_value(self@, bytes@),
    {
        match self.encoding() {
            None => None,
            Some((encoding, size)) => match scalar_value(encoding, size, bytes) {
                Ok(v) => Some(v),
                Err(_) => None,
            },
        }
    }
}

/// Writes the number that a leaf holds. `show` writes floating-point numbers.
pub fn write_bare<F: Fn(u64, bool) -> String>(l: &LeafType, v: Value, show: &F) -> (r: String)
    requires
        writes_any(*show),
        leaf_encoding(l@) matches Some((encoding, size)) && supported(encoding, size),
    ensures
        forall|floats: FloatTexts| #[trigger]
            writes(*show, floats) ==> r@ == bare_text(l@, v, floats),
{
    match (l, v) {
        (Leaf::Enumeration(e), Value::Unsigned(n)) => e.text_of(n),
        (Leaf::Pointer(_), Value::Unsigned(n)) => pointer_of(n),
        _ => write_value(v, show),
    }
}

/// Writes the number that a leaf holds in the bytes that start with it, where it
/// can be read.
pub fn format_value<F: Fn(u64, bool) -> String>(
    l: &LeafType,
    encoding: Encoding,
    size: usize,
    bytes: &[u8],
    show: &F,
) -> (r: Result<String, UnsupportedValue>)
    requires
        writes_any(*show),
        leaf_encoding(l@) == Some((encoding, size)),
        leaf_size(l@) <= bytes@.len(),
    ensures
        match r {
            Ok(t) => supported(encoding, size) && forall|floats: FloatTexts| #[trigger]
                writes(*show, floats) ==> t@ == bare_text(
                    l@,
                    value_of(encoding, size, bytes@),
                    floats,
                ),
            Err(e) => !supported(encoding, size) && e == (UnsupportedValue { encoding, size }),
        },
{
    match scalar_value(encoding, size, bytes) {
        Ok(v) => Ok(write_bare(l, v, show)),
        Err(e) => Err(e),
    }
}

/// Writes the leaf that `bytes` start with. `show` writes floating-point
/// numbers.
pub fn write_leaf<F: Fn(u64, bool) -> String>(l: &LeafType, bytes: &[u8], show: &F) -> (r: String)
    requires
        writes_any(*show),
        leaf_size(l@) <= bytes@.len(),
    ensures
        forall|floats: FloatTexts| #[trigger]
            writes(*show, floats) ==> r@ == leaf_text(l@, bytes@, floats),
{
    match l.encoding() {
        None => match l {
            Leaf::Opaque(t) => {
                let mut s: String = String::from_str("〈");
                s.append(t.as_str());
                s.append("〉");
                s
            },
            _ => String::from_str("〈位域暂不支持〉"),
        },
        Some((encoding, size)) => match format_value(l, encoding, size, bytes, show) {
            Err(e) => e.message(),
            Ok(value) => {
                let mut s: String = value;
                match l {
                    Leaf::Pointer(_) => {},
                    _ => {
                        s.append(" (");
                        s.append(l.label().as_str());
                        s.append(")");
                    },
                }
                s
            },
        },
    }
}

fn pointer_of(v: u64) -> (r: String)
    ensures
        r@ == pointer_text(v),
{
    if v == 0 {
        String::from_str("NULL")
    } else {
        let mut s: String = String::from_str("0x");
        s.append(hex_text(v, 8).as_str());
        s
    }
}

// ---------------------------------------------------------------------------
// Trees
// ---------------------------------------------------------------------------

/// How much of a value is shown.
#[derive(Debug, Clone, Copy, PartialEq, Eq, Structural)]
pub struct FmtOptions {
    /// The elements of an array that are shown, for each of its dimensions; all
    /// of them where there is no limit.
    pub max_elems: Option<usize>,
    /// The levels of nesting that are shown.
    pub max_depth: usize,
}

/// The number of elements that are shown of `count`.
pub open spec fn shown_elems(count: usize, max: Option<usize>) -> usize {
    match max {
        Some(m) => if count < m {
            count
        } else {
            m
        },
        None => count,
    }
}

/// What stands for an array, a structure or a union that is nested too deep.
pub open spec fn folded_line(pad: Seq<char>, name: Seq<char>, label: Seq<char>) -> Seq<char> {
    pad + name + " ("@ + label + ") = {…}"@
}

/// The line that opens an array, a structure or a union.
pub open spec fn opening_line(pad: Seq<char>, name: Seq<char>, label: Seq<char>) -> Seq<char> {
    pad + name + " ("@ + label + ") = {"@
}

/// The note on the elements that are left out.
pub open spec fn left_out_lines(pad: Seq<char>, left: nat) -> Seq<Seq<char>> {
    if left == 0 {
        Seq::empty()
    } else {
        seq![pad + "… 其余 "@ + dec(left) + " 项未显示"@]
    }
}

/// The options one level further down.
pub open spec fn one_down(o: FmtOptions) -> FmtOptions {
    FmtOptions { max_elems: o.max_elems, max_depth: (o.max_depth - 1) as usize }
}

/// The lines of a value called `name` that starts at `offset`. `pad` stands
/// before each line.
pub open spec fn tree_lines(
    t: TypeDesc,
    name: Seq<char>,
    offset: nat,
    pad: Seq<char>,
    o: FmtOptions,
    bytes: Seq<u8>,
    floats: FloatTexts,
) -> Seq<Seq<char>>
    decreases t, 0nat,
{
    match t {
        TypeDesc::Plain(l) => seq![
            pad + name + ": "@ + leaf_text(l@, bytes.skip(offset as int), floats),
        ],
        TypeDesc::Array(count, element) => if o.max_depth == 0 {
            seq![folded_line(pad, name, type_label(t))]
        } else {
            let n = shown_elems(count, o.max_elems);
            seq![opening_line(pad, name, type_label(t))] + element_lines(
                *element,
                n as nat,
                offset,
                pad + "    "@,
                one_down(o),
                bytes,
                floats,
            ) + left_out_lines(pad + "    "@, (count - n) as nat) + seq![pad + "}"@]
        },
        TypeDesc::Compound(_, _, members) => if o.max_depth == 0 {
            seq![folded_line(pad, name, type_label(t))]
        } else {
            seq![opening_line(pad, name, type_label(t))] + member_lines(
                members@,
                members@.len(),
                offset,
                pad + "    "@,
                one_down(o),
                bytes,
                floats,
            ) + seq![pad + "}"@]
        },
    }
}

/// The lines of the first `n` elements of an array.
pub open spec fn element_lines(
    element: TypeDesc,
    n: nat,
    offset: nat,
    pad: Seq<char>,
    o: FmtOptions,
    bytes: Seq<u8>,
    floats: FloatTexts,
) -> Seq<Seq<char>>
    decreases element, n,
{
    if n == 0 {
        Seq::empty()
    } else {
        let i = (n - 1) as nat;
        element_lines(element, i, offset, pad, o, bytes, floats) + tree_lines(
            element,
            "["@ + dec(i) + "]"@,
            offset + i * type_size(element),
            pad,
            o,
            bytes,
            floats,
        )
    }
}

/// The lines of the first `n` members of a structure or a union.
pub open spec fn member_lines(
    ms: Seq<Member>,
    n: nat,
    offset: nat,
    pad: Seq<char>,
    o: FmtOptions,
    bytes: Seq<u8>,
    floats: FloatTexts,
) -> Seq<Seq<char>>
    decreases ms, n,
{
    if n == 0 || n > ms.len() {
        Seq::empty()
    } else {
        let m = ms[n - 1];
        member_lines(ms, (n - 1) as nat, offset, pad, o, bytes, floats) + tree_lines(
            m.kind,
            m.name@,
            offset + m.offset as nat,
            pad,
            o,
            bytes,
            floats,
        )
    }
}

/// A line that is made of the parts of an opening or a folded one.
fn header(pad: &str, name: &str, t: &TypeDesc, end: &str) -> (r: String)
    ensures
        r@ == pad@ + name@ + " ("@ + type_label(*t) + end@,
{
    let mut s: String = String::from_str(pad);
    s.append(name);
    s.append(" (");
    s.append(t.label().as_str());
    s.append(end);
    s
}

/// Writes a value called `name` that starts at `offset` of `bytes`, line by
/// line. `show` writes floating-point numbers.
pub fn write_tree<F: Fn(u64, bool) -> String>(
    t: &TypeDesc,
    name: &str,
    offset: usize,
    pad: &str,
    o: FmtOptions,
    bytes: &[u8],
    show: &F,
    out: &mut Vec<String>,
)
    requires
        writes_any(*show),
        sound(*t),
        offset + type_size(*t) <= bytes@.len(),
    ensures
        forall|floats: FloatTexts| #[trigger]
            writes(*show, floats) ==> views(final(out)@) == views(old(out)@) + tree_lines(
                *t,
                name@,
                offset as nat,
                pad@,
                o,
                bytes@,
                floats,
            ),
    decreases t,
{
    let ghost start = out@;
    let len: usize = bytes.len();
    match t {
        TypeDesc::Plain(l) => {
            let rest: &[u8] = slice_subrange(bytes, offset, len);
            assert(rest@ =~= bytes@.skip(offset as int));
            let mut line: String = String::from_str(pad);
            line.append(name);
            line.append(": ");
            line.append(write_leaf(l, rest, show).as_str());
            out.push(line);
            assert(views(out@) =~= views(start).push(line@));
        },
        TypeDesc::Array(count, element) => {
            if o.max_depth == 0 {
                let line: String = header(pad, name, t, ") = {…}");
                out.push(line);
                assert(views(out@) =~= views(start).push(line@));
                return ;
            }
            let inner: FmtOptions = FmtOptions {
                max_elems: o.max_elems,
                max_depth: o.max_depth - 1,
            };
            let n: usize = match o.max_elems {
                Some(m) => if *count < m {
                    *count
                } else {
                    m
                },
                None => *count,
            };
            let mut deeper: String = String::from_str(pad);
            deeper.append("    ");
            let line: String = header(pad, name, t, ") = {");
            let ghost first = line@;
            out.push(line);
            let size: usize = element.size();
            assert(views(out@) =~= views(start) + seq![first]);
            let mut i: usize = 0;
            while i < n
                invariant
                    writes_any(*show),
                    i <= n <= *count,
                    *t == TypeDesc::Array(*count, *element),
                    sound(**element),
                    size == type_size(**element),
                    offset + *count * size <= bytes@.len() == len,
                    inner == one_down(o),
                    deeper@ == pad@ + "    "@,
                    forall|floats: FloatTexts| #[trigger]
                        writes(*show, floats) ==> views(out@) == views(start) + seq![first]
                            + element_lines(
                            **element,
                            i as nat,
                            offset as nat,
                            deeper@,
                            inner,
                            bytes@,
                            floats,
                        ),
                decreases n - i,
            {
                assert(i * size + size <= *count * size) by (nonlinear_arith)
                    requires
                        i < *count,
                        size >= 0,
                ;
                assert(i * size >= 0) by (nonlinear_arith)
                    requires
                        i >= 0,
                        size >= 0,
                ;
                let mut label: String = String::from_str("[");
                label.append(dec_text(i as u64).as_str());
                label.append("]");
                let at: usize = offset + i * size;
                let ghost before = out@;
                assert(decreases_to!(*t => *(t->Array_1)));
                write_tree(&**element, label.as_str(), at, deeper.as_str(), inner, bytes, show, out);
                assert forall|floats: FloatTexts| #[trigger] writes(*show, floats) implies views(
                    out@,
                ) == views(start) + seq![first] + element_lines(
                    **element,
                    (i + 1) as nat,
                    offset as nat,
                    deeper@,
                    inner,
                    bytes@,
                    floats,
                ) by {
                    assert(views(out@) =~= views(before) + tree_lines(
                        **element,
                        label@,
                        at as nat,
                        deeper@,
                        inner,
                        bytes@,
                        floats,
                    ));
                }
                i += 1;
            }
            let ghost elements = out@;
            if n < *count {
                let mut note: String = String::from_str(deeper.as_str());
                note.append("… 其余 ");
                note.append(dec_text((*count - n) as u64).as_str());
                note.append(" 项未显示");
                out.push(note);
                assert(views(out@) =~= views(elements).push(note@));
            }
            let ghost noted = out@;
            let mut end: String = String::from_str(pad);
            end.append("}");
            out.push(end);
            assert(views(out@) =~= views(noted).push(end@));
            assert(views(noted) =~= views(elements) + left_out_lines(deeper@, (*count - n) as nat));
            assert forall|floats: FloatTexts| #[trigger] writes(*show, floats) implies views(out@)
                == views(start) + tree_lines(
                *t,
                name@,
                offset as nat,
                pad@,
                o,
                bytes@,
                floats,
            ) by {
                assert(views(out@) =~= views(start) + tree_lines(
                    *t,
                    name@,
                    offset as nat,
                    pad@,
                    o,
                    bytes@,
                    floats,
                ));
            }
        },
        TypeDesc::Compound(label, size, members) => {
            if o.max_depth == 0 {
                let line: String = header(pad, name, t, ") = {…}");
                out.push(line);
                assert(views(out@) =~= views(start).push(line@));
                return ;
            }
            let inner: FmtOptions = FmtOptions {
                max_elems: o.max_elems,
                max_depth: o.max_depth - 1,
            };
            let mut deeper: String = String::from_str(pad);
            deeper.append("    ");
            let line: String = header(pad, name, t, ") = {");
            let ghost first = line@;
            out.push(line);
            assert(views(out@) =~= views(start) + seq![first]);
            let ghost ms = members@;
            let mut i: usize = 0;
            while i < members.len()
                invariant
                    writes_any(*show),
                    ms == members@,
                    i <= ms.len(),
                    *t == TypeDesc::Compound(*label, *size, *members),
                    members_sound(ms, ms.len(), *size),
                    offset + *size <= bytes@.len() == len,
                    inner == one_down(o),
                    deeper@ == pad@ + "    "@,
                    forall|floats: FloatTexts| #[trigger]
                        writes(*show, floats) ==> views(out@) == views(start) + seq![first]
                            + member_lines(
                            ms,
                            i as nat,
                            offset as nat,
                            deeper@,
                            inner,
                            bytes@,
                            floats,
                        ),
                decreases ms.len() - i,
            {
                proof {
                    lemma_members_are_smaller(*t, i as int);
                    lemma_members_sound_at(ms, ms.len(), *size, i as nat);
                }
                let m: &Member = &members[i];
                let at: usize = offset + m.offset;
                let ghost before = out@;
                write_tree(&m.kind, m.name.as_str(), at, deeper.as_str(), inner, bytes, show, out);
                assert forall|floats: FloatTexts| #[trigger] writes(*show, floats) implies views(
                    out@,
                ) == views(start) + seq![first] + member_lines(
                    ms,
                    (i + 1) as nat,
                    offset as nat,
                    deeper@,
                    inner,
                    bytes@,
                    floats,
                ) by {
                    assert(views(out@) =~= views(before) + tree_lines(
                        m.kind,
                        m.name@,
                        at as nat,
                        deeper@,
                        inner,
                        bytes@,
                        floats,
                    ));
                }
                i += 1;
            }
            let ghost inside = out@;
            let mut end: String = String::from_str(pad);
            end.append("}");
            out.push(end);
            assert(views(out@) =~= views(inside).push(end@));
            assert forall|floats: FloatTexts| #[trigger] writes(*show, floats) implies views(out@)
                == views(start) + tree_lines(
                *t,
                name@,
                offset as nat,
                pad@,
                o,
                bytes@,
                floats,
            ) by {
                assert(views(out@) =~= views(start) + tree_lines(
                    *t,
                    name@,
                    offset as nat,
                    pad@,
                    o,
                    bytes@,
                    floats,
                ));
            }
        },
    }
}

// ---------------------------------------------------------------------------
// What is shown
// ---------------------------------------------------------------------------

/// The numbers below which the values of `size` bytes lie.
pub open spec fn value_range(size: usize) -> int {
    if size == 1 {
        0x100
    } else if size == 2 {
        0x1_0000
    } else if size == 4 {
        0x1_0000_0000
    } else {
        0x1_0000_0000_0000_0000
    }
}

/// A value of an enumeration is shown by the first name that is given to it, and
/// by its number where no name is. Only as many bytes of a name's number count as
/// the enumeration has.
pub proof fn law_enumerations_show_their_names(
    names: Seq<(u64, Seq<char>)>,
    size: usize,
    v: u64,
    k: int,
)
    requires
        size == 1 || size == 2 || size == 4 || size == 8,
    ensures
        0 <= k < names.len() && names[k].0 as int % value_range(size) == v && (forall|j: int|
            0 <= j < k ==> (#[trigger] names[j]).0 as int % value_range(size) != v) ==> enum_text(
            names,
            size,
            v,
        ) == names[k].1,
        (forall|j: int|
            0 <= j < names.len() ==> (#[trigger] names[j]).0 as int % value_range(size) != v)
            ==> enum_text(names, size, v) == dec(v as nat),
{
    reveal_with_fuel(pow256, 9);
    assert(pow256(size as nat) == value_range(size));
    if 0 <= k < names.len() && (forall|j: int|
        0 <= j < k ==> (#[trigger] names[j]).0 as int % value_range(size) != v) {
        lemma_names_passed(names, size, v, 0, k as nat);
    }
    if forall|j: int|
        0 <= j < names.len() ==> (#[trigger] names[j]).0 as int % value_range(size) != v {
        lemma_names_passed(names, size, v, 0, names.len());
    }
}

proof fn lemma_names_passed(
    names: Seq<(u64, Seq<char>)>,
    size: usize,
    v: u64,
    from: nat,
    to: nat,
)
    requires
        pow256(size as nat) == value_range(size),
        from <= to <= names.len(),
        forall|j: int|
            0 <= j < to ==> (#[trigger] names[j]).0 as int % value_range(size) != v,
    ensures
        value_name(names, size, v, from) == value_name(names, size, v, to),
    decreases to - from,
{
    if from < to {
        assert(names[from as int].0 as int % value_range(size) != v);
        lemma_names_passed(names, size, v, from + 1, to);
    }
}

/// A number is shown as a number, a pointer by its address or as `NULL`; the name
/// of the type stands behind all but pointers.
pub proof fn law_leaves_show_their_value(
    l: LeafData,
    bytes: Seq<u8>,
    floats: FloatTexts,
    label: Seq<char>,
    size: usize,
    encoding: Encoding,
)
    requires
        supported(encoding, size),
    ensures
        l matches Leaf::Scalar(s) && s.label == label && s.size == size && s.encoding == encoding
            ==> {
            let end = seq![' ', '('] + label + seq![')'];
            match value_of(encoding, size, bytes) {
                Value::Signed(n) => leaf_text(l, bytes, floats) == (if n < 0 {
                    seq!['-'] + dec((-n) as nat)
                } else {
                    dec(n as nat)
                }) + end,
                Value::Unsigned(n) => leaf_text(l, bytes, floats) == dec(n as nat) + end,
                Value::Single(b) => leaf_text(l, bytes, floats) == floats(b as u64, false) + end,
                Value::Double(b) => leaf_text(l, bytes, floats) == floats(b, true) + end,
            }
        },
        l == Leaf::<crate::layout::ScalarData, crate::layout::EnumData, Seq<char>>::Pointer(size)
            ==> (value_of(Encoding::Unsigned, size, bytes) matches Value::Unsigned(n) && (n == 0
            ==> leaf_text(l, bytes, floats) == "NULL"@) && (n != 0 ==> leaf_text(l, bytes, floats)
            == "0x"@ + hex(n as nat, 8))),
        match l {
            Leaf::Enumeration(e) => e.size == size && e.label == label ==> (value_of(
                Encoding::Unsigned,
                size,
                bytes,
            ) matches Value::Unsigned(n) && leaf_text(l, bytes, floats) == enum_text(
                e.names,
                size,
                n,
            ) + (seq![' ', '('] + label + seq![')'])),
            _ => true,
        },
{
    reveal_strlit(" (");
    reveal_strlit(")");
    let end = seq![' ', '('] + label + seq![')'];
    let n = value_of(encoding, size, bytes);
    match l {
        Leaf::Scalar(s) => {
            if s.label == label && s.size == size && s.encoding == encoding {
                let t = bare_text(l, n, floats);
                assert(t + " ("@ + label + ")"@ =~= t + end);
            }
        },
        Leaf::Enumeration(e) => {
            if e.size == size && e.label == label {
                let t = bare_text(l, value_of(Encoding::Unsigned, size, bytes), floats);
                assert(t + " ("@ + label + ")"@ =~= t + end);
            }
        },
        _ => {},
    }
}

/// The tree of an array shows its elements, each by its number and read that many
/// elements behind the start of the array, up to the limit; the tree of a
/// structure or a union shows all members, each by its name and read at its place.
/// `at` is where the lines of the part start, which follow each other in order.
pub proof fn law_trees_show_every_part(
    t: TypeDesc,
    name: Seq<char>,
    offset: nat,
    pad: Seq<char>,
    o: FmtOptions,
    bytes: Seq<u8>,
    floats: FloatTexts,
    i: int,
)
    requires
        o.max_depth > 0,
        0 <= i,
    ensures
        ({
            let lines = tree_lines(t, name, offset, pad, o, bytes, floats);
            let inner = pad + "    "@;
            let below = FmtOptions { max_elems: o.max_elems, max_depth: (o.max_depth - 1) as usize };
            match t {
                TypeDesc::Plain(l) => lines == seq![
                    pad + name + ": "@ + leaf_text(l@, bytes.skip(offset as int), floats),
                ],
                TypeDesc::Array(count, element) => i < count && (o.max_elems matches Some(m) ==> i
                    < m) ==> {
                    let part = tree_lines(
                        *element,
                        "["@ + dec(i as nat) + "]"@,
                        offset + i as nat * type_size(*element),
                        inner,
                        below,
                        bytes,
                        floats,
                    );
                    let at = 1 + element_lines(
                        *element,
                        i as nat,
                        offset,
                        inner,
                        below,
                        bytes,
                        floats,
                    ).len();
                    &&& at + part.len() < lines.len()
                    &&& lines.subrange(at as int, (at + part.len()) as int) == part
                },
                TypeDesc::Compound(_, _, ms) => i < ms@.len() ==> {
                    let part = tree_lines(
                        ms@[i].kind,
                        ms@[i].name@,
                        offset + ms@[i].offset as nat,
                        inner,
                        below,
                        bytes,
                        floats,
                    );
                    let at = 1 + member_lines(ms@, i as nat, offset, inner, below, bytes, floats).len();
                    &&& at + part.len() < lines.len()
                    &&& lines.subrange(at as int, (at + part.len()) as int) == part
                },
            }
        }),
{
    let lines = tree_lines(t, name, offset, pad, o, bytes, floats);
    let inner = pad + "    "@;
    let below = FmtOptions { max_elems: o.max_elems, max_depth: (o.max_depth - 1) as usize };
    assert(below == one_down(o));
    match t {
        TypeDesc::Plain(_) => {},
        TypeDesc::Array(count, element) => {
            let n = shown_elems(count, o.max_elems) as nat;
            if i < n {
                lemma_elements_in_order(
                    *element,
                    n,
                    offset,
                    inner,
                    below,
                    bytes,
                    floats,
                    i as nat,
                );
                let all = element_lines(*element, n, offset, inner, below, bytes, floats);
                let at = element_lines(*element, i as nat, offset, inner, below, bytes, floats).len();
                let part = tree_lines(
                    *element,
                    "["@ + dec(i as nat) + "]"@,
                    offset + i as nat * type_size(*element),
                    inner,
                    below,
                    bytes,
                    floats,
                );
                assert(all.subrange(at as int, (at + part.len()) as int) == part);
                assert(lines.subrange((1 + at) as int, (1 + at + part.len()) as int) =~= all.subrange(
                    at as int,
                    (at + part.len()) as int,
                ));
            }
        },
        TypeDesc::Compound(_, _, ms) => {
            if i < ms@.len() {
                lemma_members_in_order(
                    ms@,
                    ms@.len(),
                    offset,
                    inner,
                    below,
                    bytes,
                    floats,
                    i as nat,
                );
                let all = member_lines(ms@, ms@.len(), offset, inner, below, bytes, floats);
                let at = member_lines(ms@, i as nat, offset, inner, below, bytes, floats).len();
                let part = tree_lines(
                    ms@[i].kind,
                    ms@[i].name@,
                    offset + ms@[i].offset as nat,
                    inner,
                    below,
                    bytes,
                    floats,
                );
                assert(all.subrange(at as int, (at + part.len()) as int) == part);
                assert(lines.subrange((1 + at) as int, (1 + at + part.len()) as int) =~= all.subrange(
                    at as int,
                    (at + part.len()) as int,
                ));
            }
        },
    }
}

proof fn lemma_elements_in_order(
    element: TypeDesc,
    n: nat,
    offset: nat,
    pad: Seq<char>,
    o: FmtOptions,
    bytes: Seq<u8>,
    floats: FloatTexts,
    i: nat,
)
    requires
        i < n,
    ensures
        ({
            let all = element_lines(element, n, offset, pad, o, bytes, floats);
            let at = element_lines(element, i, offset, pad, o, bytes, floats).len();
            let part = tree_lines(
                element,
                "["@ + dec(i) + "]"@,
                offset + i * type_size(element),
                pad,
                o,
                bytes,
                floats,
            );
            &&& at + part.len() <= all.len()
            &&& all.subrange(at as int, (at + part.len()) as int) == part
        }),
    decreases n,
{
    reveal_with_fuel(element_lines, 2);
    let all = element_lines(element, n, offset, pad, o, bytes, floats);
    let front = element_lines(element, (n - 1) as nat, offset, pad, o, bytes, floats);
    let at = element_lines(element, i, offset, pad, o, bytes, floats).len();
    let part = tree_lines(
        element,
        "["@ + dec(i) + "]"@,
        offset + i * type_size(element),
        pad,
        o,
        bytes,
        floats,
    );
    if i < n - 1 {
        lemma_elements_in_order(element, (n - 1) as nat, offset, pad, o, bytes, floats, i);
        assert(all.subrange(at as int, (at + part.len()) as int) =~= front.subrange(
            at as int,
            (at + part.len()) as int,
        ));
    } else {
        assert(all == front + part);
        assert(all.subrange(at as int, (at + part.len()) as int) =~= part);
    }
}

proof fn lemma_members_in_order(
    ms: Seq<Member>,
    n: nat,
    offset: nat,
    pad: Seq<char>,
    o: FmtOptions,
    bytes: Seq<u8>,
    floats: FloatTexts,
    i: nat,
)
    requires
        i < n <= ms.len(),
    ensures
        ({
            let all = member_lines(ms, n, offset, pad, o, bytes, floats);
            let at = member_lines(ms, i, offset, pad, o, bytes, floats).len();
            let part = tree_lines(
                ms[i as int].kind,
                ms[i as int].name@,
                offset + ms[i as int].offset as nat,
                pad,
                o,
                bytes,
                floats,
            );
            &&& at + part.len() <= all.len()
            &&& all.subrange(at as int, (at + part.len()) as int) == part
        }),
    decreases n,
{
    reveal_with_fuel(member_lines, 2);
    let all = member_lines(ms, n, offset, pad, o, bytes, floats);
    let front = member_lines(ms, (n - 1) as nat, offset, pad, o, bytes, floats);
    let at = member_lines(ms, i, offset, pad, o, bytes, floats).len();
    let part = tree_lines(
        ms[i as int].kind,
        ms[i as int].name@,
        offset + ms[i as int].offset as nat,
        pad,
        o,
        bytes,
        floats,
    );
    if i < n - 1 {
        lemma_members_in_order(ms, (n - 1) as nat, offset, pad, o, bytes, floats, i);
        assert(all.subrange(at as int, (at + part.len()) as int) =~= front.subrange(
            at as int,
            (at + part.len()) as int,
        ));
    } else {
        assert(all == front + part);
        assert(all.subrange(at as int, (at + part.len()) as int) =~= part);
    }
}

/// The number that is plotted for a leaf is the one that is shown for it: a leaf
/// that is a number has it, and nothing else has one.
pub proof fn law_plotted_numbers_are_read_alike(l: LeafData, bytes: Seq<u8>)
    ensures
        match l {
            Leaf::Scalar(s) => supported(s.encoding, s.size) ==> leaf_value(l, bytes) == Some(
                value_of(s.encoding, s.size, bytes),
            ),
            Leaf::Enumeration(e) => supported(Encoding::Unsigned, e.size) ==> leaf_value(l, bytes)
                == Some(value_of(Encoding::Unsigned, e.size, bytes)),
            Leaf::Pointer(n) => supported(Encoding::Unsigned, n) ==> leaf_value(l, bytes) == Some(
                value_of(Encoding::Unsigned, n, bytes),
            ),
            Leaf::BitField => leaf_value(l, bytes) is None,
            Leaf::Opaque(_) => leaf_value(l, bytes) is None,
        },
{
}

/// A tree opens with the name and the type and closes with a brace; an array that
/// is not shown whole tells how many elements are left out, and what is nested too
/// deep is one line.
pub proof fn law_trees_open_and_close(
    t: TypeDesc,
    name: Seq<char>,
    offset: nat,
    pad: Seq<char>,
    o: FmtOptions,
    bytes: Seq<u8>,
    floats: FloatTexts,
)
    requires
        !(t is Plain),
    ensures
        ({
            let lines = tree_lines(t, name, offset, pad, o, bytes, floats);
            let title = pad + name + seq![' ', '('] + type_label(t);
            &&& o.max_depth == 0 ==> lines == seq![title + ") = {…}"@]
            &&& o.max_depth > 0 ==> {
                &&& lines.len() >= 2
                &&& lines[0] == title + ") = {"@
                &&& lines.last() == pad.push('}')
                &&& match (t, o.max_elems) {
                    (TypeDesc::Array(count, _), Some(m)) => count > m ==> lines[lines.len() - 2]
                        == pad + "    "@ + "… 其余 "@ + dec((count - m) as nat)
                        + " 项未显示"@,
                    _ => true,
                }
            }
        }),
{
    reveal_strlit(" (");
    reveal_strlit("}");
    assert(" ("@ =~= seq![' ', '(']);
    assert(pad + "}"@ =~= pad.push('}'));
}

}
