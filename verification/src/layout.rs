//! The types of variables: scalars, enumerations and pointers, and the arrays,
//! structures and unions that are made of them.
//!
//! A type is a tree whose leaves are what memory is read as. A leaf has a number,
//! in the order in which the leaves stand, a place in the variable, and a label
//! that leads to it, such as `[0].v.x`.
use vstd::prelude::*;
use crate::number::{dec, dec_text};
use crate::symbol::Encoding;

verus! {

// ---------------------------------------------------------------------------
// Leaves
// ---------------------------------------------------------------------------

/// A scalar type.
#[derive(Debug)]
pub struct ScalarType {
    pub label: String,
    pub size: usize,
    pub encoding: Encoding,
}

/// What a [`ScalarType`] holds.
pub struct ScalarData {
    pub label: Seq<char>,
    pub size: usize,
    pub encoding: Encoding,
}

impl View for ScalarType {
    type V = ScalarData;

    open spec fn view(&self) -> ScalarData {
        ScalarData { label: self.label@, size: self.size, encoding: self.encoding }
    }
}

/// An enumeration: the name of the type, its size, and the name of each value.
#[derive(Debug)]
pub struct EnumType {
    pub label: String,
    pub size: usize,
    pub names: Vec<(u64, String)>,
}

/// What an [`EnumType`] holds.
pub struct EnumData {
    pub label: Seq<char>,
    pub size: usize,
    pub names: Seq<(u64, Seq<char>)>,
}

/// The values of an enumeration with their names.
pub open spec fn name_views(names: Seq<(u64, String)>) -> Seq<(u64, Seq<char>)> {
    names.map_values(|n: (u64, String)| (n.0, n.1@))
}

impl View for EnumType {
    type V = EnumData;

    open spec fn view(&self) -> EnumData {
        EnumData { label: self.label@, size: self.size, names: name_views(self.names@) }
    }
}

/// What a piece of memory is read as. `S` is the form of a scalar type, `E` that
/// of an enumeration, `T` that of text.
#[derive(Debug)]
pub enum Leaf<S, E, T> {
    Scalar(S),
    Enumeration(E),
    /// An address of that many bytes.
    Pointer(usize),
    /// Some bits of a byte, which are not read.
    BitField,
    /// A type that is not read, and why.
    Opaque(T),
}

/// What a piece of memory is read as.
pub type LeafType = Leaf<ScalarType, EnumType, String>;

/// What a [`LeafType`] holds.
pub type LeafData = Leaf<ScalarData, EnumData, Seq<char>>;

impl View for Leaf<ScalarType, EnumType, String> {
    type V = LeafData;

    open spec fn view(&self) -> LeafData {
        match *self {
            Leaf::Scalar(s) => Leaf::Scalar(s@),
            Leaf::Enumeration(e) => Leaf::Enumeration(e@),
            Leaf::Pointer(n) => Leaf::Pointer(n),
            Leaf::BitField => Leaf::BitField,
            Leaf::Opaque(t) => Leaf::Opaque(t@),
        }
    }
}

/// The bytes that a leaf takes.
pub open spec fn leaf_size(l: LeafData) -> usize {
    match l {
        Leaf::Scalar(s) => s.size,
        Leaf::Enumeration(e) => e.size,
        Leaf::Pointer(n) => n,
        Leaf::BitField => 0,
        Leaf::Opaque(_) => 0,
    }
}

// ---------------------------------------------------------------------------
// Types
// ---------------------------------------------------------------------------

/// The type of a variable.
#[derive(Debug)]
pub enum TypeDesc {
    Plain(LeafType),
    /// So many elements, one behind the other.
    Array(usize, Box<TypeDesc>),
    /// A structure or a union: its name, its size and its members.
    Compound(String, usize, Vec<Member>),
}

/// A member of a structure or a union: its name, where it starts, and its type.
#[derive(Debug)]
pub struct Member {
    pub name: String,
    pub offset: usize,
    pub kind: TypeDesc,
}

/// The bytes that a value of a type takes.
pub open spec fn type_size(t: TypeDesc) -> nat
    decreases t,
{
    match t {
        TypeDesc::Plain(l) => leaf_size(l@) as nat,
        TypeDesc::Array(count, element) => count as nat * type_size(*element),
        TypeDesc::Compound(_, size, _) => size as nat,
    }
}

/// The number of leaves of a type.
pub open spec fn leaf_count(t: TypeDesc) -> nat
    decreases t, 0nat,
{
    match t {
        TypeDesc::Plain(_) => 1,
        TypeDesc::Array(count, element) => count as nat * leaf_count(*element),
        TypeDesc::Compound(_, _, members) => members_leaves(members@, members@.len()),
    }
}

/// The number of leaves of the first `n` members.
pub open spec fn members_leaves(ms: Seq<Member>, n: nat) -> nat
    decreases ms, n,
{
    if n == 0 || n > ms.len() {
        0
    } else {
        members_leaves(ms, (n - 1) as nat) + leaf_count(ms[n - 1].kind)
    }
}

/// Whether a type hangs together: every member lies inside its structure, and
/// sizes and numbers of leaves can be counted.
pub open spec fn sound(t: TypeDesc) -> bool
    decreases t, 0nat,
{
    &&& type_size(t) <= usize::MAX
    &&& leaf_count(t) <= usize::MAX
    &&& match t {
        TypeDesc::Plain(_) => true,
        TypeDesc::Array(_, element) => sound(*element),
        TypeDesc::Compound(_, size, members) => members_sound(members@, members@.len(), size),
    }
}

/// Whether the first `n` members hang together and lie inside `size` bytes.
pub open spec fn members_sound(ms: Seq<Member>, n: nat, size: usize) -> bool
    decreases ms, n,
{
    if n == 0 || n > ms.len() {
        true
    } else {
        &&& members_sound(ms, (n - 1) as nat, size)
        &&& sound(ms[n - 1].kind)
        &&& ms[n - 1].offset + type_size(ms[n - 1].kind) <= size
    }
}

impl TypeDesc {
    /// The bytes that a value of the type takes.
    pub fn size(&self) -> (r: usize)
        requires
            sound(*self),
        ensures
            r == type_size(*self),
        decreases self,
    {
        match self {
            TypeDesc::Plain(l) => l.size(),
            TypeDesc::Array(count, element) => {
                let n: usize = element.size();
                *count * n
            },
            TypeDesc::Compound(_, size, _) => *size,
        }
    }
}

impl EnumType {
    fn copy(&self) -> (r: EnumType)
        ensures
            r@ == self@,
    {
        let mut names: Vec<(u64, String)> = Vec::new();
        let mut i: usize = 0;
        while i < self.names.len()
            invariant
                i <= self.names@.len(),
                names@.len() == i,
                forall|k: int|
                    0 <= k < i ==> (#[trigger] names@[k]).0 == self.names@[k].0 && names@[k].1@
                        == self.names@[k].1@,
            decreases self.names@.len() - i,
        {
            names.push((self.names[i].0, String::from_str(self.names[i].1.as_str())));
            i += 1;
        }
        assert(name_views(names@) =~= name_views(self.names@));
        EnumType { label: String::from_str(self.label.as_str()), size: self.size, names }
    }
}

impl Leaf<ScalarType, EnumType, String> {
    /// Another leaf of the same type.
    pub fn copy(&self) -> (r: LeafType)
        ensures
            r@ == self@,
    {
        match self {
            Leaf::Scalar(s) => Leaf::Scalar(
                ScalarType {
                    label: String::from_str(s.label.as_str()),
                    size: s.size,
                    encoding: s.encoding,
                },
            ),
            Leaf::Enumeration(e) => Leaf::Enumeration(e.copy()),
            Leaf::Pointer(n) => Leaf::Pointer(*n),
            Leaf::BitField => Leaf::BitField,
            Leaf::Opaque(t) => Leaf::Opaque(String::from_str(t.as_str())),
        }
    }

    /// The bytes that the leaf takes.
    pub fn size(&self) -> (r: usize)
        ensures
            r == leaf_size(self@),
    {
        match self {
            Leaf::Scalar(s) => s.size,
            Leaf::Enumeration(e) => e.size,
            Leaf::Pointer(n) => *n,
            Leaf::BitField => 0,
            Leaf::Opaque(_) => 0,
        }
    }
}

// ---------------------------------------------------------------------------
// The leaves of a type
// ---------------------------------------------------------------------------

/// A leaf of a type: the label that leads to it, where it starts, and what it
/// is.
pub struct LeafSite {
    pub label: Seq<char>,
    pub offset: nat,
    pub kind: LeafData,
}

/// Leaf number `k` of a type.
pub open spec fn leaf_at(t: TypeDesc, k: nat) -> LeafSite
    decreases t, 0nat,
{
    match t {
        TypeDesc::Plain(l) => LeafSite { label: Seq::empty(), offset: 0, kind: l@ },
        TypeDesc::Array(_, element) => {
            let n = leaf_count(*element);
            let inner = leaf_at(*element, k % n);
            LeafSite {
                label: "["@ + dec(k / n) + "]"@ + inner.label,
                offset: (k / n) * type_size(*element) + inner.offset,
                kind: inner.kind,
            }
        },
        TypeDesc::Compound(_, _, members) => member_leaf(members@, members@.len(), k),
    }
}

/// Leaf number `k` of the first `n` members.
pub open spec fn member_leaf(ms: Seq<Member>, n: nat, k: nat) -> LeafSite
    decreases ms, n,
{
    if n == 0 || n > ms.len() {
        LeafSite { label: Seq::empty(), offset: 0, kind: Leaf::BitField }
    } else {
        let before = members_leaves(ms, (n - 1) as nat);
        if k < before {
            member_leaf(ms, (n - 1) as nat, k)
        } else {
            let m = ms[n - 1];
            let inner = leaf_at(m.kind, (k - before) as nat);
            LeafSite {
                label: "."@ + m.name@ + inner.label,
                offset: m.offset as nat + inner.offset,
                kind: inner.kind,
            }
        }
    }
}

/// A type is larger than the types of its members.
pub proof fn lemma_members_are_smaller(t: TypeDesc, i: int)
    requires
        t is Compound,
        0 <= i < t->Compound_2@.len(),
    ensures
        decreases_to!(t => t->Compound_2@[i].kind),
{
    let members = t->Compound_2;
    assert(decreases_to!(t => t->Compound_2));
    assert(decreases_to!(members => members@));
    assert(decreases_to!(members@ => members@[i]));
    assert(decreases_to!(members@[i] => members@[i].kind));
}

proof fn lemma_members_leaves_grow(ms: Seq<Member>, a: nat, b: nat)
    requires
        a <= b <= ms.len(),
    ensures
        members_leaves(ms, a) <= members_leaves(ms, b),
    decreases b,
{
    if a < b {
        lemma_members_leaves_grow(ms, a, (b - 1) as nat);
    }
}

/// A member of a type that hangs together hangs together, and lies inside.
pub proof fn lemma_members_sound_at(ms: Seq<Member>, n: nat, size: usize, i: nat)
    requires
        members_sound(ms, n, size),
        i < n <= ms.len(),
    ensures
        sound(ms[i as int].kind),
        ms[i as int].offset + type_size(ms[i as int].kind) <= size,
    decreases n,
{
    if i + 1 < n {
        lemma_members_sound_at(ms, (n - 1) as nat, size, i);
    }
}

/// Member `i` holds leaf `k`, so that leaf is one of its leaves.
proof fn lemma_member_leaf_at(ms: Seq<Member>, n: nat, k: nat, i: nat)
    requires
        i < n <= ms.len(),
        members_leaves(ms, i) <= k < members_leaves(ms, i + 1),
    ensures
        member_leaf(ms, n, k) == member_leaf(ms, i + 1, k),
    decreases n,
{
    if i + 1 < n {
        lemma_members_leaves_grow(ms, i + 1, (n - 1) as nat);
        lemma_member_leaf_at(ms, (n - 1) as nat, k, i);
    }
}

/// A leaf of an array is a leaf of one of its elements.
pub proof fn lemma_index_split(k: nat, n: nat, count: nat, size: nat)
    requires
        k < count * n,
    ensures
        n > 0,
        k / n < count,
        k % n < n,
        (k / n) * size + size <= count * size,
{
    assert(n > 0) by (nonlinear_arith)
        requires
            k < count * n,
            k >= 0,
            n >= 0,
    ;
    assert(k / n < count) by (nonlinear_arith)
        requires
            k < count * n,
            n > 0,
    ;
    let i = k / n;
    assert(i * size + size <= count * size) by (nonlinear_arith)
        requires
            i < count,
            size >= 0,
    ;
}

/// A leaf lies inside the variable whose type it is a leaf of.
pub proof fn law_leaves_lie_inside(t: TypeDesc, k: nat)
    requires
        sound(t),
        k < leaf_count(t),
    ensures
        leaf_at(t, k).offset + leaf_size(leaf_at(t, k).kind) <= type_size(t),
    decreases t, 0nat,
{
    match t {
        TypeDesc::Plain(_) => {},
        TypeDesc::Array(count, element) => {
            let n = leaf_count(*element);
            lemma_index_split(k, n, count as nat, type_size(*element));
            law_leaves_lie_inside(*element, k % n);
        },
        TypeDesc::Compound(_, size, members) => {
            lemma_member_leaves_inside(members@, members@.len(), size, k);
        },
    }
}

proof fn lemma_member_leaves_inside(ms: Seq<Member>, n: nat, size: usize, k: nat)
    requires
        members_sound(ms, n, size),
        n <= ms.len(),
        k < members_leaves(ms, n),
    ensures
        member_leaf(ms, n, k).offset + leaf_size(member_leaf(ms, n, k).kind) <= size,
    decreases ms, n,
{
    let before = members_leaves(ms, (n - 1) as nat);
    if k < before {
        lemma_member_leaves_inside(ms, (n - 1) as nat, size, k);
    } else {
        law_leaves_lie_inside(ms[n - 1].kind, (k - before) as nat);
    }
}

impl TypeDesc {
    /// The number of leaves of the type.
    pub fn leaves(&self) -> (r: usize)
        requires
            sound(*self),
        ensures
            r == leaf_count(*self),
        decreases self,
    {
        match self {
            TypeDesc::Plain(_) => 1,
            TypeDesc::Array(count, element) => {
                let n: usize = element.leaves();
                *count * n
            },
            TypeDesc::Compound(label, size, members) => {
                let ghost ms = members@;
                let mut total: usize = 0;
                let mut i: usize = 0;
                while i < members.len()
                    invariant
                        ms == members@,
                        *self == TypeDesc::Compound(*label, *size, *members),
                        i <= ms.len(),
                        total == members_leaves(ms, i as nat),
                        members_leaves(ms, ms.len()) <= usize::MAX,
                        members_sound(ms, ms.len(), *size),
                    decreases ms.len() - i,
                {
                    proof {
                        lemma_members_are_smaller(*self, i as int);
                        lemma_members_sound_at(ms, ms.len(), *size, i as nat);
                        lemma_members_leaves_grow(ms, (i + 1) as nat, ms.len());
                    }
                    total = total + members[i].kind.leaves();
                    i += 1;
                }
                total
            },
        }
    }
}

impl TypeDesc {
    /// Leaf number `k` of the type: the label that leads to it, where it starts,
    /// and what it is.
    pub fn leaf(&self, k: usize) -> (r: (String, usize, &LeafType))
        requires
            sound(*self),
            k < leaf_count(*self),
        ensures
            r.0@ == leaf_at(*self, k as nat).label,
            r.1 == leaf_at(*self, k as nat).offset,
            r.2@ == leaf_at(*self, k as nat).kind,
        decreases self,
    {
        proof {
            law_leaves_lie_inside(*self, k as nat);
        }
        match self {
            TypeDesc::Plain(l) => (String::new(), 0, l),
            TypeDesc::Array(count, element) => {
                let n: usize = element.leaves();
                proof {
                    lemma_index_split(k as nat, n as nat, *count as nat, type_size(**element));
                }
                let i: usize = k / n;
                let inner: (String, usize, &LeafType) = element.leaf(k % n);
                let size: usize = element.size();
                let mut label: String = String::from_str("[");
                label.append(dec_text(i as u64).as_str());
                label.append("]");
                label.append(inner.0.as_str());
                assert(i as nat * size as nat <= usize::MAX);
                (label, i * size + inner.1, inner.2)
            },
            TypeDesc::Compound(label, size, members) => {
                let ghost ms = members@;
                let mut before: usize = 0;
                let mut i: usize = 0;
                while i < members.len()
                    invariant
                        ms == members@,
                        *self == TypeDesc::Compound(*label, *size, *members),
                        i <= ms.len(),
                        before == members_leaves(ms, i as nat),
                        before <= k < members_leaves(ms, ms.len()),
                        members_leaves(ms, ms.len()) <= usize::MAX,
                        members_sound(ms, ms.len(), *size),
                        leaf_at(*self, k as nat).offset <= usize::MAX,
                    decreases ms.len() - i,
                {
                    proof {
                        lemma_members_are_smaller(*self, i as int);
                        lemma_members_sound_at(ms, ms.len(), *size, i as nat);
                        lemma_members_leaves_grow(ms, (i + 1) as nat, ms.len());
                    }
                    let m: &Member = &members[i];
                    let n: usize = m.kind.leaves();
                    if k < before + n {
                        proof {
                            lemma_member_leaf_at(ms, ms.len(), k as nat, i as nat);
                        }
                        let inner: (String, usize, &LeafType) = m.kind.leaf(k - before);
                        let mut label: String = String::from_str(".");
                        label.append(m.name.as_str());
                        label.append(inner.0.as_str());
                        return (label, m.offset + inner.1, inner.2);
                    }
                    before += n;
                    i += 1;
                }
                (String::new(), 0, &Leaf::BitField)
            },
        }
    }
}

// ---------------------------------------------------------------------------
// Labels
// ---------------------------------------------------------------------------

/// The name of a leaf's type.
pub open spec fn leaf_label(l: LeafData) -> Seq<char> {
    match l {
        Leaf::Scalar(s) => s.label,
        Leaf::Enumeration(e) => e.label,
        Leaf::Pointer(_) => "指针"@,
        Leaf::BitField => "位域"@,
        Leaf::Opaque(_) => "?"@,
    }
}

/// The name of what an array is made of, at the bottom.
pub open spec fn core_label(t: TypeDesc) -> Seq<char>
    decreases t,
{
    match t {
        TypeDesc::Plain(l) => leaf_label(l@),
        TypeDesc::Array(_, element) => core_label(*element),
        TypeDesc::Compound(label, _, _) => label@,
    }
}

/// The lengths of an array, outermost first.
pub open spec fn lengths(t: TypeDesc) -> Seq<char>
    decreases t,
{
    match t {
        TypeDesc::Array(count, element) => "["@ + dec(count as nat) + "]"@ + lengths(*element),
        _ => Seq::empty(),
    }
}

/// The name of a type, such as `int` or `float[2][3]`.
pub open spec fn type_label(t: TypeDesc) -> Seq<char> {
    core_label(t) + lengths(t)
}

impl Leaf<ScalarType, EnumType, String> {
    /// The name of the type.
    pub fn label(&self) -> (r: String)
        ensures
            r@ == leaf_label(self@),
    {
        match self {
            Leaf::Scalar(s) => String::from_str(s.label.as_str()),
            Leaf::Enumeration(e) => String::from_str(e.label.as_str()),
            Leaf::Pointer(_) => String::from_str("指针"),
            Leaf::BitField => String::from_str("位域"),
            Leaf::Opaque(_) => String::from_str("?"),
        }
    }
}

impl TypeDesc {
    /// The name of the type, such as `int` or `float[2][3]`.
    pub fn label(&self) -> (r: String)
        ensures
            r@ == type_label(*self),
    {
        let mut suffix: String = String::new();
        let r: String = self.name_and_lengths(&mut suffix);
        let mut r: String = r;
        r.append(suffix.as_str());
        r
    }

    fn name_and_lengths(&self, suffix: &mut String) -> (r: String)
        ensures
            r@ == core_label(*self),
            final(suffix)@ == old(suffix)@ + lengths(*self),
        decreases self,
    {
        match self {
            TypeDesc::Plain(l) => {
                assert(suffix@ + Seq::<char>::empty() =~= suffix@);
                l.label()
            },
            TypeDesc::Array(count, element) => {
                let ghost start = suffix@;
                suffix.append("[");
                suffix.append(dec_text(*count as u64).as_str());
                suffix.append("]");
                let r: String = element.name_and_lengths(suffix);
                assert(suffix@ =~= start + lengths(*self));
                r
            },
            TypeDesc::Compound(label, _, _) => {
                assert(suffix@ + Seq::<char>::empty() =~= suffix@);
                String::from_str(label.as_str())
            },
        }
    }
}

// ---------------------------------------------------------------------------
// The order of leaves
// ---------------------------------------------------------------------------

/// An array has the leaves of its elements, one element behind the other: leaf `k`
/// of element `i` is labelled with that number and stands that many elements
/// behind the start.
pub proof fn law_leaves_of_arrays(count: usize, element: Box<TypeDesc>, i: nat, k: nat)
    requires
        i < count,
        k < leaf_count(*element),
    ensures
        ({
            let t = TypeDesc::Array(count, element);
            let n = leaf_count(*element);
            let inner = leaf_at(*element, k);
            let site = leaf_at(t, i * n + k);
            &&& leaf_count(t) == count * n
            &&& type_size(t) == count * type_size(*element)
            &&& site.label == seq!['['] + dec(i) + seq![']'] + inner.label
            &&& site.offset == i * type_size(*element) + inner.offset
            &&& site.kind == inner.kind
        }),
{
    reveal_strlit("[");
    reveal_strlit("]");
    let t = TypeDesc::Array(count, element);
    let n = leaf_count(*element);
    let j: nat = i * n + k;
    assert(j / n == i && j % n == k) by (nonlinear_arith)
        requires
            j == i * n + k,
            0 <= k < n,
            0 <= i,
    ;
    let inner = leaf_at(*element, k);
    assert("["@ + dec(i) + "]"@ + inner.label =~= seq!['['] + dec(i) + seq![']'] + inner.label);
    assert(leaf_at(t, j) == LeafSite {
        label: "["@ + dec(j / n) + "]"@ + leaf_at(*element, j % n).label,
        offset: (j / n) * type_size(*element) + leaf_at(*element, j % n).offset,
        kind: leaf_at(*element, j % n).kind,
    });
}

/// A structure has the leaves of its members, one member behind the other: each
/// leaf of a member is labelled with its name and stands behind its place.
pub proof fn law_leaves_of_structures(t: TypeDesc, i: nat, k: nat)
    requires
        t matches TypeDesc::Compound(_, _, ms) && i < ms@.len() && k < leaf_count(
            ms@[i as int].kind,
        ),
    ensures
        ({
            let ms = t->Compound_2@;
            let m = ms[i as int];
            let inner = leaf_at(m.kind, k);
            let site = leaf_at(t, members_leaves(ms, i) + k);
            &&& members_leaves(ms, 0) == 0
            &&& members_leaves(ms, i + 1) == members_leaves(ms, i) + leaf_count(m.kind)
            &&& leaf_count(t) == members_leaves(ms, ms.len())
            &&& site.label == seq!['.'] + m.name@ + inner.label
            &&& site.offset == m.offset + inner.offset
            &&& site.kind == inner.kind
        }),
{
    reveal_strlit(".");
    let ms = t->Compound_2@;
    let m = ms[i as int];
    let inner = leaf_at(m.kind, k);
    lemma_member_leaf_at(ms, ms.len(), members_leaves(ms, i) + k, i);
    assert("."@ + m.name@ + inner.label =~= seq!['.'] + m.name@ + inner.label);
}

/// The name of an array is that of its elements with its lengths behind it, the
/// outermost first.
pub proof fn law_labels_of_arrays(count: usize, element: Box<TypeDesc>)
    ensures
        ({
            let t = TypeDesc::Array(count, element);
            &&& core_label(t) == core_label(*element)
            &&& type_label(t) == core_label(*element) + (seq!['['] + dec(count as nat) + seq![']']
                + lengths(*element))
            &&& !(*element is Array) ==> lengths(*element).len() == 0
            &&& !(*element is Array) ==> type_label(*element) == core_label(*element)
        }),
{
    reveal_strlit("[");
    reveal_strlit("]");
    let t = TypeDesc::Array(count, element);
    assert(lengths(t) =~= seq!['['] + dec(count as nat) + seq![']'] + lengths(*element));
    if !(*element is Array) {
        assert(type_label(*element) =~= core_label(*element));
    }
}

}
