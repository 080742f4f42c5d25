//! Expressions that name a variable or a part of one, such as `speed`,
//! `encoder.angle`, `items[0].v.x` or `matrix[1][2]`.
use vstd::prelude::*;
use vstd::slice::slice_subrange;
use crate::layout::{
    leaf_at, leaf_count, lemma_index_split, lemma_members_are_smaller, lemma_members_sound_at,
    member_leaf, members_leaves, sound, type_label, type_size, LeafSite, Member, TypeDesc,
};
use crate::number::{
    dec, dec_text, digit_char, law_numeral_read_back, lemma_numeral_shape, numeral, read_usize,
    unsigned_value,
};
use crate::text::{
    chars_of, lemma_first_index, lemma_split_once_of_concat, same_text, split_once, split_once_of,
    string_of,
};

verus! {

// ---------------------------------------------------------------------------
// Expressions
// ---------------------------------------------------------------------------

/// One step from a variable towards a part of it. `T` is the form in which text
/// is held.
#[derive(Debug)]
pub enum Step<T> {
    Member(T),
    Index(usize),
}

impl View for Step<String> {
    type V = Step<Seq<char>>;

    open spec fn view(&self) -> Step<Seq<char>> {
        match *self {
            Step::Member(n) => Step::Member(n@),
            Step::Index(i) => Step::Index(i),
        }
    }
}

/// The views of steps.
pub open spec fn step_views(steps: Seq<Step<String>>) -> Seq<Step<Seq<char>>> {
    steps.map_values(|s: Step<String>| s@)
}

/// Whether a character starts a step.
pub open spec fn starts_step(c: char) -> bool {
    c == '.' || c == '['
}

/// The length of the name that a text starts with.
pub open spec fn name_len(t: Seq<char>) -> nat
    decreases t.len(),
{
    if t.len() == 0 || starts_step(t[0]) {
        0
    } else {
        1 + name_len(t.drop_first())
    }
}

pub proof fn lemma_name_len(t: Seq<char>)
    ensures
        name_len(t) <= t.len(),
    decreases t.len(),
{
    if t.len() > 0 && !starts_step(t[0]) {
        lemma_name_len(t.drop_first());
    }
}

/// The steps that a text consists of: `.` and a name, or a number in brackets.
pub open spec fn steps_of(t: Seq<char>) -> Option<Seq<Step<Seq<char>>>>
    decreases t.len(),
    via steps_decreases
{
    if t.len() == 0 {
        Some(Seq::empty())
    } else if t[0] == '.' {
        let n = name_len(t.drop_first());
        if n == 0 {
            None
        } else {
            match steps_of(t.skip(1 + n as int)) {
                None => None,
                Some(rest) => Some(seq![Step::Member(t.subrange(1, 1 + n as int))] + rest),
            }
        }
    } else if t[0] == '[' {
        match split_once(t.drop_first(), ']') {
            None => None,
            Some((digits, rest)) => match unsigned_value(digits, 10, usize::MAX as nat) {
                Err(_) => None,
                Ok(i) => match steps_of(rest) {
                    None => None,
                    Some(steps) => Some(seq![Step::Index(i as usize)] + steps),
                },
            },
        }
    } else {
        None
    }
}

#[via_fn]
proof fn steps_decreases(t: Seq<char>) {
    if t.len() > 0 {
        lemma_name_len(t.drop_first());
        lemma_first_index(t.drop_first(), ']');
    }
}

/// The name of the variable that an expression starts with, and the steps from
/// there on.
pub open spec fn expression(t: Seq<char>) -> Option<(Seq<char>, Seq<Step<Seq<char>>>)> {
    let n = name_len(t) as int;
    if n == 0 {
        None
    } else {
        match steps_of(t.skip(n)) {
            None => None,
            Some(steps) => Some((t.take(n), steps)),
        }
    }
}

fn measure_name(t: &[char]) -> (n: usize)
    ensures
        n == name_len(t@),
        n <= t@.len(),
{
    let mut i: usize = 0;
    assert(t@.skip(0) =~= t@);
    while i < t.len() && t[i] != '.' && t[i] != '['
        invariant
            i <= t@.len(),
            name_len(t@) == i + name_len(t@.skip(i as int)),
        decreases t@.len() - i,
    {
        assert(t@.skip(i as int).drop_first() =~= t@.skip(i + 1));
        i += 1;
    }
    i
}

fn read_steps(t: &[char], out: &mut Vec<Step<String>>) -> (r: bool)
    ensures
        r ==> (steps_of(t@) matches Some(steps) && step_views(final(out)@) == step_views(old(out)@)
            + steps),
        !r ==> steps_of(t@) is None,
    decreases t@.len(),
{
    let ghost start = step_views(out@);
    if t.len() == 0 {
        assert(start + Seq::<Step<Seq<char>>>::empty() =~= start);
        return true;
    }
    let behind: &[char] = slice_subrange(t, 1, t.len());
    assert(behind@ =~= t@.drop_first());
    if t[0] == '.' {
        let n: usize = measure_name(behind);
        if n == 0 {
            return false;
        }
        let name: &[char] = slice_subrange(behind, 0, n);
        assert(name@ =~= t@.subrange(1, 1 + n as int));
        let rest: &[char] = slice_subrange(behind, n, behind.len());
        assert(rest@ =~= t@.skip(1 + n as int));
        out.push(Step::Member(string_of(name)));
        assert(step_views(out@) =~= start.push(Step::Member(name@)));
        let ghost one = step_views(out@);
        let r: bool = read_steps(rest, out);
        proof {
            if r {
                let steps = steps_of(rest@)->0;
                assert(one + steps =~= start + (seq![Step::Member(name@)] + steps));
            }
        }
        return r;
    }
    if t[0] == '[' {
        proof {
            lemma_first_index(behind@, ']');
        }
        match split_once_of(behind, ']') {
            None => {
                return false;
            },
            Some((digits, rest)) => match read_usize(digits) {
                Err(_) => {
                    return false;
                },
                Ok(i) => {
                    out.push(Step::Index(i));
                    assert(step_views(out@) =~= start.push(Step::Index(i)));
                    let ghost one = step_views(out@);
                    let r: bool = read_steps(rest, out);
                    proof {
                        if r {
                            let steps = steps_of(rest@)->0;
                            assert(one + steps =~= start + (seq![Step::Index(i)] + steps));
                        }
                    }
                    return r;
                },
            },
        }
    }
    false
}

/// Reads an expression: the name of the variable, and the steps from there on.
pub fn parse_expression(t: &str) -> (r: Option<(String, Vec<Step<String>>)>)
    ensures
        match r {
            Some(p) => expression(t@) == Some((p.0@, step_views(p.1@))),
            None => expression(t@) is None,
        },
{
    let chars: Vec<char> = chars_of(t);
    let n: usize = measure_name(chars.as_slice());
    if n == 0 {
        return None;
    }
    let name: &[char] = slice_subrange(chars.as_slice(), 0, n);
    assert(name@ =~= t@.take(n as int));
    let rest: &[char] = slice_subrange(chars.as_slice(), n, chars.len());
    assert(rest@ =~= t@.skip(n as int));
    let mut steps: Vec<Step<String>> = Vec::new();
    if read_steps(rest, &mut steps) {
        assert(step_views(steps@) =~= steps_of(rest@)->0) by {
            assert(step_views(Seq::<Step<String>>::empty()) =~= Seq::empty());
        }
        Some((string_of(name), steps))
    } else {
        None
    }
}

// ---------------------------------------------------------------------------
// Following an expression
// ---------------------------------------------------------------------------

/// Why an expression leads nowhere. `T` is the form in which text is held.
#[derive(Debug)]
pub enum PathError<T> {
    /// The type of that name has no member of that name.
    NoMember(T, T),
    /// The type of that name is no array.
    NotArray(T, usize),
    /// The index is not below the length.
    OutOfRange(usize, usize),
}

impl View for PathError<String> {
    type V = PathError<Seq<char>>;

    open spec fn view(&self) -> PathError<Seq<char>> {
        match *self {
            PathError::NoMember(t, n) => PathError::NoMember(t@, n@),
            PathError::NotArray(t, i) => PathError::NotArray(t@, i),
            PathError::OutOfRange(i, n) => PathError::OutOfRange(i, n),
        }
    }
}

impl PathError<Seq<char>> {
    /// The wording of each refusal.
    pub open spec fn text(self) -> Seq<char> {
        match self {
            PathError::NoMember(t, n) => "类型 "@ + t + " 里没有成员 "@ + n,
            PathError::NotArray(t, i) => "类型 "@ + t + " 不是数组，不能取下标 "@ + dec(i as nat),
            PathError::OutOfRange(i, n) => "下标 "@ + dec(i as nat) + " 越界（数组长度 "@ + dec(
                n as nat,
            ) + "）"@,
        }
    }
}

impl PathError<String> {
    /// The wording of this refusal.
    pub fn message(&self) -> (r: String)
        ensures
            r@ == self@.text(),
    {
        match self {
            PathError::NoMember(t, n) => {
                let mut s: String = String::from_str("类型 ");
                s.append(t.as_str());
                s.append(" 里没有成员 ");
                s.append(n.as_str());
                s
            },
            PathError::NotArray(t, i) => {
                let mut s: String = String::from_str("类型 ");
                s.append(t.as_str());
                s.append(" 不是数组，不能取下标 ");
                s.append(dec_text(*i as u64).as_str());
                s
            },
            PathError::OutOfRange(i, n) => {
                let mut s: String = String::from_str("下标 ");
                s.append(dec_text(*i as u64).as_str());
                s.append(" 越界（数组长度 ");
                s.append(dec_text(*n as u64).as_str());
                s.append("）");
                s
            },
        }
    }
}

/// The number of the first member called `name` from number `from` on.
pub open spec fn member_index(ms: Seq<Member>, name: Seq<char>, from: nat) -> Option<nat>
    decreases ms.len() - from,
{
    if from >= ms.len() {
        None
    } else if ms[from as int].name@ == name {
        Some(from)
    } else {
        member_index(ms, name, from + 1)
    }
}

pub proof fn lemma_member_index(ms: Seq<Member>, name: Seq<char>, from: nat)
    ensures
        member_index(ms, name, from) matches Some(i) ==> from <= i < ms.len() && ms[i as int].name@
            == name,
    decreases ms.len() - from,
{
    if from < ms.len() && ms[from as int].name@ != name {
        lemma_member_index(ms, name, from + 1);
    }
}

/// What stands `by` bytes behind.
pub open spec fn moved(
    r: Result<(nat, TypeDesc), PathError<Seq<char>>>,
    by: nat,
) -> Result<(nat, TypeDesc), PathError<Seq<char>>> {
    match r {
        Ok((offset, kind)) => Ok((by + offset, kind)),
        Err(e) => Err(e),
    }
}

/// Where the steps lead from the start of a value of type `t`, and the type of
/// what is there.
pub open spec fn walk(t: TypeDesc, steps: Seq<Step<Seq<char>>>) -> Result<
    (nat, TypeDesc),
    PathError<Seq<char>>,
>
    decreases steps.len(),
{
    if steps.len() == 0 {
        Ok((0, t))
    } else {
        let rest = steps.drop_first();
        match (steps[0], t) {
            (Step::Member(name), TypeDesc::Compound(_, _, members)) => match member_index(
                members@,
                name,
                0,
            ) {
                None => Err(PathError::NoMember(type_label(t), name)),
                Some(i) => moved(
                    walk(members@[i as int].kind, rest),
                    members@[i as int].offset as nat,
                ),
            },
            (Step::Member(name), _) => Err(PathError::NoMember(type_label(t), name)),
            (Step::Index(i), TypeDesc::Array(count, element)) => if i < count {
                moved(walk(*element, rest), i as nat * type_size(*element))
            } else {
                Err(PathError::OutOfRange(i, count))
            },
            (Step::Index(i), _) => Err(PathError::NotArray(type_label(t), i)),
        }
    }
}

/// What an expression leads to lies inside the variable.
pub proof fn law_paths_stay_inside(t: TypeDesc, steps: Seq<Step<Seq<char>>>)
    requires
        sound(t),
    ensures
        walk(t, steps) matches Ok((offset, kind)) ==> sound(kind) && offset + type_size(kind)
            <= type_size(t),
    decreases steps.len(),
{
    if steps.len() > 0 {
        let rest = steps.drop_first();
        match (steps[0], t) {
            (Step::Member(name), TypeDesc::Compound(_, size, members)) => {
                lemma_member_index(members@, name, 0);
                if let Some(i) = member_index(members@, name, 0) {
                    lemma_members_sound_at(members@, members@.len(), size, i);
                    law_paths_stay_inside(members@[i as int].kind, rest);
                }
            },
            (Step::Index(i), TypeDesc::Array(count, element)) => {
                law_paths_stay_inside(*element, rest);
                let n = type_size(*element);
                if i < count {
                    assert(i * n + n <= count * n) by (nonlinear_arith)
                        requires
                            i < count,
                            n >= 0,
                    ;
                }
            },
            _ => {},
        }
    }
}

/// The view of where an expression leads.
pub open spec fn walk_result(r: Result<(usize, TypeDesc), PathError<String>>) -> Result<
    (nat, TypeDesc),
    PathError<Seq<char>>,
> {
    match r {
        Ok((offset, kind)) => Ok((offset as nat, kind)),
        Err(e) => Err(e@),
    }
}

fn follow_from(t: TypeDesc, steps: &[Step<String>], k: usize) -> (r: Result<
    (usize, TypeDesc),
    PathError<String>,
>)
    requires
        sound(t),
        k <= steps@.len(),
    ensures
        walk_result(r) == walk(t, step_views(steps@).skip(k as int)),
    decreases steps@.len() - k,
{
    let ghost here = step_views(steps@).skip(k as int);
    if k == steps.len() {
        return Ok((0, t));
    }
    assert(here[0] == steps@[k as int]@);
    assert(here.drop_first() =~= step_views(steps@).skip(k + 1));
    proof {
        law_paths_stay_inside(t, here);
    }
    let label: String = t.label();
    match &steps[k] {
        Step::Member(name) => match t {
            TypeDesc::Compound(_, size, members) => {
                let ghost ms = members@;
                let found: Option<usize> = find_member(&members, name.as_str());
                match found {
                    None => Err(PathError::NoMember(label, String::from_str(name.as_str()))),
                    Some(i) => {
                        proof {
                            lemma_members_sound_at(ms, ms.len(), size, i as nat);
                        }
                        let mut members: Vec<Member> = members;
                        let m: Member = members.swap_remove(i);
                        match follow_from(m.kind, steps, k + 1) {
                            Err(e) => Err(e),
                            Ok((o, kind)) => Ok((m.offset + o, kind)),
                        }
                    },
                }
            },
            _ => Err(PathError::NoMember(label, String::from_str(name.as_str()))),
        },
        Step::Index(i) => match t {
            TypeDesc::Array(count, element) => {
                if *i >= count {
                    return Err(PathError::OutOfRange(*i, count));
                }
                let size: usize = element.size();
                assert(*i * size <= count * size) by (nonlinear_arith)
                    requires
                        *i <= count,
                        size >= 0,
                ;
                match follow_from(*element, steps, k + 1) {
                    Err(e) => Err(e),
                    Ok((o, kind)) => Ok((*i * size + o, kind)),
                }
            },
            _ => Err(PathError::NotArray(label, *i)),
        },
    }
}

fn find_member(members: &Vec<Member>, name: &str) -> (r: Option<usize>)
    ensures
        match r {
            Some(i) => member_index(members@, name@, 0) == Some(i as nat) && i < members@.len(),
            None => member_index(members@, name@, 0) is None,
        },
{
    let mut i: usize = 0;
    while i < members.len()
        invariant
            i <= members@.len(),
            member_index(members@, name@, 0) == member_index(members@, name@, i as nat),
        decreases members@.len() - i,
    {
        if same_text(members[i].name.as_str(), name) {
            return Some(i);
        }
        i += 1;
    }
    None
}

/// Follows steps from the start of a value of type `t`: where they lead, and the
/// type of what is there.
pub fn follow(t: TypeDesc, steps: &[Step<String>]) -> (r: Result<
    (usize, TypeDesc),
    PathError<String>,
>)
    requires
        sound(t),
    ensures
        walk_result(r) == walk(t, step_views(steps@)),
{
    assert(step_views(steps@).skip(0) =~= step_views(steps@));
    follow_from(t, steps, 0)
}

// ---------------------------------------------------------------------------
// Labels as expressions
// ---------------------------------------------------------------------------

/// Whether a text can stand as the name of a member in an expression.
pub open spec fn is_plain_name(n: Seq<char>) -> bool {
    n.len() > 0 && forall|i: int| 0 <= i < n.len() ==> !starts_step(#[trigger] n[i])
}

/// Whether the members of a type can be told apart by plain names, at every
/// level.
pub open spec fn named_plainly(t: TypeDesc) -> bool
    decreases t, 0nat,
{
    match t {
        TypeDesc::Plain(_) => true,
        TypeDesc::Array(_, element) => named_plainly(*element),
        TypeDesc::Compound(_, _, members) => members_named_plainly(members@, members@.len()),
    }
}

/// Whether the first `n` members can be told apart by plain names, at every
/// level.
pub open spec fn members_named_plainly(ms: Seq<Member>, n: nat) -> bool
    decreases ms, n,
{
    if n == 0 || n > ms.len() {
        true
    } else {
        &&& members_named_plainly(ms, (n - 1) as nat)
        &&& named_plainly(ms[n - 1].kind)
        &&& is_plain_name(ms[n - 1].name@)
        &&& forall|j: int| 0 <= j < n - 1 ==> (#[trigger] ms[j]).name@ != ms[n - 1].name@
    }
}

/// A text that a step can follow: it is empty or starts with a step.
spec fn at_boundary(t: Seq<char>) -> bool {
    t.len() == 0 || starts_step(t[0])
}

proof fn lemma_label_at_boundary(t: TypeDesc, k: nat)
    ensures
        at_boundary(leaf_at(t, k).label),
    decreases t, 0nat,
{
    reveal_strlit("[");
    match t {
        TypeDesc::Compound(_, _, members) => {
            lemma_member_label_at_boundary(members@, members@.len(), k);
        },
        _ => {},
    }
}

proof fn lemma_member_label_at_boundary(ms: Seq<Member>, n: nat, k: nat)
    ensures
        at_boundary(member_leaf(ms, n, k).label),
    decreases ms, n,
{
    reveal_strlit(".");
    if n > 0 && n <= ms.len() && k < members_leaves(ms, (n - 1) as nat) {
        lemma_member_label_at_boundary(ms, (n - 1) as nat, k);
    }
}

proof fn lemma_name_len_of(n: Seq<char>, rest: Seq<char>)
    requires
        forall|i: int| 0 <= i < n.len() ==> !starts_step(#[trigger] n[i]),
        at_boundary(rest),
    ensures
        name_len(n + rest) == n.len(),
    decreases n.len(),
{
    if n.len() == 0 {
        assert(n + rest =~= rest);
    } else {
        assert((n + rest).drop_first() =~= n.drop_first() + rest);
        assert((n + rest)[0] == n[0]);
        assert forall|i: int| 0 <= i < n.drop_first().len() implies !starts_step(
            #[trigger] n.drop_first()[i],
        ) by {
            assert(n.drop_first()[i] == n[i + 1]);
        }
        lemma_name_len_of(n.drop_first(), rest);
    }
}

proof fn lemma_member_step(name: Seq<char>, rest: Seq<char>)
    requires
        is_plain_name(name),
        at_boundary(rest),
        steps_of(rest) is Some,
    ensures
        steps_of("."@ + name + rest) == Some(seq![Step::Member(name)] + steps_of(rest)->0),
{
    reveal_strlit(".");
    let t = "."@ + name + rest;
    assert(t.drop_first() =~= name + rest);
    lemma_name_len_of(name, rest);
    assert(t.skip(1 + name.len() as int) =~= rest);
    assert(t.subrange(1, 1 + name.len() as int) =~= name);
}

proof fn lemma_index_step(i: nat, rest: Seq<char>)
    requires
        i <= usize::MAX,
        steps_of(rest) is Some,
    ensures
        steps_of("["@ + dec(i) + "]"@ + rest) == Some(
            seq![Step::<Seq<char>>::Index(i as usize)] + steps_of(rest)->0,
        ),
{
    reveal_strlit("[");
    reveal_strlit("]");
    let t = "["@ + dec(i) + "]"@ + rest;
    assert(t.drop_first() =~= dec(i) + seq![']'] + rest);
    lemma_numeral_shape(i, 10);
    assert(!dec(i).contains(']')) by {
        if dec(i).contains(']') {
            let j = choose|j: int| 0 <= j < dec(i).len() && dec(i)[j] == ']';
            let d = choose|d: nat| d < 10 && #[trigger] numeral(i, 10)[j] == digit_char(d);
            assert(digit_char(d) != ']');
        }
    }
    lemma_split_once_of_concat(dec(i), ']', rest);
    law_numeral_read_back(i, 10, usize::MAX as nat);
}

/// Whether the label of a leaf consists of steps that lead to the leaf.
pub open spec fn leads_to(t: TypeDesc, site: LeafSite) -> bool {
    &&& steps_of(site.label) matches Some(steps)
    &&& walk(t, steps) matches Ok((offset, kind))
    &&& offset == site.offset
    &&& kind matches TypeDesc::Plain(l)
    &&& l@ == site.kind
}

/// The label of a part of a variable is an expression that leads to that part:
/// behind the name of the variable, it is followed to the place and the type of
/// the part.
pub proof fn law_labels_lead_to_leaves(t: TypeDesc, k: nat)
    requires
        sound(t),
        named_plainly(t),
        k < leaf_count(t),
    ensures
        leads_to(t, leaf_at(t, k)),
    decreases t, 1nat, 0nat,
{
    match t {
        TypeDesc::Plain(_) => {},
        TypeDesc::Array(count, element) => {
            let n = leaf_count(*element);
            lemma_index_split(k, n, count as nat, type_size(*element));
            let inner = leaf_at(*element, k % n);
            law_labels_lead_to_leaves(*element, k % n);
            lemma_index_step(k / n, inner.label);
            let steps = steps_of(inner.label)->0;
            let all = seq![Step::<Seq<char>>::Index((k / n) as usize)] + steps;
            assert(all.drop_first() =~= steps);
            assert(steps_of(leaf_at(t, k).label) == Some(all));
        },
        TypeDesc::Compound(_, size, members) => {
            lemma_member_labels_lead(t, members@.len(), k);
        },
    }
}

proof fn lemma_member_labels_lead(t: TypeDesc, n: nat, k: nat)
    requires
        t is Compound,
        sound(t),
        named_plainly(t),
        n <= t->Compound_2@.len(),
        k < members_leaves(t->Compound_2@, n),
    ensures
        leads_to(t, member_leaf(t->Compound_2@, n, k)),
    decreases t, 0nat, n,
{
    let ms = t->Compound_2@;
    let before = members_leaves(ms, (n - 1) as nat);
    if k < before {
        lemma_member_labels_lead(t, (n - 1) as nat, k);
    } else {
        let m = ms[n - 1];
        let inner = leaf_at(m.kind, (k - before) as nat);
        lemma_members_sound_at(ms, ms.len(), t->Compound_1, (n - 1) as nat);
        lemma_members_named_at(ms, ms.len(), (n - 1) as nat);
        lemma_members_are_smaller(t, n - 1);
        law_labels_lead_to_leaves(m.kind, (k - before) as nat);
        lemma_label_at_boundary(m.kind, (k - before) as nat);
        lemma_member_step(m.name@, inner.label);
        let steps = steps_of(inner.label)->0;
        let all = seq![Step::Member(m.name@)] + steps;
        assert(all.drop_first() =~= steps);
        assert(steps_of(member_leaf(ms, n, k).label) == Some(all));
        lemma_index_of_named(ms, (n - 1) as nat, 0);
    }
}

proof fn lemma_members_named_at(ms: Seq<Member>, n: nat, i: nat)
    requires
        members_named_plainly(ms, n),
        i < n <= ms.len(),
    ensures
        named_plainly(ms[i as int].kind),
        is_plain_name(ms[i as int].name@),
        forall|j: int| 0 <= j < i ==> (#[trigger] ms[j]).name@ != ms[i as int].name@,
    decreases n,
{
    if i + 1 < n {
        lemma_members_named_at(ms, (n - 1) as nat, i);
    }
}

proof fn lemma_index_of_named(ms: Seq<Member>, i: nat, from: nat)
    requires
        from <= i < ms.len(),
        forall|j: int| 0 <= j < i ==> (#[trigger] ms[j]).name@ != ms[i as int].name@,
    ensures
        member_index(ms, ms[i as int].name@, from) == Some(i),
    decreases i - from,
{
    if from < i {
        assert(ms[from as int].name@ != ms[i as int].name@);
        lemma_index_of_named(ms, i, from + 1);
    }
}

// ---------------------------------------------------------------------------
// Expressions as they are written
// ---------------------------------------------------------------------------

/// How a step is written.
pub open spec fn step_text(step: Step<Seq<char>>) -> Seq<char> {
    match step {
        Step::Member(name) => seq!['.'] + name,
        Step::Index(i) => seq!['['] + dec(i as nat) + seq![']'],
    }
}

/// How steps are written, one behind the other.
pub open spec fn path_text(steps: Seq<Step<Seq<char>>>) -> Seq<char>
    decreases steps.len(),
{
    if steps.len() == 0 {
        Seq::empty()
    } else {
        step_text(steps[0]) + path_text(steps.drop_first())
    }
}

/// Whether the members that steps name have plain names.
pub open spec fn plain_steps(steps: Seq<Step<Seq<char>>>) -> bool {
    forall|i: int|
        0 <= i < steps.len() ==> ((#[trigger] steps[i]) matches Step::Member(name)
            ==> is_plain_name(name))
}

proof fn lemma_steps_read_back(steps: Seq<Step<Seq<char>>>)
    requires
        plain_steps(steps),
    ensures
        at_boundary(path_text(steps)),
        steps_of(path_text(steps)) == Some(steps),
    decreases steps.len(),
{
    reveal_strlit(".");
    reveal_strlit("[");
    reveal_strlit("]");
    if steps.len() == 0 {
        assert(steps =~= Seq::empty());
    } else {
        let rest = steps.drop_first();
        assert forall|i: int| 0 <= i < rest.len() implies ((#[trigger] rest[i]) matches
            Step::Member(name) ==> is_plain_name(name)) by {
            assert(rest[i] == steps[i + 1]);
        }
        lemma_steps_read_back(rest);
        let tail = path_text(rest);
        match steps[0] {
            Step::Member(name) => {
                assert(is_plain_name(name));
                lemma_member_step(name, tail);
                assert(path_text(steps) =~= "."@ + name + tail);
            },
            Step::Index(k) => {
                lemma_index_step(k as nat, tail);
                assert(path_text(steps) =~= "["@ + dec(k as nat) + "]"@ + tail);
            },
        }
        assert(seq![steps[0]] + rest =~= steps);
    }
}

/// An expression of any length is read as it is written: a name, then members and
/// numbers of elements in any order.
pub proof fn law_expressions_are_read_back(name: Seq<char>, steps: Seq<Step<Seq<char>>>)
    requires
        is_plain_name(name),
        plain_steps(steps),
    ensures
        expression(name + path_text(steps)) == Some((name, steps)),
{
    let t = name + path_text(steps);
    lemma_steps_read_back(steps);
    lemma_name_len_of(name, path_text(steps));
    assert(t.skip(name.len() as int) =~= path_text(steps));
    assert(t.take(name.len() as int) =~= name);
}

/// A member is at its own place in the structure, and an element of an array as
/// many elements behind the start as its number says. Numbers behind the last
/// element, members that are not there and steps into what has no parts lead
/// nowhere.
pub proof fn law_parts_are_at_their_place(t: TypeDesc, name: Seq<char>, i: usize, k: int)
    ensures
        t matches TypeDesc::Compound(_, _, ms) ==> {
            &&& 0 <= k < ms@.len() && ms@[k].name@ == name && (forall|j: int|
                0 <= j < k ==> (#[trigger] ms@[j]).name@ != name) ==> walk(
                t,
                seq![Step::Member(name)],
            ) == Ok::<_, PathError<Seq<char>>>((ms@[k].offset as nat, ms@[k].kind))
            &&& (forall|j: int| 0 <= j < ms@.len() ==> (#[trigger] ms@[j]).name@ != name)
                ==> walk(t, seq![Step::Member(name)]) is Err
        },
        t matches TypeDesc::Array(count, element) ==> walk(t, seq![Step::<Seq<char>>::Index(i)])
            == if i < count {
            Ok::<_, PathError<Seq<char>>>((i as nat * type_size(*element), *element))
        } else {
            Err(PathError::OutOfRange(i, count))
        },
        !(t is Compound) ==> walk(t, seq![Step::Member(name)]) is Err,
        !(t is Array) ==> walk(t, seq![Step::<Seq<char>>::Index(i)]) is Err,
{
    let m = seq![Step::Member(name)];
    let x = seq![Step::<Seq<char>>::Index(i)];
    reveal_with_fuel(walk, 2);
    assert(m.drop_first() =~= Seq::empty());
    assert(x.drop_first() =~= Seq::empty());
    match t {
        TypeDesc::Compound(_, _, ms) => {
            if 0 <= k < ms@.len() && ms@[k].name@ == name && (forall|j: int|
                0 <= j < k ==> (#[trigger] ms@[j]).name@ != name) {
                lemma_member_at(ms@, name, 0, k);
            }
            lemma_member_index(ms@, name, 0);
            if forall|j: int| 0 <= j < ms@.len() ==> (#[trigger] ms@[j]).name@ != name {
                if let Some(j) = member_index(ms@, name, 0) {
                    assert(ms@[j as int].name@ != name);
                }
            }
        },
        _ => {},
    }
}

proof fn lemma_member_at(ms: Seq<Member>, name: Seq<char>, from: nat, k: int)
    requires
        from <= k < ms.len(),
        ms[k].name@ == name,
        forall|j: int| 0 <= j < k ==> (#[trigger] ms[j]).name@ != name,
    ensures
        member_index(ms, name, from) == Some(k as nat),
    decreases k - from,
{
    if from < k {
        assert(ms[from as int].name@ != name);
        lemma_member_at(ms, name, from + 1, k);
    }
}

/// Steps add up: where some steps lead to a part and further ones lead on from
/// there, all together lead to the same part, the distances added.
pub proof fn law_steps_add_up(
    t: TypeDesc,
    first: Seq<Step<Seq<char>>>,
    then_on: Seq<Step<Seq<char>>>,
    offset: nat,
    part: TypeDesc,
)
    requires
        walk(t, first) == Ok::<_, PathError<Seq<char>>>((offset, part)),
    ensures
        match walk(part, then_on) {
            Ok((further, kind)) => walk(t, first + then_on) == Ok::<_, PathError<Seq<char>>>(
                (offset + further, kind),
            ),
            Err(e) => walk(t, first + then_on) == Err::<(nat, TypeDesc), _>(e),
        },
    decreases first.len(),
{
    if first.len() == 0 {
        assert(first + then_on =~= then_on);
    } else {
        let rest = first.drop_first();
        assert((first + then_on).drop_first() =~= rest + then_on);
        assert((first + then_on)[0] == first[0]);
        match (first[0], t) {
            (Step::Member(name), TypeDesc::Compound(_, _, members)) => {
                if let Some(i) = member_index(members@, name, 0) {
                    let kind = members@[i as int].kind;
                    if let Ok((o, k)) = walk(kind, rest) {
                        law_steps_add_up(kind, rest, then_on, o, k);
                    }
                }
            },
            (Step::Index(i), TypeDesc::Array(_, element)) => {
                if let Ok((o, k)) = walk(*element, rest) {
                    law_steps_add_up(*element, rest, then_on, o, k);
                }
            },
            _ => {},
        }
    }
}

/// What is stated of where steps lead is stated of all that is handed out.
pub proof fn law_walks_are_seen_whole(
    r: Result<(usize, TypeDesc), PathError<String>>,
    steps: Seq<Step<String>>,
    i: int,
)
    ensures
        match r {
            Ok(p) => walk_result(r) == Ok::<_, PathError<Seq<char>>>((p.0 as nat, p.1)),
            Err(e) => walk_result(r) == Err::<(nat, TypeDesc), _>(e@),
        },
        step_views(steps).len() == steps.len(),
        0 <= i < steps.len() ==> (match steps[i] {
            Step::Member(n) => step_views(steps)[i] == Step::Member(n@),
            Step::Index(k) => step_views(steps)[i] == Step::<Seq<char>>::Index(k),
        }),
{
}

}
