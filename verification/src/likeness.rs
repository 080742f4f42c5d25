//! Types that are the same: what can be told of one can be told of the other.
use vstd::prelude::*;
use crate::layout::{
    core_label, leaf_at, leaf_count, lemma_index_split, lengths, member_leaf, members_leaves, members_sound, sound,
    type_label, type_size, Member, TypeDesc,
};
use crate::member_path::{lemma_member_index, member_index, walk, PathError, Step};

verus! {

/// Whether two types are the same, from their names down to their leaves.
pub open spec fn alike(a: TypeDesc, b: TypeDesc) -> bool
    decreases a, 0nat,
{
    match (a, b) {
        (TypeDesc::Plain(x), TypeDesc::Plain(y)) => x@ == y@,
        (TypeDesc::Array(n, x), TypeDesc::Array(m, y)) => n == m && alike(*x, *y),
        (TypeDesc::Compound(l, n, x), TypeDesc::Compound(k, m, y)) => {
            &&& l@ == k@
            &&& n == m
            &&& x@.len() == y@.len()
            &&& members_alike(x@, y@, x@.len())
        },
        _ => false,
    }
}

/// Whether the first `n` members are the same.
pub open spec fn members_alike(a: Seq<Member>, b: Seq<Member>, n: nat) -> bool
    decreases a, n,
{
    if n == 0 || n > a.len() || n > b.len() {
        n == 0
    } else {
        &&& members_alike(a, b, (n - 1) as nat)
        &&& a[n - 1].name@ == b[n - 1].name@
        &&& a[n - 1].offset == b[n - 1].offset
        &&& alike(a[n - 1].kind, b[n - 1].kind)
    }
}

pub proof fn lemma_alike_sizes(a: TypeDesc, b: TypeDesc)
    requires
        alike(a, b),
    ensures
        type_size(a) == type_size(b),
        leaf_count(a) == leaf_count(b),
        sound(a) == sound(b),
    decreases a, 0nat,
{
    match (a, b) {
        (TypeDesc::Array(_, x), TypeDesc::Array(_, y)) => {
            lemma_alike_sizes(*x, *y);
        },
        (TypeDesc::Compound(_, n, x), TypeDesc::Compound(_, _, y)) => {
            lemma_members_alike_sizes(x@, y@, x@.len(), n);
        },
        _ => {},
    }
}

pub proof fn lemma_members_alike_sizes(a: Seq<Member>, b: Seq<Member>, n: nat, size: usize)
    requires
        members_alike(a, b, n),
    ensures
        members_leaves(a, n) == members_leaves(b, n),
        members_sound(a, n, size) == members_sound(b, n, size),
    decreases a, n,
{
    if n > 0 {
        lemma_members_alike_sizes(a, b, (n - 1) as nat, size);
        lemma_alike_sizes(a[n - 1].kind, b[n - 1].kind);
    }
}

pub proof fn lemma_alike_leaves(a: TypeDesc, b: TypeDesc, k: nat)
    requires
        alike(a, b),
        k < leaf_count(a),
    ensures
        leaf_at(a, k) == leaf_at(b, k),
    decreases a, 0nat,
{
    match (a, b) {
        (TypeDesc::Array(count, x), TypeDesc::Array(_, y)) => {
            lemma_alike_sizes(*x, *y);
            let n = leaf_count(*x);
            lemma_index_split(k, n, count as nat, 0);
            lemma_alike_leaves(*x, *y, k % n);
        },
        (TypeDesc::Compound(_, _, x), TypeDesc::Compound(_, _, y)) => {
            lemma_members_alike_leaves(x@, y@, x@.len(), k);
        },
        _ => {},
    }
}

proof fn lemma_members_alike_leaves(a: Seq<Member>, b: Seq<Member>, n: nat, k: nat)
    requires
        members_alike(a, b, n),
        k < members_leaves(a, n),
    ensures
        member_leaf(a, n, k) == member_leaf(b, n, k),
    decreases a, n,
{
    if n > 0 {
        let before = members_leaves(a, (n - 1) as nat);
        lemma_members_alike_sizes(a, b, (n - 1) as nat, 0);
        if k < before {
            lemma_members_alike_leaves(a, b, (n - 1) as nat, k);
        } else {
            lemma_alike_leaves(a[n - 1].kind, b[n - 1].kind, (k - before) as nat);
        }
    }
}

proof fn lemma_alike_labels(a: TypeDesc, b: TypeDesc)
    requires
        alike(a, b),
    ensures
        core_label(a) == core_label(b),
        lengths(a) == lengths(b),
        type_label(a) == type_label(b),
    decreases a,
{
    match (a, b) {
        (TypeDesc::Array(_, x), TypeDesc::Array(_, y)) => {
            lemma_alike_labels(*x, *y);
        },
        _ => {},
    }
}

proof fn lemma_members_alike_at(a: Seq<Member>, b: Seq<Member>, n: nat, i: nat)
    requires
        members_alike(a, b, n),
        i < n,
    ensures
        n <= a.len() && n <= b.len(),
        a[i as int].name@ == b[i as int].name@,
        a[i as int].offset == b[i as int].offset,
        alike(a[i as int].kind, b[i as int].kind),
    decreases n,
{
    if i + 1 < n {
        lemma_members_alike_at(a, b, (n - 1) as nat, i);
    }
}

proof fn lemma_alike_index(a: Seq<Member>, b: Seq<Member>, name: Seq<char>, from: nat)
    requires
        a.len() == b.len(),
        members_alike(a, b, a.len()),
    ensures
        member_index(a, name, from) == member_index(b, name, from),
    decreases a.len() - from,
{
    if from < a.len() {
        lemma_members_alike_at(a, b, a.len(), from);
        lemma_alike_index(a, b, name, from + 1);
    }
}

/// Whether steps led to the same place and the same type, or failed alike.
pub open spec fn ends_alike(
    a: Result<(nat, TypeDesc), PathError<Seq<char>>>,
    b: Result<(nat, TypeDesc), PathError<Seq<char>>>,
) -> bool {
    match (a, b) {
        (Ok((i, x)), Ok((j, y))) => i == j && alike(x, y),
        (Err(e), Err(f)) => e == f,
        _ => false,
    }
}

pub proof fn lemma_alike_walk(a: TypeDesc, b: TypeDesc, steps: Seq<Step<Seq<char>>>)
    requires
        alike(a, b),
    ensures
        ends_alike(walk(a, steps), walk(b, steps)),
    decreases steps.len(),
{
    if steps.len() > 0 {
        let rest = steps.drop_first();
        lemma_alike_labels(a, b);
        match (steps[0], a, b) {
            (
                Step::Member(name),
                TypeDesc::Compound(_, _, x),
                TypeDesc::Compound(_, _, y),
            ) => {
                lemma_alike_index(x@, y@, name, 0);
                lemma_member_index(x@, name, 0);
                if let Some(i) = member_index(x@, name, 0) {
                    lemma_members_alike_at(x@, y@, x@.len(), i);
                    lemma_alike_walk(x@[i as int].kind, y@[i as int].kind, rest);
                }
            },
            (Step::Index(_), TypeDesc::Array(_, x), TypeDesc::Array(_, y)) => {
                lemma_alike_sizes(*x, *y);
                lemma_alike_walk(*x, *y, rest);
            },
            _ => {},
        }
    }
}

}
