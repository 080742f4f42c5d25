//! A table of named entries, kept in the order of the names.
//!
//! Names are ordered by their characters, the first difference deciding, and no
//! name occurs twice.
use vstd::prelude::*;
use crate::text::{chars_of, same_text, views};

verus! {

/// Whether the text `a` comes before the text `b`.
pub open spec fn before(a: Seq<char>, b: Seq<char>) -> bool
    decreases a.len(),
{
    if b.len() == 0 {
        false
    } else if a.len() == 0 {
        true
    } else if a[0] == b[0] {
        before(a.drop_first(), b.drop_first())
    } else {
        a[0] < b[0]
    }
}

/// No text comes before itself.
pub proof fn lemma_before_irreflexive(a: Seq<char>)
    ensures
        !before(a, a),
    decreases a.len(),
{
    if a.len() > 0 {
        lemma_before_irreflexive(a.drop_first());
    }
}

/// The order is transitive.
pub proof fn lemma_before_transitive(a: Seq<char>, b: Seq<char>, c: Seq<char>)
    requires
        before(a, b),
        before(b, c),
    ensures
        before(a, c),
    decreases a.len(),
{
    if a.len() > 0 && b.len() > 0 && c.len() > 0 {
        if a[0] == b[0] && b[0] == c[0] {
            lemma_before_transitive(a.drop_first(), b.drop_first(), c.drop_first());
        }
    }
}

/// Of two different texts one comes before the other.
pub proof fn lemma_before_total(a: Seq<char>, b: Seq<char>)
    ensures
        a == b || before(a, b) || before(b, a),
    decreases a.len(),
{
    if a.len() > 0 && b.len() > 0 && a[0] == b[0] {
        lemma_before_total(a.drop_first(), b.drop_first());
        if a.drop_first() == b.drop_first() {
            assert(a =~= seq![a[0]] + a.drop_first());
            assert(b =~= seq![b[0]] + b.drop_first());
        }
    } else if a.len() == 0 && b.len() == 0 {
        assert(a =~= b);
    }
}

fn comes_before(a: &str, b: &str) -> (r: bool)
    ensures
        r == before(a@, b@),
{
    let x: Vec<char> = chars_of(a);
    let y: Vec<char> = chars_of(b);
    let mut i: usize = 0;
    assert(x@.skip(0) =~= x@);
    assert(y@.skip(0) =~= y@);
    while i < x.len() && i < y.len()
        invariant
            i <= x.len(),
            i <= y.len(),
            x@ == a@,
            y@ == b@,
            before(x@, y@) == before(x@.skip(i as int), y@.skip(i as int)),
        decreases x.len() - i,
    {
        assert(x@.skip(i as int)[0] == x@[i as int]);
        assert(y@.skip(i as int)[0] == y@[i as int]);
        let (p, q): (char, char) = (x[i], y[i]);
        if p != q {
            return p < q;
        }
        assert(x@.skip(i as int).drop_first() =~= x@.skip(i + 1));
        assert(y@.skip(i as int).drop_first() =~= y@.skip(i + 1));
        i += 1;
    }
    i < y.len()
}

/// Entries by name.
#[derive(Debug)]
pub struct NameTable<T> {
    entries: Vec<(String, T)>,
}

impl<T> View for NameTable<T> {
    type V = Seq<(String, T)>;

    closed spec fn view(&self) -> Seq<(String, T)> {
        self.entries@
    }
}

/// Whether the names of entries are in order, none twice.
pub open spec fn ordered<T>(s: Seq<(String, T)>) -> bool {
    forall|i: int, j: int| 0 <= i < j < s.len() ==> before(#[trigger] s[i].0@, #[trigger] s[j].0@)
}

/// The names of entries.
pub open spec fn names<T>(s: Seq<(String, T)>) -> Seq<Seq<char>> {
    s.map_values(|e: (String, T)| e.0@)
}

/// The entry of that name.
pub open spec fn lookup<T>(s: Seq<(String, T)>, name: Seq<char>) -> Option<T>
    decreases s.len(),
{
    if s.len() == 0 {
        None
    } else if s[0].0@ == name {
        Some(s[0].1)
    } else {
        lookup(s.drop_first(), name)
    }
}

/// The number of entries whose names come before `name`.
pub open spec fn place<T>(s: Seq<(String, T)>, name: Seq<char>) -> int
    decreases s.len(),
{
    if s.len() > 0 && before(s[0].0@, name) {
        1 + place(s.drop_first(), name)
    } else {
        0
    }
}

/// The entries with `value` under `name`, in the place of an entry of that name
/// if there is one.
pub open spec fn inserted<T>(s: Seq<(String, T)>, name: String, value: T) -> Seq<(String, T)> {
    let k = place(s, name@);
    if k < s.len() && s[k].0@ == name@ {
        s.update(k, (s[k].0, value))
    } else {
        s.insert(k, (name, value))
    }
}

proof fn lemma_place<T>(s: Seq<(String, T)>, name: Seq<char>)
    ensures
        0 <= place(s, name) <= s.len(),
        forall|i: int| 0 <= i < place(s, name) ==> before(#[trigger] s[i].0@, name),
        place(s, name) < s.len() ==> !before(s[place(s, name)].0@, name),
    decreases s.len(),
{
    if s.len() > 0 && before(s[0].0@, name) {
        lemma_place(s.drop_first(), name);
        assert forall|i: int| 0 <= i < place(s, name) implies before(#[trigger] s[i].0@, name) by {
            if i > 0 {
                assert(s[i] == s.drop_first()[i - 1]);
            }
        }
    }
}

proof fn lemma_lookup_at<T>(s: Seq<(String, T)>, i: int)
    requires
        ordered(s),
        0 <= i < s.len(),
    ensures
        lookup(s, s[i].0@) == Some(s[i].1),
    decreases s.len(),
{
    if i > 0 {
        assert(before(s[0].0@, s[i].0@));
        lemma_before_irreflexive(s[i].0@);
        let t = s.drop_first();
        assert forall|a: int, b: int| 0 <= a < b < t.len() implies before(
            #[trigger] t[a].0@,
            #[trigger] t[b].0@,
        ) by {
            assert(t[a] == s[a + 1] && t[b] == s[b + 1]);
        }
        assert(t[i - 1] == s[i]);
        lemma_lookup_at(t, i - 1);
    }
}

proof fn lemma_lookup_none<T>(s: Seq<(String, T)>, name: Seq<char>)
    requires
        forall|i: int| 0 <= i < s.len() ==> (#[trigger] s[i].0)@ != name,
    ensures
        lookup(s, name) is None,
    decreases s.len(),
{
    if s.len() > 0 {
        let t = s.drop_first();
        assert forall|i: int| 0 <= i < t.len() implies (#[trigger] t[i].0)@ != name by {
            assert(t[i] == s[i + 1]);
        }
        lemma_lookup_none(t, name);
    }
}

/// Putting an entry in keeps the names in order.
pub proof fn law_insert_keeps_order<T>(s: Seq<(String, T)>, name: String, value: T)
    requires
        ordered(s),
    ensures
        ordered(inserted(s, name, value)),
{
    let r = inserted(s, name, value);
    let k = place(s, name@);
    lemma_place(s, name@);
    if k < s.len() && s[k].0@ == name@ {
        assert forall|i: int, j: int| 0 <= i < j < r.len() implies before(
            #[trigger] r[i].0@,
            #[trigger] r[j].0@,
        ) by {
            assert(before(s[i].0@, s[j].0@));
        }
    } else {
        if k < s.len() {
            lemma_before_total(s[k].0@, name@);
        }
        assert forall|i: int, j: int| 0 <= i < j < r.len() implies before(
            #[trigger] r[i].0@,
            #[trigger] r[j].0@,
        ) by {
            if j < k {
                assert(r[i] == s[i] && r[j] == s[j]);
            } else if j == k {
                assert(r[i] == s[i]);
            } else if i < k {
                assert(r[i] == s[i] && r[j] == s[j - 1]);
            } else if i == k {
                assert(r[j] == s[j - 1]);
                if j - 1 > k {
                    assert(before(s[k].0@, s[j - 1].0@));
                    lemma_before_transitive(name@, s[k].0@, s[j - 1].0@);
                }
            } else {
                assert(r[i] == s[i - 1] && r[j] == s[j - 1]);
            }
        }
    }
}

/// An entry that was put in is found under its name, and every other name finds
/// what it found before.
pub proof fn law_insert_then_lookup<T>(
    s: Seq<(String, T)>,
    name: String,
    value: T,
    other: Seq<char>,
)
    requires
        ordered(s),
    ensures
        lookup(inserted(s, name, value), name@) == Some(value),
        other != name@ ==> lookup(inserted(s, name, value), other) == lookup(s, other),
{
    let r = inserted(s, name, value);
    let k = place(s, name@);
    lemma_place(s, name@);
    law_insert_keeps_order(s, name, value);
    lemma_lookup_at(r, k);
    if other != name@ {
        let fresh = !(k < s.len() && s[k].0@ == name@);
        if exists|i: int| 0 <= i < s.len() && (#[trigger] s[i].0)@ == other {
            let i = choose|i: int| 0 <= i < s.len() && (#[trigger] s[i].0)@ == other;
            lemma_lookup_at(s, i);
            let j = if fresh && i >= k {
                i + 1
            } else {
                i
            };
            assert(r[j].0@ == other && r[j].1 == s[i].1);
            lemma_lookup_at(r, j);
        } else {
            lemma_lookup_none(s, other);
            assert forall|i: int| 0 <= i < r.len() implies (#[trigger] r[i].0)@ != other by {
                if fresh && i > k {
                    assert(r[i] == s[i - 1]);
                } else if !(i == k) {
                    assert(r[i].0 == s[i].0);
                }
            }
            lemma_lookup_none(r, other);
        }
    }
}

impl<T> NameTable<T> {
    #[verifier::type_invariant]
    spec fn in_order(&self) -> bool {
        ordered(self.entries@)
    }

    /// A table without entries.
    pub fn new() -> (r: NameTable<T>)
        ensures
            r@ == Seq::<(String, T)>::empty(),
    {
        NameTable { entries: Vec::new() }
    }

    /// The number of entries.
    pub fn len(&self) -> (n: usize)
        ensures
            n == self@.len(),
    {
        self.entries.len()
    }

    /// The name of entry number `i`.
    pub fn name(&self, i: usize) -> (r: &str)
        requires
            i < self@.len(),
        ensures
            r@ == self@[i as int].0@,
    {
        self.entries[i].0.as_str()
    }

    /// The value of entry number `i`.
    pub fn value(&self, i: usize) -> (r: &T)
        requires
            i < self@.len(),
        ensures
            *r == self@[i as int].1,
    {
        &self.entries[i].1
    }

    /// The names, in order.
    pub fn names(&self) -> (r: Vec<String>)
        ensures
            views(r@) == names(self@),
            ordered(self@),
    {
        proof {
            use_type_invariant(self);
        }
        let mut r: Vec<String> = Vec::new();
        let mut i: usize = 0;
        while i < self.entries.len()
            invariant
                i <= self.entries@.len(),
                r@.len() == i,
                forall|j: int| 0 <= j < i ==> (#[trigger] r@[j])@ == self.entries@[j].0@,
            decreases self.entries@.len() - i,
        {
            r.push(String::from_str(self.entries[i].0.as_str()));
            i += 1;
        }
        assert(views(r@) =~= names(self@));
        r
    }

    /// The value under `name`.
    pub fn get(&self, name: &str) -> (r: Option<&T>)
        ensures
            match r {
                Some(v) => lookup(self@, name@) == Some(*v),
                None => lookup(self@, name@) is None,
            },
    {
        let mut i: usize = 0;
        assert(self@.skip(0) =~= self@);
        while i < self.entries.len()
            invariant
                i <= self.entries@.len(),
                lookup(self@, name@) == lookup(self.entries@.skip(i as int), name@),
            decreases self.entries@.len() - i,
        {
            if same_text(self.entries[i].0.as_str(), name) {
                return Some(&self.entries[i].1);
            }
            assert(self.entries@.skip(i as int).drop_first() =~= self.entries@.skip(i + 1));
            i += 1;
        }
        None
    }

    /// Puts `value` under `name`, in the place of what stood there.
    pub fn insert(&mut self, name: String, value: T)
        ensures
            final(self)@ == inserted(old(self)@, name, value),
            ordered(final(self)@),
    {
        proof {
            use_type_invariant(&*self);
            law_insert_keeps_order(self.entries@, name, value);
            lemma_place(self.entries@, name@);
        }
        let ghost start = self.entries@;
        let mut entries: Vec<(String, T)> = Vec::new();
        std::mem::swap(&mut entries, &mut self.entries);
        let mut k: usize = 0;
        assert(start.skip(0) =~= start);
        while k < entries.len() && comes_before(entries[k].0.as_str(), name.as_str())
            invariant
                k <= entries@.len(),
                entries@ == start,
                place(start, name@) == k + place(start.skip(k as int), name@),
            decreases entries@.len() - k,
        {
            assert(start.skip(k as int).drop_first() =~= start.skip(k + 1));
            k += 1;
        }
        if k < entries.len() && same_text(entries[k].0.as_str(), name.as_str()) {
            let mut old_entry: (String, T) = entries.remove(k);
            old_entry.1 = value;
            entries.insert(k, old_entry);
            assert(entries@ =~= inserted(start, name, value));
        } else {
            entries.insert(k, (name, value));
            assert(entries@ =~= inserted(start, name, value));
        }
        self.entries = entries;
    }
}

}
