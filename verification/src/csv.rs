//! Fields of comma-separated values.
use vstd::prelude::*;
use crate::text::{chars_of, contains_char};

verus! {

/// `s` with each quotation mark doubled.
pub open spec fn doubled(s: Seq<char>) -> Seq<char>
    decreases s.len(),
{
    if s.len() == 0 {
        Seq::empty()
    } else if s.last() == '"' {
        doubled(s.drop_last()) + seq!['"', '"']
    } else {
        doubled(s.drop_last()).push(s.last())
    }
}

/// Whether a text must stand in quotation marks.
pub open spec fn needs_quotes(s: Seq<char>) -> bool {
    s.contains(',') || s.contains('"') || s.contains('\n')
}

/// The field that holds the text `s`.
pub open spec fn field(s: Seq<char>) -> Seq<char> {
    if needs_quotes(s) {
        seq!['"'] + doubled(s) + seq!['"']
    } else {
        s
    }
}

/// Writes the field that holds the text `s`.
pub fn csv_field(s: &str) -> (r: String)
    ensures
        r@ == field(s@),
{
    let v: Vec<char> = chars_of(s);
    let c: &[char] = v.as_slice();
    if !contains_char(c, ',') && !contains_char(c, '"') && !contains_char(c, '\n') {
        return String::from_str(s);
    }
    let mut r: String = String::new();
    r.push('"');
    let ghost head = seq!['"'];
    assert(r@ =~= head + doubled(v@.take(0)));
    let mut i: usize = 0;
    while i < v.len()
        invariant
            i <= v@.len(),
            head == seq!['"'],
            r@ == head + doubled(v@.take(i as int)),
        decreases v@.len() - i,
    {
        assert(v@.take(i + 1).drop_last() =~= v@.take(i as int));
        if v[i] == '"' {
            r.push('"');
        }
        r.push(v[i]);
        assert(r@ =~= head + doubled(v@.take(i + 1)));
        i += 1;
    }
    assert(v@.take(i as int) =~= v@);
    r.push('"');
    assert(r@ =~= field(s@));
    r
}

/// A text with each pair of quotation marks taken for one.
pub open spec fn undoubled(s: Seq<char>) -> Seq<char>
    decreases s.len(),
{
    if s.len() == 0 {
        Seq::empty()
    } else if s.len() >= 2 && s[s.len() - 1] == '"' && s[s.len() - 2] == '"' {
        undoubled(s.take(s.len() - 2)).push('"')
    } else {
        undoubled(s.drop_last()).push(s.last())
    }
}

/// The text that a field holds.
pub open spec fn field_text(f: Seq<char>) -> Seq<char> {
    if f.len() >= 2 && f[0] == '"' && f.last() == '"' {
        undoubled(f.subrange(1, f.len() - 1))
    } else {
        f
    }
}

proof fn lemma_undoubled(s: Seq<char>)
    ensures
        undoubled(doubled(s)) == s,
    decreases s.len(),
{
    if s.len() > 0 {
        let front = s.drop_last();
        lemma_undoubled(front);
        let d = doubled(s);
        let e = doubled(front);
        if s.last() == '"' {
            assert(d.take(d.len() - 2) =~= e);
            assert(front.push('"') =~= s);
        } else {
            assert(d.last() == s.last());
            assert(d.drop_last() =~= e);
            assert(front.push(s.last()) =~= s);
        }
    }
}

/// A field is read back as the text that it was written for.
pub proof fn law_field_round_trip(s: Seq<char>)
    ensures
        field_text(field(s)) == s,
{
    if needs_quotes(s) {
        lemma_undoubled(s);
        let f = field(s);
        assert(f.subrange(1, f.len() - 1) =~= doubled(s));
    } else if s.len() >= 2 && s[0] == '"' {
        assert(s.contains(s[0]));
    }
}

}
