//! The units of debug information, one behind the other.
use vstd::prelude::*;
use crate::dwarf::{section_bytes, unit_head_at, SectionData};

verus! {

/// The bytes that the unit at an offset takes.
pub open spec fn unit_size(s: SectionData, at: usize) -> usize {
    match unit_head_at(s, at) {
        Ok(head) => head.size,
        Err(_) => 0,
    }
}

/// Whether `units` are units of `.debug_info`, the first at offset `at` and each
/// further one where the one before it ends.
pub open spec fn units_from(s: SectionData, at: usize, units: Seq<usize>) -> bool {
    &&& units.len() > 0
    &&& units[0] == at
    &&& forall|i: int|
        0 <= i < units.len() ==> {
            &&& (#[trigger] units[i]) < section_bytes(s.parts, ".debug_info"@).len()
            &&& unit_head_at(s, units[i]) is Ok
        }
    &&& forall|i: int|
        #![trigger units[i]]
        0 < i < units.len() ==> units[i] > units[i - 1] && units[i] == units[i - 1]
            + unit_size(s, units[i - 1])
}

/// Whether `units` are the units that `.debug_info` starts with, in order.
pub open spec fn units_in_order(s: SectionData, units: Seq<usize>) -> bool {
    units_from(s, 0, units)
}

/// Behind the first unit stand the others.
pub proof fn lemma_units_behind(s: SectionData, at: usize, units: Seq<usize>)
    requires
        units_from(s, at, units),
        units.len() > 1,
    ensures
        units_from(s, units[1], units.drop_first()),
        units[1] == at + unit_size(s, at),
        units.drop_first().last() == units.last(),
{
    let rest = units.drop_first();
    assert forall|i: int| 0 <= i < rest.len() implies {
        &&& (#[trigger] rest[i]) < section_bytes(s.parts, ".debug_info"@).len()
        &&& unit_head_at(s, rest[i]) is Ok
    } by {
        assert(rest[i] == units[i + 1]);
    }
    assert forall|i: int|
        #![trigger rest[i]]
        0 < i < rest.len() implies rest[i] > rest[i - 1] && rest[i] == rest[i - 1]
        + unit_size(s, rest[i - 1]) by {
        assert(rest[i] == units[i + 1]);
        assert(rest[i - 1] == units[i]);
    }
    assert(units[0] == at);
}

/// A unit in front of others.
pub proof fn lemma_unit_in_front(s: SectionData, at: usize, rest: Seq<usize>)
    requires
        at < section_bytes(s.parts, ".debug_info"@).len(),
        unit_head_at(s, at) is Ok,
        unit_size(s, at) > 0,
        at + unit_size(s, at) <= usize::MAX,
        units_from(s, (at + unit_size(s, at)) as usize, rest),
    ensures
        units_from(s, at, seq![at] + rest),
        (seq![at] + rest).last() == rest.last(),
{
    let units = seq![at] + rest;
    assert forall|i: int| 0 <= i < units.len() implies {
        &&& (#[trigger] units[i]) < section_bytes(s.parts, ".debug_info"@).len()
        &&& unit_head_at(s, units[i]) is Ok
    } by {
        if i > 0 {
            assert(units[i] == rest[i - 1]);
        }
    }
    assert forall|i: int|
        #![trigger units[i]]
        0 < i < units.len() implies units[i] > units[i - 1] && units[i] == units[i - 1]
        + unit_size(s, units[i - 1]) by {
        assert(units[i] == rest[i - 1]);
        if i > 1 {
            assert(units[i - 1] == rest[i - 2]);
        }
    }
}

}
