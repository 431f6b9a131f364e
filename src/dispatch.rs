//! Name tests: which slot, or which alternative of a group, takes a child tag.
use vstd::prelude::*;
use crate::schema::{ChildSlot, SchemaSet, Target};

verus! {

/// The first alternative at or after `i`, among the schemas `alts`, whose
/// element name is `tag`.
pub open spec fn dispatch_from(set: SchemaSet, alts: Seq<usize>, tag: Seq<char>, i: int) -> Option<
    usize,
>
    decreases alts.len() - i,
{
    if i < 0 || i >= alts.len() {
        None
    } else if set.elements@[alts[i] as int].name@ == tag {
        Some(alts[i])
    } else {
        dispatch_from(set, alts, tag, i + 1)
    }
}

/// The names of the schemas `alts`, in order.
pub open spec fn alternative_names(set: SchemaSet, alts: Seq<usize>) -> Seq<String> {
    alts.map_values(|id: usize| set.elements@[id as int].name)
}

/// Whether a child slot takes an element with tag `tag`.
pub open spec fn slot_accepts(set: SchemaSet, slot: ChildSlot, tag: Seq<char>) -> bool {
    match slot.target {
        Target::Leaf(_) => slot.name@ == tag,
        Target::Element(k) => set.elements@[k as int].name@ == tag,
        Target::Group(g) => dispatch_from(set, set.groups@[g as int]@, tag, 0) is Some,
    }
}

/// The names that a child slot accepts.
pub open spec fn slot_names(set: SchemaSet, slot: ChildSlot) -> Seq<String> {
    match slot.target {
        Target::Leaf(_) => seq![slot.name],
        Target::Element(k) => seq![set.elements@[k as int].name],
        Target::Group(g) => alternative_names(set, set.groups@[g as int]@),
    }
}

/// The first slot at or after `k` that takes `tag`.
pub open spec fn select_from(set: SchemaSet, slots: Seq<ChildSlot>, tag: Seq<char>, k: int) -> Option<
    usize,
>
    decreases slots.len() - k,
{
    if k < 0 || k >= slots.len() {
        None
    } else if slot_accepts(set, slots[k], tag) {
        Some(k as usize)
    } else {
        select_from(set, slots, tag, k + 1)
    }
}

/// The names that the slots `k..` accept, slot by slot.
pub open spec fn expected_from(set: SchemaSet, slots: Seq<ChildSlot>, k: int) -> Seq<String>
    decreases slots.len() - k,
{
    if k < 0 || k >= slots.len() {
        seq![]
    } else {
        slot_names(set, slots[k]) + expected_from(set, slots, k + 1)
    }
}

/// Whether every slot's target lies inside the set.
pub open spec fn slots_in_set(set: SchemaSet, slots: Seq<ChildSlot>) -> bool {
    forall|k: int| 0 <= k < slots.len() ==> set.child_slot_valid(#[trigger] slots[k])
}

/// Picks the schema for a tag among the alternatives of group `g`: the first
/// in declared order whose element name is `tag`, or `None`.
pub fn dispatch(set: &SchemaSet, g: usize, tag: &String) -> (r: Option<usize>)
    requires
        set.valid(),
        g < set.groups@.len(),
    ensures
        r == dispatch_from(*set, set.groups@[g as int]@, tag@, 0),
        r matches Some(c) ==> c < set.elements@.len(),
{
    let alts = &set.groups[g];
    let mut i: usize = 0;
    while i < alts.len()
        invariant
            i <= alts@.len(),
            set.valid(),
            g < set.groups@.len(),
            alts == set.groups@[g as int],
            dispatch_from(*set, alts@, tag@, 0) == dispatch_from(*set, alts@, tag@, i as int),
        decreases alts@.len() - i,
    {
        let id = alts[i];
        assert(set.group_valid(set.groups@[g as int]));
        if set.elements[id].name == *tag {
            return Some(id);
        }
        i = i + 1;
    }
    None
}

/// The names of the alternatives of group `g`, in order.
pub fn alternative_name_list(set: &SchemaSet, g: usize) -> (r: Vec<String>)
    requires
        set.valid(),
        g < set.groups@.len(),
    ensures
        r@ == alternative_names(*set, set.groups@[g as int]@),
{
    let alts = &set.groups[g];
    let ghost all = alternative_names(*set, alts@);
    let mut names: Vec<String> = Vec::new();
    let mut i: usize = 0;
    while i < alts.len()
        invariant
            i <= alts@.len(),
            set.valid(),
            g < set.groups@.len(),
            alts == set.groups@[g as int],
            all == alternative_names(*set, alts@),
            names@ == all.subrange(0, i as int),
        decreases alts@.len() - i,
    {
        assert(set.group_valid(set.groups@[g as int]));
        names.push(set.elements[alts[i]].name.clone());
        i = i + 1;
        assert(names@ =~= all.subrange(0, i as int));
    }
    assert(all.subrange(0, i as int) =~= all);
    names
}

fn slot_accepts_tag(set: &SchemaSet, slot: &ChildSlot, tag: &String) -> (r: bool)
    requires
        set.valid(),
        set.child_slot_valid(*slot),
    ensures
        r == slot_accepts(*set, *slot, tag@),
{
    match slot.target {
        Target::Leaf(_) => slot.name == *tag,
        Target::Element(k) => set.elements[k].name == *tag,
        Target::Group(g) => dispatch(set, g, tag).is_some(),
    }
}

/// The first of `slots`, in declared order, that takes a child tagged `tag`.
pub fn select_slot(set: &SchemaSet, slots: &Vec<ChildSlot>, tag: &String) -> (r: Option<usize>)
    requires
        set.valid(),
        slots_in_set(*set, slots@),
    ensures
        r == select_from(*set, slots@, tag@, 0),
        r matches Some(k) ==> k < slots@.len(),
{
    let mut k: usize = 0;
    while k < slots.len()
        invariant
            k <= slots@.len(),
            set.valid(),
            slots_in_set(*set, slots@),
            select_from(*set, slots@, tag@, 0) == select_from(*set, slots@, tag@, k as int),
        decreases slots@.len() - k,
    {
        if slot_accepts_tag(set, &slots[k], tag) {
            return Some(k);
        }
        k = k + 1;
    }
    None
}

/// Every name that one of `slots` accepts, slot by slot in declared order.
pub fn expected_names(set: &SchemaSet, slots: &Vec<ChildSlot>) -> (r: Vec<String>)
    requires
        set.valid(),
        slots_in_set(*set, slots@),
    ensures
        r@ == expected_from(*set, slots@, 0),
{
    let mut names: Vec<String> = Vec::new();
    let mut k: usize = slots.len();
    while k > 0
        invariant
            k <= slots@.len(),
            set.valid(),
            slots_in_set(*set, slots@),
            names@ == expected_from(*set, slots@, k as int),
        decreases k,
    {
        k = k - 1;
        let slot = &slots[k];
        let mut these: Vec<String> = match slot.target {
            Target::Leaf(_) => vec![slot.name.clone()],
            Target::Element(id) => vec![set.elements[id].name.clone()],
            Target::Group(g) => alternative_name_list(set, g),
        };
        proof {
            assert(these@ =~= slot_names(*set, *slot));
        }
        these.append(&mut names);
        names = these;
    }
    names
}

} // verus!
