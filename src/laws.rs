//! Properties of the engine that relate its parts or hold for all inputs.
use vstd::prelude::*;
use crate::attributes::{
    attribute_names, attribute_values, collect_attributes, find_attribute_from,
    lemma_find_attribute_in_range, no_values, settle_attribute, settle_attributes,
};
use crate::decode::{Scalar, decoded};
use crate::dispatch::dispatch_from;
use crate::document::{
    Document, Item, NodeModel, assembled, items_of, nodes_view, settle_child, settle_children,
};
use crate::engine::{document_agrees, parse_node};
use crate::error::{Error, ErrorKindModel, ErrorModel};
use crate::event::{Attribute, Located, Position};
use crate::schema::{AttributeSlot, ChildSlot, ElementSchema, SchemaSet};

verus! {

/// Attribute slot names are pairwise distinct.
pub open spec fn names_unique(slots: Seq<AttributeSlot>) -> bool {
    forall|a: int, b: int|
        0 <= a < b < slots.len() ==> #[trigger] slots[a].name@ != #[trigger] slots[b].name@
}

/// Some attribute of `attrs[j..]` is named `name`.
pub open spec fn named_from(attrs: Seq<Attribute>, name: Seq<char>, j: int) -> bool {
    exists|x: int| j <= x < attrs.len() && #[trigger] attrs[x].name@ == name
}

/// Every attribute of `attrs[j..]` names a slot and decodes as that slot's kind.
pub open spec fn all_accepted_from(slots: Seq<AttributeSlot>, attrs: Seq<Attribute>, j: int) -> bool {
    forall|x: int|
        j <= x < attrs.len() ==> (#[trigger] find_attribute_from(slots, attrs[x].name@, 0)
            matches Some(k) && decoded(slots[k].kind, attrs[x].value) is Some)
}

proof fn lemma_find_unique(slots: Seq<AttributeSlot>, name: Seq<char>, m: int)
    requires
        names_unique(slots),
        0 <= m < slots.len(),
        find_attribute_from(slots, name, 0) is Some,
    ensures
        (find_attribute_from(slots, name, 0)->0 == m) == (slots[m].name@ == name),
{
    lemma_find_attribute_in_range(slots, name, 0);
    let k = find_attribute_from(slots, name, 0)->0;
    if k != m && slots[m].name@ == name {
        if k < m {
            assert(slots[k].name@ != slots[m].name@);
        } else {
            assert(slots[m].name@ != slots[k].name@);
        }
    }
}

proof fn lemma_find_none(slots: Seq<AttributeSlot>, name: Seq<char>, k: int)
    requires
        0 <= k,
        find_attribute_from(slots, name, k) is None,
    ensures
        forall|m: int| k <= m < slots.len() ==> slots[m].name@ != name,
    decreases slots.len() - k,
{
    if k < slots.len() {
        lemma_find_none(slots, name, k + 1);
    }
}

/// What collecting accepted attributes does to each slot: a slot that no
/// attribute of `attrs[j..]` names keeps its value; a slot named by exactly
/// one of them gets that one decoded.
proof fn lemma_collect(
    element: String,
    slots: Seq<AttributeSlot>,
    attrs: Seq<Attribute>,
    j: int,
    vals: Seq<Option<Scalar>>,
    position: Position,
)
    requires
        0 <= j <= attrs.len(),
        vals.len() == slots.len(),
        names_unique(slots),
        all_accepted_from(slots, attrs, j),
    ensures
        collect_attributes(element, slots, attrs, j, vals, position) is Ok,
        ({
            let out = collect_attributes(element, slots, attrs, j, vals, position)->Ok_0;
            &&& out.len() == vals.len()
            &&& forall|m: int| 0 <= m < slots.len() && vals[m] is Some ==> (#[trigger] out[m]) is Some
            &&& forall|m: int, x: int|
                0 <= m < slots.len() && j <= x < attrs.len() && #[trigger] attrs[x].name@
                    == #[trigger] slots[m].name@ ==> out[m] is Some
            &&& forall|m: int|
                0 <= m < slots.len() && !named_from(attrs, slots[m].name@, j) ==> #[trigger] out[m]
                    == vals[m]
            &&& forall|m: int, x: int|
                0 <= m < slots.len() && j <= x < attrs.len() && attrs[x].name@ == slots[m].name@
                    && (forall|y: int|
                    j <= y < attrs.len() && y != x ==> #[trigger] attrs[y].name@ != slots[m].name@)
                    ==> #[trigger] out[m] == #[trigger] decoded(slots[m].kind, attrs[x].value)
        }),
    decreases attrs.len() - j,
{
    if j < attrs.len() {
        assert(find_attribute_from(slots, attrs[j].name@, 0) matches Some(k) && decoded(
            slots[k].kind,
            attrs[j].value,
        ) is Some);
        let k = find_attribute_from(slots, attrs[j].name@, 0)->0;
        lemma_find_attribute_in_range(slots, attrs[j].name@, 0);
        let v = decoded(slots[k].kind, attrs[j].value)->0;
        let vals2 = vals.update(k, Some(v));
        assert(all_accepted_from(slots, attrs, j + 1));
        lemma_collect(element, slots, attrs, j + 1, vals2, position);
        let out = collect_attributes(element, slots, attrs, j, vals, position)->Ok_0;
        assert forall|m: int| 0 <= m < slots.len() && vals[m] is Some implies (#[trigger] out[m]) is Some by {
            assert(vals2[m] is Some);
        }
        assert forall|m: int, x: int|
            0 <= m < slots.len() && j <= x < attrs.len() && #[trigger] attrs[x].name@
                == #[trigger] slots[m].name@ implies out[m] is Some by {
            if x == j {
                lemma_find_unique(slots, attrs[j].name@, m);
                assert(vals2[m] is Some);
            }
        }
        assert forall|m: int|
            0 <= m < slots.len() && !named_from(attrs, slots[m].name@, j) implies #[trigger] out[m]
            == vals[m] by {
            assert(attrs[j].name@ != slots[m].name@);
            assert(!named_from(attrs, slots[m].name@, j + 1)) by {
                if named_from(attrs, slots[m].name@, j + 1) {
                    let x = choose|x: int|
                        j + 1 <= x < attrs.len() && #[trigger] attrs[x].name@ == slots[m].name@;
                    assert(j <= x < attrs.len() && attrs[x].name@ == slots[m].name@);
                }
            }
            assert(m != k);
        }
        assert forall|m: int, x: int|
            0 <= m < slots.len() && j <= x < attrs.len() && attrs[x].name@ == slots[m].name@
                && (forall|y: int|
                j <= y < attrs.len() && y != x ==> #[trigger] attrs[y].name@ != slots[m].name@)
                implies #[trigger] out[m] == #[trigger] decoded(slots[m].kind, attrs[x].value) by {
            lemma_find_unique(slots, attrs[j].name@, m);
            if x == j {
                assert(m == k);
                assert(!named_from(attrs, slots[m].name@, j + 1)) by {
                    if named_from(attrs, slots[m].name@, j + 1) {
                        let y = choose|y: int|
                            j + 1 <= y < attrs.len() && #[trigger] attrs[y].name@ == slots[m].name@;
                        assert(y != x);
                    }
                }
            } else {
                assert(attrs[j].name@ != slots[m].name@);
            }
        }
    }
}

/// Settling slots `k..`: where none of `k..m` fails and slot `m` fails, the
/// error is slot `m`'s.
proof fn lemma_settle_fails_at(
    element: String,
    slots: Seq<AttributeSlot>,
    vals: Seq<Option<Scalar>>,
    k: int,
    m: int,
    position: Position,
)
    requires
        0 <= k <= m < slots.len(),
        vals.len() == slots.len(),
        forall|n: int| k <= n < m ==> #[trigger] settle_attribute(element, slots[n], vals[n]) is Ok,
        settle_attribute(element, slots[m], vals[m]) is Err,
    ensures
        settle_attributes(element, slots, vals, k, position) == Err::<
            Seq<Option<Scalar>>,
            ErrorModel,
        >(ErrorModel { position, kind: settle_attribute(element, slots[m], vals[m])->Err_0 }),
    decreases m - k,
{
    if k < m {
        let v = settle_attribute(element, slots[k], vals[k])->Ok_0;
        let vals2 = vals.update(k, v);
        assert forall|n: int| k + 1 <= n < m implies #[trigger] settle_attribute(
            element,
            slots[n],
            vals2[n],
        ) is Ok by {
            assert(vals2[n] == vals[n]);
            assert(settle_attribute(element, slots[n], vals[n]) is Ok);
        }
        assert(vals2[m] == vals[m]);
        lemma_settle_fails_at(element, slots, vals2, k + 1, m, position);
    }
}

/// Settling slots `k..` where none fails: each of them gets its settled value.
proof fn lemma_settle_succeeds(
    element: String,
    slots: Seq<AttributeSlot>,
    vals: Seq<Option<Scalar>>,
    k: int,
    position: Position,
)
    requires
        0 <= k <= slots.len(),
        vals.len() == slots.len(),
        forall|n: int| k <= n < slots.len() ==> #[trigger] settle_attribute(element, slots[n], vals[n]) is Ok,
    ensures
        settle_attributes(element, slots, vals, k, position) is Ok,
        forall|n: int|
            k <= n < slots.len() ==> #[trigger] settle_attributes(element, slots, vals, k, position)->Ok_0[n]
                == settle_attribute(element, slots[n], vals[n])->Ok_0,
    decreases slots.len() - k,
{
    if k < slots.len() {
        let v = settle_attribute(element, slots[k], vals[k])->Ok_0;
        let vals2 = vals.update(k, v);
        assert forall|n: int| k + 1 <= n < slots.len() implies #[trigger] settle_attribute(
            element,
            slots[n],
            vals2[n],
        ) is Ok by {
            assert(vals2[n] == vals[n]);
        }
        lemma_settle_succeeds(element, slots, vals2, k + 1, position);
        lemma_settle_keeps(element, slots, vals2, k + 1, position, k);
    }
}

proof fn lemma_settle_keeps(
    element: String,
    slots: Seq<AttributeSlot>,
    vals: Seq<Option<Scalar>>,
    k: int,
    position: Position,
    n: int,
)
    requires
        0 <= n < k <= slots.len(),
        vals.len() == slots.len(),
        settle_attributes(element, slots, vals, k, position) is Ok,
    ensures
        settle_attributes(element, slots, vals, k, position)->Ok_0[n] == vals[n],
        settle_attributes(element, slots, vals, k, position)->Ok_0.len() == vals.len(),
    decreases slots.len() - k,
{
    if k < slots.len() {
        let v = settle_attribute(element, slots[k], vals[k])->Ok_0;
        lemma_settle_keeps(element, slots, vals.update(k, v), k + 1, position, n);
    }
}

/// A start tag that lacks a required attribute fails to parse with
/// `MissingAttribute`, naming that attribute and the element, at the start
/// tag's position: provided every attribute the tag has is one the schema
/// lists and decodes, and no earlier required attribute is missing too.
pub proof fn law_missing_required_attribute(
    set: SchemaSet,
    id: usize,
    ev: Seq<Located>,
    i: int,
    depth: nat,
    nodes: Seq<crate::document::NodeModel>,
    k: int,
)
    requires
        set.valid(),
        id < set.elements@.len(),
        0 <= i < ev.len(),
        ev[i].event is Start,
        !set.elements@[id as int].stub,
        0 <= k < set.elements@[id as int].attributes@.len(),
        set.elements@[id as int].attributes@[k].occurrence is Required,
        !named_from(ev[i].event->Start_attributes@, set.elements@[id as int].attributes@[k].name@, 0),
        all_accepted_from(set.elements@[id as int].attributes@, ev[i].event->Start_attributes@, 0),
        forall|m: int|
            0 <= m < k && (#[trigger] set.elements@[id as int].attributes@[m]).occurrence is Required
                ==> named_from(
                ev[i].event->Start_attributes@,
                set.elements@[id as int].attributes@[m].name@,
                0,
            ),
    ensures
        parse_node(set, id, ev, i, depth, nodes) == Err::<
            (Seq<crate::document::NodeModel>, int),
            ErrorModel,
        >(
            ErrorModel {
                position: ev[i].position,
                kind: ErrorKindModel::MissingAttribute {
                    element: set.elements@[id as int].name,
                    attribute: set.elements@[id as int].attributes@[k].name,
                },
            },
        ),
{
    let schema = set.elements@[id as int];
    let slots = schema.attributes@;
    let attrs = ev[i].event->Start_attributes@;
    let pos = ev[i].position;
    assert(set.element_valid(schema));
    assert(names_unique(slots));
    let vals0 = no_values(slots.len());
    lemma_collect(schema.name, slots, attrs, 0, vals0, pos);
    let vals = collect_attributes(schema.name, slots, attrs, 0, vals0, pos)->Ok_0;
    assert forall|n: int| 0 <= n < k implies #[trigger] settle_attribute(
        schema.name,
        slots[n],
        vals[n],
    ) is Ok by {
        if slots[n].occurrence is Required {
            assert(named_from(attrs, slots[n].name@, 0));
            let x = choose|x: int| 0 <= x < attrs.len() && #[trigger] attrs[x].name@ == slots[n].name@;
            assert(vals[n] is Some);
        }
    }
    assert(vals[k] == vals0[k]);
    lemma_settle_fails_at(schema.name, slots, vals, 0, k, pos);
}

/// Every attribute of `attrs[..x]` names a slot and decodes as that slot's kind.
pub open spec fn accepted_before(slots: Seq<AttributeSlot>, attrs: Seq<Attribute>, x: int) -> bool {
    forall|y: int|
        0 <= y < x ==> (#[trigger] find_attribute_from(slots, attrs[y].name@, 0) matches Some(k)
            && decoded(slots[k].kind, attrs[y].value) is Some)
}

proof fn lemma_collect_unexpected(
    element: String,
    slots: Seq<AttributeSlot>,
    attrs: Seq<Attribute>,
    j: int,
    x: int,
    vals: Seq<Option<Scalar>>,
    position: Position,
)
    requires
        0 <= j <= x < attrs.len(),
        accepted_before(slots, attrs, x),
        forall|m: int| 0 <= m < slots.len() ==> #[trigger] slots[m].name@ != attrs[x].name@,
    ensures
        collect_attributes(element, slots, attrs, j, vals, position) == Err::<
            Seq<Option<Scalar>>,
            ErrorModel,
        >(
            ErrorModel {
                position,
                kind: ErrorKindModel::UnexpectedAttribute {
                    element,
                    attribute: attrs[x].name,
                    expected: attribute_names(slots),
                },
            },
        ),
    decreases x - j,
{
    if j < x {
        assert(find_attribute_from(slots, attrs[j].name@, 0) matches Some(k) && decoded(
            slots[k].kind,
            attrs[j].value,
        ) is Some);
        let k = find_attribute_from(slots, attrs[j].name@, 0)->0;
        let v = decoded(slots[k].kind, attrs[j].value)->0;
        lemma_collect_unexpected(element, slots, attrs, j + 1, x, vals.update(k, Some(v)), position);
    } else {
        lemma_find_attribute_in_range(slots, attrs[x].name@, 0);
    }
}

/// A start tag with an attribute that the schema does not list fails to
/// parse with `UnexpectedAttribute`, naming the element and that attribute,
/// and its `expected` list is exactly the schema's attribute names in
/// declared order, whatever order the document gives: provided every
/// attribute before it is listed and decodes.
pub proof fn law_unexpected_attribute(
    set: SchemaSet,
    id: usize,
    ev: Seq<Located>,
    i: int,
    depth: nat,
    nodes: Seq<NodeModel>,
    x: int,
)
    requires
        set.valid(),
        id < set.elements@.len(),
        0 <= i < ev.len(),
        ev[i].event is Start,
        !set.elements@[id as int].stub,
        0 <= x < ev[i].event->Start_attributes@.len(),
        forall|m: int|
            0 <= m < set.elements@[id as int].attributes@.len()
                ==> #[trigger] set.elements@[id as int].attributes@[m].name@
                != ev[i].event->Start_attributes@[x].name@,
        accepted_before(set.elements@[id as int].attributes@, ev[i].event->Start_attributes@, x),
    ensures
        parse_node(set, id, ev, i, depth, nodes) == Err::<(Seq<NodeModel>, int), ErrorModel>(
            ErrorModel {
                position: ev[i].position,
                kind: ErrorKindModel::UnexpectedAttribute {
                    element: set.elements@[id as int].name,
                    attribute: ev[i].event->Start_attributes@[x].name,
                    expected: attribute_names(set.elements@[id as int].attributes@),
                },
            },
        ),
{
    let schema = set.elements@[id as int];
    lemma_collect_unexpected(
        schema.name,
        schema.attributes@,
        ev[i].event->Start_attributes@,
        0,
        x,
        no_values(schema.attributes@.len()),
        ev[i].position,
    );
}

proof fn lemma_collect_ok_accepts(
    element: String,
    slots: Seq<AttributeSlot>,
    attrs: Seq<Attribute>,
    j: int,
    vals: Seq<Option<Scalar>>,
    position: Position,
)
    requires
        0 <= j <= attrs.len(),
        collect_attributes(element, slots, attrs, j, vals, position) is Ok,
    ensures
        all_accepted_from(slots, attrs, j),
    decreases attrs.len() - j,
{
    if j < attrs.len() {
        let k = find_attribute_from(slots, attrs[j].name@, 0)->0;
        let v = decoded(slots[k].kind, attrs[j].value)->0;
        lemma_collect_ok_accepts(element, slots, attrs, j + 1, vals.update(k, Some(v)), position);
    }
}

proof fn lemma_settle_ok_each(
    element: String,
    slots: Seq<AttributeSlot>,
    vals: Seq<Option<Scalar>>,
    k: int,
    position: Position,
)
    requires
        0 <= k <= slots.len(),
        vals.len() == slots.len(),
        settle_attributes(element, slots, vals, k, position) is Ok,
    ensures
        forall|n: int| k <= n < slots.len() ==> #[trigger] settle_attribute(element, slots[n], vals[n]) is Ok,
    decreases slots.len() - k,
{
    if k < slots.len() {
        let v = settle_attribute(element, slots[k], vals[k])->Ok_0;
        let vals2 = vals.update(k, v);
        lemma_settle_ok_each(element, slots, vals2, k + 1, position);
        assert forall|n: int| k <= n < slots.len() implies #[trigger] settle_attribute(
            element,
            slots[n],
            vals[n],
        ) is Ok by {
            if n > k {
                assert(vals2[n] == vals[n]);
            }
        }
    }
}

/// An `OptionalWithDefault` attribute that the start tag lacks takes its
/// declared default; one that the tag has once takes the decoded value, and
/// the default is not used.
pub proof fn law_attribute_default(
    element: String,
    slots: Seq<AttributeSlot>,
    attrs: Seq<Attribute>,
    position: Position,
    k: int,
)
    requires
        names_unique(slots),
        0 <= k < slots.len(),
        slots[k].occurrence is OptionalWithDefault,
        attribute_values(element, slots, attrs, position) is Ok,
    ensures
        !named_from(attrs, slots[k].name@, 0) ==> attribute_values(
            element,
            slots,
            attrs,
            position,
        )->Ok_0[k] == Some(slots[k].occurrence->OptionalWithDefault_0),
        forall|x: int|
            0 <= x < attrs.len() && #[trigger] attrs[x].name@ == slots[k].name@ && (forall|y: int|
                0 <= y < attrs.len() && y != x ==> #[trigger] attrs[y].name@ != slots[k].name@)
                ==> attribute_values(element, slots, attrs, position)->Ok_0[k] == decoded(
                slots[k].kind,
                attrs[x].value,
            ),
{
    let vals0 = no_values(slots.len());
    lemma_collect_ok_accepts(element, slots, attrs, 0, vals0, position);
    lemma_collect(element, slots, attrs, 0, vals0, position);
    let vals = collect_attributes(element, slots, attrs, 0, vals0, position)->Ok_0;
    lemma_settle_ok_each(element, slots, vals, 0, position);
    lemma_settle_succeeds(element, slots, vals, 0, position);
    assert forall|x: int|
        0 <= x < attrs.len() && #[trigger] attrs[x].name@ == slots[k].name@ && (forall|y: int|
            0 <= y < attrs.len() && y != x ==> #[trigger] attrs[y].name@ != slots[k].name@)
            implies attribute_values(element, slots, attrs, position)->Ok_0[k] == decoded(
            slots[k].kind,
            attrs[x].value,
        ) by {
        assert(vals[k] == decoded(slots[k].kind, attrs[x].value));
        assert(vals[k] is Some);
    }
}

proof fn lemma_dispatch_from(set: SchemaSet, alts: Seq<usize>, tag: Seq<char>, i: int, x: int)
    requires
        0 <= i <= x < alts.len(),
        set.elements@[alts[x] as int].name@ == tag,
        forall|y: int| 0 <= y < x ==> #[trigger] set.elements@[alts[y] as int].name@ != tag,
    ensures
        dispatch_from(set, alts, tag, i) == Some(alts[x]),
    decreases x - i,
{
    if i < x {
        lemma_dispatch_from(set, alts, tag, i + 1, x);
    }
}

/// The name dispatcher takes the first alternative, in declared order, whose
/// element name is the tag: a later alternative with the same name is never
/// chosen.
pub proof fn law_dispatch_first_match(set: SchemaSet, alts: Seq<usize>, tag: Seq<char>, x: int)
    requires
        0 <= x < alts.len(),
        set.elements@[alts[x] as int].name@ == tag,
        forall|y: int| 0 <= y < x ==> #[trigger] set.elements@[alts[y] as int].name@ != tag,
    ensures
        dispatch_from(set, alts, tag, 0) == Some(alts[x]),
{
    lemma_dispatch_from(set, alts, tag, 0, x);
}

/// Parsing the same events against the same schema twice gives the same
/// outcome: nodes equal node for node, or the same error kind at the same
/// position.
pub proof fn law_parse_deterministic(
    set: SchemaSet,
    root: usize,
    events: Seq<Located>,
    depth: nat,
    first: Result<Document, Error>,
    second: Result<Document, Error>,
)
    requires
        document_agrees(first, parse_node(set, root, events, 0, depth, seq![])),
        document_agrees(second, parse_node(set, root, events, 0, depth, seq![])),
    ensures
        first is Ok <==> second is Ok,
        first is Ok ==> nodes_view(first->Ok_0.nodes@) == nodes_view(second->Ok_0.nodes@),
        first is Err ==> first->Err_0@ == second->Err_0@,
{
}

proof fn lemma_settle_children_at(
    element: String,
    slots: Seq<ChildSlot>,
    acc: Seq<(usize, Item)>,
    k: int,
    done: Seq<Seq<Item>>,
    n: int,
)
    requires
        0 <= k <= n < slots.len(),
        done.len() == k,
        settle_children(element, slots, acc, k, done) is Ok,
    ensures
        settle_child(element, slots[n], items_of(acc, n as usize)) is Ok,
        settle_children(element, slots, acc, k, done)->Ok_0[n] == settle_child(
            element,
            slots[n],
            items_of(acc, n as usize),
        )->Ok_0,
    decreases n - k,
{
    let items = settle_child(element, slots[k], items_of(acc, k as usize))->Ok_0;
    if k < n {
        lemma_settle_children_at(element, slots, acc, k + 1, done.push(items), n);
    } else {
        lemma_settle_children_keeps(element, slots, acc, k + 1, done.push(items), n);
    }
}

proof fn lemma_settle_children_keeps(
    element: String,
    slots: Seq<ChildSlot>,
    acc: Seq<(usize, Item)>,
    k: int,
    done: Seq<Seq<Item>>,
    n: int,
)
    requires
        0 <= n < k,
        done.len() == k,
        settle_children(element, slots, acc, k, done) is Ok,
    ensures
        settle_children(element, slots, acc, k, done)->Ok_0[n] == done[n],
    decreases slots.len() - k,
{
    if k < slots.len() {
        let items = settle_child(element, slots[k], items_of(acc, k as usize))->Ok_0;
        lemma_settle_children_keeps(element, slots, acc, k + 1, done.push(items), n);
    }
}

/// A repeated child slot of an assembled node holds every child matched to
/// it, in document order: nothing is dropped, merged or reordered.
pub proof fn law_repeated_slot_keeps_document_order(
    id: usize,
    schema: ElementSchema,
    attributes: Seq<Option<Scalar>>,
    acc: Seq<(usize, Item)>,
    text: Seq<Scalar>,
    position: Position,
    k: int,
)
    requires
        0 <= k < schema.children@.len(),
        schema.children@[k].occurrence.is_many(),
        assembled(id, schema, attributes, acc, text, position) is Ok,
    ensures
        assembled(id, schema, attributes, acc, text, position)->Ok_0.children[k] == items_of(
            acc,
            k as usize,
        ),
{
    lemma_settle_children_at(schema.name, schema.children@, acc, 0, seq![], k);
}

/// The items matched to a slot grow only at the end: matching one more child
/// to slot `k` appends it to `k`'s items and leaves every other slot's as it was.
pub proof fn law_matched_items_append(acc: Seq<(usize, Item)>, k: usize, item: Item, m: usize)
    ensures
        items_of(acc.push((k, item)), k) == items_of(acc, k).push(item),
        m != k ==> items_of(acc.push((k, item)), m) == items_of(acc, m),
{
    assert(acc.push((k, item)).drop_last() =~= acc);
}

} // verus!
