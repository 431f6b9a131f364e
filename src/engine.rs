//! The matching engine: walks located events against a schema, recursing
//! into child elements, and assembles each element's node.
use vstd::prelude::*;
use crate::attributes::{attribute_values, validate_attributes};
use crate::decode::{Scalar, chars_of};
use crate::dispatch::{
    alternative_name_list, alternative_names, dispatch, dispatch_from, expected_from,
    expected_names, select_from, select_slot, slots_in_set,
};
use crate::document::{Document, Item, Node, NodeModel, assemble, assembled, nodes_view};
use crate::error::{Error, ErrorKind, ErrorKindModel, ErrorModel};
use crate::event::{Event, Located, Position};
use crate::schema::{AttributeSlot, ChildSlot, Occurrence, SchemaSet, Target, TextSlot};
use crate::text::{blank, is_blank, read_text, text_values};

verus! {

/// Where the events end: the place of the last one, or the origin.
pub open spec fn end_position(ev: Seq<Located>) -> Position {
    if ev.len() > 0 {
        ev.last().position
    } else {
        Position { line: 0, column: 0 }
    }
}

pub open spec fn end_error(ev: Seq<Located>) -> ErrorModel {
    ErrorModel { position: end_position(ev), kind: ErrorKindModel::UnexpectedEnd }
}

/// The index just after the end tag that closes an element whose content
/// starts at `i`, with `open` elements of that content still open.
pub open spec fn skip_subtree(ev: Seq<Located>, i: int, open: nat) -> Option<int>
    decreases ev.len() - i,
{
    if i < 0 || i >= ev.len() {
        None
    } else {
        match ev[i].event {
            Event::Start { .. } => skip_subtree(ev, i + 1, open + 1),
            Event::End => if open == 0 {
                Some(i + 1)
            } else {
                skip_subtree(ev, i + 1, (open - 1) as nat)
            },
            Event::Text { .. } => skip_subtree(ev, i + 1, open),
        }
    }
}

/// The state of the children matcher after an element's end tag: the nodes
/// parsed so far, each matched child as (slot, item) in document order, the
/// values of the last non-blank text, and the index after the end tag.
pub struct Progress {
    pub nodes: Seq<NodeModel>,
    pub acc: Seq<(usize, Item)>,
    pub text: Seq<Scalar>,
    pub next: int,
}

/// The text slot that a leaf child element is read with.
pub open spec fn leaf_text_slot(kind: crate::decode::LeafKind) -> TextSlot {
    TextSlot { occurrence: Occurrence::Optional, kind }
}

/// The node of a stub: nothing of its content is kept.
pub open spec fn stub_node(id: usize) -> NodeModel {
    NodeModel { schema: id, attributes: seq![], children: seq![], text: seq![] }
}

/// Parses the element whose start tag is `ev[i]` against schema `id`, with
/// `depth` more levels of nesting allowed below it. On success: the nodes
/// with this element's node added last, and the index after its end tag.
pub open spec fn parse_node(
    set: SchemaSet,
    id: usize,
    ev: Seq<Located>,
    i: int,
    depth: nat,
    nodes: Seq<NodeModel>,
) -> Result<(Seq<NodeModel>, int), ErrorModel>
    decreases depth, ev.len() - i, 1nat,
{
    if i < 0 || i >= ev.len() {
        Err(end_error(ev))
    } else {
        let schema = set.elements@[id as int];
        let pos = ev[i].position;
        match ev[i].event {
            Event::Start { name, attributes } => if schema.stub {
                match skip_subtree(ev, i + 1, 0) {
                    None => Err(end_error(ev)),
                    Some(j) => Ok((nodes.push(stub_node(id)), j)),
                }
            } else {
                match attribute_values(schema.name, schema.attributes@, attributes@, pos) {
                    Err(e) => Err(e),
                    Ok(attrs) => match match_children(
                        set,
                        schema.name,
                        schema.children@,
                        schema.text,
                        ev,
                        i + 1,
                        depth,
                        nodes,
                        seq![],
                        seq![],
                    ) {
                        Err(e) => Err(e),
                        Ok(p) => match assembled(
                            id,
                            schema,
                            attrs,
                            p.acc,
                            p.text,
                            ev[p.next - 1].position,
                        ) {
                            Err(e) => Err(e),
                            Ok(n) => Ok((p.nodes.push(n), p.next)),
                        },
                    },
                }
            },
            _ => Err(ErrorModel { position: pos, kind: ErrorKindModel::NotAStartTag }),
        }
    }
}

/// Parses a leaf child element whose start tag is `ev[i]`: it takes no
/// attributes and no child elements, and its last non-blank text is decoded
/// as `kind`.
pub open spec fn parse_leaf(
    set: SchemaSet,
    name: String,
    kind: crate::decode::LeafKind,
    attributes: Seq<crate::event::Attribute>,
    ev: Seq<Located>,
    i: int,
    depth: nat,
    nodes: Seq<NodeModel>,
) -> Result<Progress, ErrorModel>
    decreases depth, ev.len() - i, 1nat,
{
    if i < 0 || i >= ev.len() {
        Err(end_error(ev))
    } else {
        match attribute_values(name, seq![], attributes, ev[i].position) {
            Err(e) => Err(e),
            Ok(_) => match_children(
                set,
                name,
                seq![],
                Some(leaf_text_slot(kind)),
                ev,
                i + 1,
                depth,
                nodes,
                seq![],
                seq![],
            ),
        }
    }
}

/// Routes the events from `ev[i]` up to the end tag of the current element:
/// each child start tag to the first slot that takes it, each non-blank
/// text to the text slot.
pub open spec fn match_children(
    set: SchemaSet,
    element: String,
    slots: Seq<ChildSlot>,
    text_slot: Option<TextSlot>,
    ev: Seq<Located>,
    i: int,
    depth: nat,
    nodes: Seq<NodeModel>,
    acc: Seq<(usize, Item)>,
    text: Seq<Scalar>,
) -> Result<Progress, ErrorModel>
    decreases depth, ev.len() - i, 0nat,
{
    if i < 0 || i >= ev.len() {
        Err(end_error(ev))
    } else {
        let pos = ev[i].position;
        match ev[i].event {
            Event::End => Ok(Progress { nodes, acc, text, next: i + 1 }),
            Event::Text { text: t } => if is_blank(t@) {
                match_children(set, element, slots, text_slot, ev, i + 1, depth, nodes, acc, text)
            } else {
                match text_slot {
                    None => Err(
                        ErrorModel { position: pos, kind: ErrorKindModel::UnexpectedText { element } },
                    ),
                    Some(ts) => match text_values(ts, t) {
                        None => Err(
                            ErrorModel {
                                position: pos,
                                kind: ErrorKindModel::ValueDecode { text: t, kind: ts.kind },
                            },
                        ),
                        Some(vs) => match_children(
                            set,
                            element,
                            slots,
                            text_slot,
                            ev,
                            i + 1,
                            depth,
                            nodes,
                            acc,
                            vs,
                        ),
                    },
                }
            },
            Event::Start { name, attributes } => match select_from(set, slots, name@, 0) {
                None => Err(
                    ErrorModel {
                        position: pos,
                        kind: ErrorKindModel::UnexpectedElement {
                            element,
                            found: name,
                            expected: expected_from(set, slots, 0),
                        },
                    },
                ),
                Some(k) => if depth == 0 {
                    Err(ErrorModel { position: pos, kind: ErrorKindModel::DepthExceeded })
                } else {
                    let slot = slots[k as int];
                    let child = match slot.target {
                        Target::Leaf(_) => None,
                        Target::Element(c) => Some(c),
                        Target::Group(g) => dispatch_from(set, set.groups@[g as int]@, name@, 0),
                    };
                    match slot.target {
                        Target::Leaf(kind) => match parse_leaf(
                            set,
                            slot.name,
                            kind,
                            attributes@,
                            ev,
                            i,
                            (depth - 1) as nat,
                            nodes,
                        ) {
                            Err(e) => Err(e),
                            Ok(leaf) => if leaf.next <= i || leaf.next > ev.len() {
                                Err(end_error(ev))
                            } else {
                                let acc2 = if leaf.text.len() > 0 {
                                    acc.push((k, Item::Leaf(leaf.text[0])))
                                } else {
                                    acc
                                };
                                match_children(
                                    set,
                                    element,
                                    slots,
                                    text_slot,
                                    ev,
                                    leaf.next,
                                    depth,
                                    leaf.nodes,
                                    acc2,
                                    text,
                                )
                            },
                        },
                        _ => match child {
                            None => Err(
                                ErrorModel {
                                    position: pos,
                                    kind: ErrorKindModel::UnexpectedElement {
                                        element,
                                        found: name,
                                        expected: alternative_names(
                                            set,
                                            set.groups@[slot.target->Group_0 as int]@,
                                        ),
                                    },
                                },
                            ),
                            Some(c) => match parse_node(
                                set,
                                c,
                                ev,
                                i,
                                (depth - 1) as nat,
                                nodes,
                            ) {
                                Err(e) => Err(e),
                                Ok((ns, j)) => if j <= i || j > ev.len() {
                                    Err(end_error(ev))
                                } else {
                                    match_children(
                                        set,
                                        element,
                                        slots,
                                        text_slot,
                                        ev,
                                        j,
                                        depth,
                                        ns,
                                        acc.push((k, Item::Node((ns.len() - 1) as usize))),
                                        text,
                                    )
                                },
                            },
                        },
                    }
                },
            },
        }
    }
}

fn end_err(events: &Vec<Located>) -> (e: Error)
    ensures
        e@ == end_error(events@),
{
    let n = events.len();
    let position = if n > 0 {
        events[n - 1].position
    } else {
        Position { line: 0, column: 0 }
    };
    Error { position, kind: ErrorKind::UnexpectedEnd }
}

/// The index just after the end tag that closes the element whose content
/// starts at `i`, skipping everything nested inside it.
fn skip(events: &Vec<Located>, i: usize) -> (r: Option<usize>)
    ensures
        match skip_subtree(events@, i as int, 0) {
            Some(j) => r == Some(j as usize) && i < j <= events@.len(),
            None => r is None,
        },
{
    let mut cur: usize = i;
    let mut open: usize = 0;
    while cur < events.len()
        invariant
            i <= cur,
            open <= cur,
            skip_subtree(events@, i as int, 0) == skip_subtree(events@, cur as int, open as nat),
        decreases events@.len() - cur,
    {
        match &events[cur].event {
            Event::Start { .. } => {
                open = open + 1;
            },
            Event::End => {
                if open == 0 {
                    return Some(cur + 1);
                }
                open = open - 1;
            },
            Event::Text { .. } => {},
        }
        cur = cur + 1;
    }
    None
}

/// Parses the element whose start tag is `events[i]` against schema `id`,
/// consuming its events up to and including its own end tag, with `depth`
/// more levels of nesting allowed below it. Its node, after those of its
/// descendants, is appended to `nodes`; the result is the index after its
/// end tag.
pub fn parse_element(
    set: &SchemaSet,
    id: usize,
    events: &Vec<Located>,
    i: usize,
    depth: usize,
    nodes: &mut Vec<Node>,
) -> (r: Result<usize, Error>)
    requires
        set.valid(),
        id < set.elements@.len(),
    ensures
        match parse_node(*set, id, events@, i as int, depth as nat, nodes_view(old(nodes)@)) {
            Ok((ns, j)) => r == Ok::<usize, Error>(j as usize) && nodes_view(final(nodes)@) == ns
                && i < j <= events@.len() && final(nodes)@.len() > 0,
            Err(e) => r is Err && r->Err_0@ == e,
        },
    decreases depth, events@.len() - i, 1nat,
{
    if i >= events.len() {
        return Err(end_err(events));
    }
    let ev = &events[i];
    let schema = &set.elements[id];
    match &ev.event {
        Event::Start { name, attributes } => {
            if schema.stub {
                match skip(events, i + 1) {
                    None => Err(end_err(events)),
                    Some(j) => {
                        let ghost before = nodes_view(nodes@);
                        let n = Node {
                            schema: id,
                            attributes: Vec::new(),
                            children: Vec::new(),
                            text: Vec::new(),
                        };
                        assert(n@.children =~= seq![]);
                        assert(n@ =~= stub_node(id));
                        nodes.push(n);
                        assert(nodes_view(nodes@) =~= before.push(stub_node(id)));
                        Ok(j)
                    },
                }
            } else {
                assert(set.element_valid(set.elements@[id as int]));
                let attrs = match validate_attributes(
                    &schema.name,
                    &schema.attributes,
                    attributes,
                    ev.position,
                ) {
                    Err(e) => {
                        return Err(e);
                    },
                    Ok(a) => a,
                };
                let (acc, text, j) = match route_children(
                    set,
                    &schema.name,
                    &schema.children,
                    &schema.text,
                    events,
                    i + 1,
                    depth,
                    nodes,
                ) {
                    Err(e) => {
                        return Err(e);
                    },
                    Ok(p) => p,
                };
                match assemble(id, schema, attrs, &acc, text, events[j - 1].position) {
                    Err(e) => Err(e),
                    Ok(n) => {
                        let ghost before = nodes_view(nodes@);
                        let ghost nv = n@;
                        nodes.push(n);
                        assert(nodes_view(nodes@) =~= before.push(nv));
                        Ok(j)
                    },
                }
            }
        },
        _ => Err(Error { position: ev.position, kind: ErrorKind::NotAStartTag }),
    }
}

fn read_leaf(
    set: &SchemaSet,
    name: &String,
    kind: crate::decode::LeafKind,
    attributes: &Vec<crate::event::Attribute>,
    events: &Vec<Located>,
    i: usize,
    depth: usize,
    nodes: &mut Vec<Node>,
) -> (r: Result<(Vec<Scalar>, usize), Error>)
    requires
        set.valid(),
    ensures
        match parse_leaf(
            *set,
            *name,
            kind,
            attributes@,
            events@,
            i as int,
            depth as nat,
            nodes_view(old(nodes)@),
        ) {
            Ok(p) => r is Ok && nodes_view(final(nodes)@) == p.nodes && r->Ok_0.0@ == p.text
                && r->Ok_0.1 as int == p.next && i < p.next <= events@.len(),
            Err(e) => r is Err && r->Err_0@ == e,
        },
    decreases depth, events@.len() - i, 1nat,
{
    if i >= events.len() {
        return Err(end_err(events));
    }
    let no_attributes: Vec<AttributeSlot> = Vec::new();
    assert(no_attributes@ =~= seq![]);
    match validate_attributes(name, &no_attributes, attributes, events[i].position) {
        Err(e) => {
            return Err(e);
        },
        Ok(_) => {},
    }
    let no_children: Vec<ChildSlot> = Vec::new();
    assert(no_children@ =~= seq![]);
    let slot = Some(TextSlot { occurrence: Occurrence::Optional, kind });
    match route_children(set, name, &no_children, &slot, events, i + 1, depth, nodes) {
        Err(e) => Err(e),
        Ok((_, text, next)) => Ok((text, next)),
    }
}

/// Routes the events from `events[i]` up to the current element's end tag to
/// the slots that take them; returns the matched children as (slot, item) in
/// document order, the values of the last non-blank text, and the index
/// after the end tag.
fn route_children(
    set: &SchemaSet,
    element: &String,
    slots: &Vec<ChildSlot>,
    text_slot: &Option<TextSlot>,
    events: &Vec<Located>,
    i: usize,
    depth: usize,
    nodes: &mut Vec<Node>,
) -> (r: Result<(Vec<(usize, Item)>, Vec<Scalar>, usize), Error>)
    requires
        set.valid(),
        slots_in_set(*set, slots@),
    ensures
        match match_children(
            *set,
            *element,
            slots@,
            *text_slot,
            events@,
            i as int,
            depth as nat,
            nodes_view(old(nodes)@),
            seq![],
            seq![],
        ) {
            Ok(p) => r is Ok && nodes_view(final(nodes)@) == p.nodes && r->Ok_0.0@ == p.acc
                && r->Ok_0.1@ == p.text && r->Ok_0.2 as int == p.next && i < p.next
                <= events@.len(),
            Err(e) => r is Err && r->Err_0@ == e,
        },
    decreases depth, events@.len() - i, 0nat,
{
    let mut acc: Vec<(usize, Item)> = Vec::new();
    let mut text: Vec<Scalar> = Vec::new();
    let mut cur: usize = i;
    let ghost start = nodes_view(nodes@);
    assert(acc@ =~= seq![]);
    assert(text@ =~= seq![]);
    loop
        invariant
            i <= cur,
            set.valid(),
            slots_in_set(*set, slots@),
            start == nodes_view(old(nodes)@),
            match_children(
                *set,
                *element,
                slots@,
                *text_slot,
                events@,
                i as int,
                depth as nat,
                start,
                seq![],
                seq![],
            ) == match_children(
                *set,
                *element,
                slots@,
                *text_slot,
                events@,
                cur as int,
                depth as nat,
                nodes_view(nodes@),
                acc@,
                text@,
            ),
        decreases events@.len() - cur,
    {
        if cur >= events.len() {
            return Err(end_err(events));
        }
        let ev = &events[cur];
        match &ev.event {
            Event::End => {
                return Ok((acc, text, cur + 1));
            },
            Event::Text { text: t } => {
                let cs = chars_of(t);
                if !blank(&cs) {
                    match text_slot {
                        None => {
                            return Err(
                                Error {
                                    position: ev.position,
                                    kind: ErrorKind::UnexpectedText { element: element.clone() },
                                },
                            );
                        },
                        Some(ts) => match read_text(ts, t, &cs) {
                            None => {
                                return Err(
                                    Error {
                                        position: ev.position,
                                        kind: ErrorKind::ValueDecode { text: t.clone(), kind: ts.kind },
                                    },
                                );
                            },
                            Some(vs) => {
                                text = vs;
                            },
                        },
                    }
                }
                cur = cur + 1;
            },
            Event::Start { name, attributes } => {
                let k = match select_slot(set, slots, name) {
                    None => {
                        return Err(
                            Error {
                                position: ev.position,
                                kind: ErrorKind::UnexpectedElement {
                                    element: element.clone(),
                                    found: name.clone(),
                                    expected: expected_names(set, slots),
                                },
                            },
                        );
                    },
                    Some(k) => k,
                };
                if depth == 0 {
                    return Err(Error { position: ev.position, kind: ErrorKind::DepthExceeded });
                }
                let slot = &slots[k];
                assert(set.child_slot_valid(slots@[k as int]));
                match slot.target {
                    Target::Leaf(kind) => {
                        let (leaf_text, next) = match read_leaf(
                            set,
                            &slot.name,
                            kind,
                            attributes,
                            events,
                            cur,
                            depth - 1,
                            nodes,
                        ) {
                            Err(e) => {
                                return Err(e);
                            },
                            Ok(p) => p,
                        };
                        if leaf_text.len() > 0 {
                            acc.push((k, Item::Leaf(leaf_text[0].copied())));
                        }
                        cur = next;
                    },
                    Target::Element(c) => {
                        let j = match parse_element(set, c, events, cur, depth - 1, nodes) {
                            Err(e) => {
                                return Err(e);
                            },
                            Ok(j) => j,
                        };
                        acc.push((k, Item::Node(nodes.len() - 1)));
                        cur = j;
                    },
                    Target::Group(g) => {
                        let c = match dispatch(set, g, name) {
                            None => {
                                return Err(
                                    Error {
                                        position: ev.position,
                                        kind: ErrorKind::UnexpectedElement {
                                            element: element.clone(),
                                            found: name.clone(),
                                            expected: alternative_name_list(set, g),
                                        },
                                    },
                                );
                            },
                            Some(c) => c,
                        };
                        assert(set.group_valid(set.groups@[g as int]));
                        let j = match parse_element(set, c, events, cur, depth - 1, nodes) {
                            Err(e) => {
                                return Err(e);
                            },
                            Ok(j) => j,
                        };
                        acc.push((k, Item::Node(nodes.len() - 1)));
                        cur = j;
                    },
                }
            },
        }
    }
}

/// Whether a parse outcome is the one that `s` describes.
pub open spec fn document_agrees(
    r: Result<Document, Error>,
    s: Result<(Seq<NodeModel>, int), ErrorModel>,
) -> bool {
    match s {
        Ok((ns, _)) => r is Ok && nodes_view(r->Ok_0.nodes@) == ns,
        Err(e) => r is Err && r->Err_0@ == e,
    }
}

/// Parses the element whose start tag is the first event against schema
/// `root`, allowing `max_depth` levels of nesting below it.
pub fn parse_document(set: &SchemaSet, root: usize, events: &Vec<Located>, max_depth: usize) -> (r:
    Result<Document, Error>)
    requires
        set.valid(),
        root < set.elements@.len(),
    ensures
        document_agrees(r, parse_node(*set, root, events@, 0, max_depth as nat, seq![])),
{
    let mut nodes: Vec<Node> = Vec::new();
    assert(nodes_view(nodes@) =~= seq![]);
    match parse_element(set, root, events, 0, max_depth, &mut nodes) {
        Err(e) => Err(e),
        Ok(_) => Ok(Document { nodes }),
    }
}

/// Parses the element whose start tag is `ev[i]` against the alternative of
/// group `g` that its tag selects; `context` names where the element stands,
/// for the error when no alternative takes the tag.
pub open spec fn parse_choice(
    set: SchemaSet,
    g: usize,
    context: String,
    ev: Seq<Located>,
    i: int,
    depth: nat,
    nodes: Seq<NodeModel>,
) -> Result<(Seq<NodeModel>, int), ErrorModel> {
    if i < 0 || i >= ev.len() {
        Err(end_error(ev))
    } else {
        match ev[i].event {
            Event::Start { name, .. } => match dispatch_from(set, set.groups@[g as int]@, name@, 0) {
                None => Err(
                    ErrorModel {
                        position: ev[i].position,
                        kind: ErrorKindModel::UnexpectedElement {
                            element: context,
                            found: name,
                            expected: alternative_names(set, set.groups@[g as int]@),
                        },
                    },
                ),
                Some(c) => parse_node(set, c, ev, i, depth, nodes),
            },
            _ => Err(ErrorModel { position: ev[i].position, kind: ErrorKindModel::NotAStartTag }),
        }
    }
}

/// Parses the element whose start tag is `events[i]` against the first
/// alternative of group `g`, in declared order, whose element name is its
/// tag. Where none is, fails with `UnexpectedElement` naming `context`, the
/// tag, and every alternative's name.
pub fn parse_alternative(
    set: &SchemaSet,
    g: usize,
    context: &String,
    events: &Vec<Located>,
    i: usize,
    depth: usize,
    nodes: &mut Vec<Node>,
) -> (r: Result<usize, Error>)
    requires
        set.valid(),
        g < set.groups@.len(),
    ensures
        match parse_choice(*set, g, *context, events@, i as int, depth as nat, nodes_view(old(nodes)@)) {
            Ok((ns, j)) => r == Ok::<usize, Error>(j as usize) && nodes_view(final(nodes)@) == ns,
            Err(e) => r is Err && r->Err_0@ == e,
        },
{
    if i >= events.len() {
        return Err(end_err(events));
    }
    let ev = &events[i];
    match &ev.event {
        Event::Start { name, .. } => match dispatch(set, g, name) {
            None => Err(
                Error {
                    position: ev.position,
                    kind: ErrorKind::UnexpectedElement {
                        element: context.clone(),
                        found: name.clone(),
                        expected: alternative_name_list(set, g),
                    },
                },
            ),
            Some(c) => parse_element(set, c, events, i, depth, nodes),
        },
        _ => Err(Error { position: ev.position, kind: ErrorKind::NotAStartTag }),
    }
}

} // verus!
