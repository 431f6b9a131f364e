//! Parsed values, and their assembly from what the matcher collected.
use vstd::prelude::*;
use crate::decode::Scalar;
use crate::error::{Error, ErrorKind, ErrorKindModel, ErrorModel};
use crate::event::Position;
use crate::schema::{ChildSlot, ElementSchema, Occurrence, TextSlot};

verus! {

/// One value of a child slot: a decoded leaf, or a parsed element given by
/// its index among the document's nodes.
#[derive(Clone, Debug, PartialEq, Eq)]
pub enum Item {
    Leaf(Scalar),
    Node(usize),
}

impl Item {
    /// A copy of the item.
    pub fn copied(&self) -> (r: Item)
        ensures
            r == *self,
    {
        match self {
            Item::Leaf(s) => Item::Leaf(s.copied()),
            Item::Node(n) => Item::Node(*n),
        }
    }
}

/// A parsed element.
#[derive(Clone, Debug, PartialEq, Eq)]
pub struct Node {
    /// The index of its schema in the schema set.
    pub schema: usize,
    /// One entry per attribute slot, in slot order.
    pub attributes: Vec<Option<Scalar>>,
    /// One list per child slot, in slot order: at most one item for a
    /// singular slot, every match in document order for a repeated one.
    pub children: Vec<Vec<Item>>,
    /// The decoded text content: at most one value for a singular text slot.
    pub text: Vec<Scalar>,
}

pub struct NodeModel {
    pub schema: usize,
    pub attributes: Seq<Option<Scalar>>,
    pub children: Seq<Seq<Item>>,
    pub text: Seq<Scalar>,
}

impl View for Node {
    type V = NodeModel;

    open spec fn view(&self) -> NodeModel {
        NodeModel {
            schema: self.schema,
            attributes: self.attributes@,
            children: self.children@.map_values(|v: Vec<Item>| v@),
            text: self.text@,
        }
    }
}

/// The nodes of a parsed document; each node's children come before it, and
/// the last node is the root.
#[derive(Clone, Debug, PartialEq, Eq)]
pub struct Document {
    pub nodes: Vec<Node>,
}

/// The views of a sequence of nodes.
pub open spec fn nodes_view(nodes: Seq<Node>) -> Seq<NodeModel> {
    nodes.map_values(|n: Node| n@)
}

/// What the children matcher collected for one element: each matched child
/// as (slot index, item) in document order.
pub open spec fn items_of(acc: Seq<(usize, Item)>, k: usize) -> Seq<Item>
    decreases acc.len(),
{
    if acc.len() == 0 {
        seq![]
    } else if acc.last().0 == k {
        items_of(acc.drop_last(), k).push(acc.last().1)
    } else {
        items_of(acc.drop_last(), k)
    }
}

/// The final items of one child slot, given every item matched to it.
/// A singular slot keeps the last match.
pub open spec fn settle_child(element: String, slot: ChildSlot, items: Seq<Item>) -> Result<
    Seq<Item>,
    ErrorKindModel,
> {
    let missing = ErrorKindModel::MissingChild { element, child: slot.name };
    match slot.occurrence {
        Occurrence::Required => if items.len() == 0 {
            Err(missing)
        } else {
            Ok(seq![items.last()])
        },
        Occurrence::Optional => if items.len() == 0 {
            Ok(seq![])
        } else {
            Ok(seq![items.last()])
        },
        Occurrence::OptionalWithDefault(d) => if items.len() == 0 {
            Ok(seq![Item::Leaf(d)])
        } else {
            Ok(seq![items.last()])
        },
        Occurrence::OptionalMany => Ok(items),
        Occurrence::RequiredMany => if items.len() == 0 {
            Err(missing)
        } else {
            Ok(items)
        },
    }
}

/// Settles the child slots `k..` in order after `done`; fails at the first
/// required one that was never filled.
pub open spec fn settle_children(
    element: String,
    slots: Seq<ChildSlot>,
    acc: Seq<(usize, Item)>,
    k: int,
    done: Seq<Seq<Item>>,
) -> Result<Seq<Seq<Item>>, ErrorKindModel>
    decreases slots.len() - k,
{
    if k < 0 || k >= slots.len() {
        Ok(done)
    } else {
        match settle_child(element, slots[k], items_of(acc, k as usize)) {
            Err(e) => Err(e),
            Ok(items) => settle_children(element, slots, acc, k + 1, done.push(items)),
        }
    }
}

/// The final text values, given those of the last non-blank text.
pub open spec fn settle_text(element: String, slot: Option<TextSlot>, vals: Seq<Scalar>) -> Result<
    Seq<Scalar>,
    ErrorKindModel,
> {
    match slot {
        None => Ok(vals),
        Some(t) => match t.occurrence {
            Occurrence::Required => if vals.len() == 0 {
                Err(ErrorKindModel::MissingText { element })
            } else {
                Ok(vals)
            },
            Occurrence::RequiredMany => if vals.len() == 0 {
                Err(ErrorKindModel::MissingText { element })
            } else {
                Ok(vals)
            },
            Occurrence::OptionalWithDefault(d) => if vals.len() == 0 {
                Ok(seq![d])
            } else {
                Ok(vals)
            },
            _ => Ok(vals),
        },
    }
}

/// The node for schema `id` from its attribute values, its matched children
/// and its text, or the first slot that is missing (children before text).
pub open spec fn assembled(
    id: usize,
    schema: ElementSchema,
    attributes: Seq<Option<Scalar>>,
    acc: Seq<(usize, Item)>,
    text: Seq<Scalar>,
    position: Position,
) -> Result<NodeModel, ErrorModel> {
    match settle_children(schema.name, schema.children@, acc, 0, seq![]) {
        Err(kind) => Err(ErrorModel { position, kind }),
        Ok(children) => match settle_text(schema.name, schema.text, text) {
            Err(kind) => Err(ErrorModel { position, kind }),
            Ok(text) => Ok(NodeModel { schema: id, attributes, children, text }),
        },
    }
}

/// Every item matched to slot `k`, in document order.
fn collect_items(acc: &Vec<(usize, Item)>, k: usize) -> (r: Vec<Item>)
    ensures
        r@ == items_of(acc@, k),
{
    let mut out: Vec<Item> = Vec::new();
    let mut i: usize = 0;
    while i < acc.len()
        invariant
            i <= acc@.len(),
            out@ == items_of(acc@.subrange(0, i as int), k),
        decreases acc@.len() - i,
    {
        proof {
            assert(acc@.subrange(0, i + 1).drop_last() =~= acc@.subrange(0, i as int));
        }
        if acc[i].0 == k {
            out.push(acc[i].1.copied());
        }
        i = i + 1;
    }
    assert(acc@.subrange(0, i as int) =~= acc@);
    out
}

fn last_only(items: Vec<Item>) -> (r: Vec<Item>)
    requires
        items@.len() > 0,
    ensures
        r@ == seq![items@.last()],
{
    let n = items.len();
    let last = items[n - 1].copied();
    let r = vec![last];
    assert(r@ =~= seq![items@.last()]);
    r
}

/// Builds the node for schema `id`: checks that every required child and
/// text slot was filled, keeps the last match of each singular slot, and
/// puts in defaults where a slot that has one is empty. Errors carry `position`.
pub fn assemble(
    id: usize,
    schema: &ElementSchema,
    attributes: Vec<Option<Scalar>>,
    acc: &Vec<(usize, Item)>,
    text: Vec<Scalar>,
    position: Position,
) -> (r: Result<Node, Error>)
    ensures
        match assembled(id, *schema, attributes@, acc@, text@, position) {
            Ok(n) => r is Ok && r->Ok_0@ == n,
            Err(e) => r is Err && r->Err_0@ == e,
        },
{
    let slots = &schema.children;
    let mut children: Vec<Vec<Item>> = Vec::new();
    assert(children@.map_values(|v: Vec<Item>| v@) =~= seq![]);
    let mut k: usize = 0;
    while k < slots.len()
        invariant
            k <= slots@.len(),
            slots@ == schema.children@,
            children@.len() == k,
            settle_children(schema.name, slots@, acc@, 0, seq![]) == settle_children(
                schema.name,
                slots@,
                acc@,
                k as int,
                children@.map_values(|v: Vec<Item>| v@),
            ),
        decreases slots@.len() - k,
    {
        let slot = &slots[k];
        let items = collect_items(acc, k);
        let missing = items.len() == 0;
        if slot.occurrence.is_required() && missing {
            return Err(
                Error {
                    position,
                    kind: ErrorKind::MissingChild {
                        element: schema.name.clone(),
                        child: slot.name.clone(),
                    },
                },
            );
        }
        let ghost spec_items = items@;
        let settled: Vec<Item> = if slot.occurrence.is_repeated() {
            items
        } else if !missing {
            last_only(items)
        } else {
            match &slot.occurrence {
                Occurrence::OptionalWithDefault(d) => {
                    let v = vec![Item::Leaf(d.copied())];
                    assert(v@ =~= seq![Item::Leaf(*d)]);
                    v
                },
                _ => {
                    assert(items@ =~= seq![]);
                    items
                },
            }
        };
        assert(settle_child(schema.name, *slot, spec_items) == Ok::<
            Seq<Item>,
            ErrorKindModel,
        >(settled@));
        let ghost before = children@.map_values(|v: Vec<Item>| v@);
        children.push(settled);
        proof {
            assert(children@.map_values(|v: Vec<Item>| v@) =~= before.push(settled@));
        }
        k = k + 1;
    }
    let ghost raw = text@;
    let text = match &schema.text {
        None => text,
        Some(t) => {
            let missing = text.len() == 0;
            if t.occurrence.is_required() && missing {
                return Err(
                    Error {
                        position,
                        kind: ErrorKind::MissingText { element: schema.name.clone() },
                    },
                );
            }
            match &t.occurrence {
                Occurrence::OptionalWithDefault(d) if missing => {
                    let v = vec![d.copied()];
                    assert(v@ =~= seq![*d]);
                    v
                },
                _ => text,
            }
        },
    };
    assert(settle_text(schema.name, schema.text, raw) == Ok::<Seq<Scalar>, ErrorKindModel>(text@));
    Ok(Node { schema: id, attributes, children, text })
}

} // verus!
