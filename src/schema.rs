//! Element schemas: what an element accepts, as plain data.
use vstd::prelude::*;
use crate::decode::{LeafKind, Scalar, Decimal};

verus! {

/// How many times a slot may be filled, and what stands in for an absent one.
#[derive(Clone, Debug, PartialEq, Eq)]
pub enum Occurrence {
    /// Exactly one; absence is an error.
    Required,
    /// Zero or one.
    Optional,
    /// Zero or one; the given value stands in for an absent one.
    OptionalWithDefault(Scalar),
    /// Zero or more, in document order.
    OptionalMany,
    /// One or more, in document order.
    RequiredMany,
}

impl Occurrence {
    pub open spec fn is_many(self) -> bool {
        self is OptionalMany || self is RequiredMany
    }

    /// Whether the slot takes any number of values: `OptionalMany` or `RequiredMany`.
    pub fn is_repeated(&self) -> (r: bool)
        ensures
            r == self.is_many(),
    {
        match self {
            Occurrence::OptionalMany => true,
            Occurrence::RequiredMany => true,
            _ => false,
        }
    }

    /// Whether absence is an error: `Required` or `RequiredMany`.
    pub fn is_required(&self) -> (r: bool)
        ensures
            r == (*self is Required || *self is RequiredMany),
    {
        match self {
            Occurrence::Required => true,
            Occurrence::RequiredMany => true,
            _ => false,
        }
    }

    /// An `OptionalWithDefault` whose default is the intrinsic default of `kind`:
    /// empty text, or zero.
    pub fn with_type_default(kind: LeafKind) -> (r: Occurrence)
        ensures
            r is OptionalWithDefault,
            scalar_kind(r->OptionalWithDefault_0) == kind,
            kind is Text ==> (r->OptionalWithDefault_0 matches Scalar::Text(t) && t@.len() == 0),
            kind is Unsigned ==> r->OptionalWithDefault_0 == Scalar::Unsigned(0),
            kind is Decimal ==> r->OptionalWithDefault_0 == Scalar::Decimal(
                Decimal { negative: false, mantissa: 0, scale: 0 },
            ),
    {
        match kind {
            LeafKind::Text => Occurrence::OptionalWithDefault(Scalar::Text(String::new())),
            LeafKind::Unsigned => Occurrence::OptionalWithDefault(Scalar::Unsigned(0)),
            LeafKind::Decimal => Occurrence::OptionalWithDefault(
                Scalar::Decimal(Decimal { negative: false, mantissa: 0, scale: 0 }),
            ),
        }
    }
}

/// The kind of a decoded value.
pub open spec fn scalar_kind(s: Scalar) -> LeafKind {
    match s {
        Scalar::Text(_) => LeafKind::Text,
        Scalar::Unsigned(_) => LeafKind::Unsigned,
        Scalar::Decimal(_) => LeafKind::Decimal,
    }
}

/// An attribute that an element accepts.
#[derive(Clone, Debug, PartialEq, Eq)]
pub struct AttributeSlot {
    pub name: String,
    pub occurrence: Occurrence,
    pub kind: LeafKind,
}

/// What a child slot holds.
#[derive(Clone, Copy, Debug, PartialEq, Eq, Structural)]
pub enum Target {
    /// A child element with no attributes and no children, whose last
    /// non-blank text is decoded as a leaf value; an empty one adds no value.
    Leaf(LeafKind),
    /// A child element of the schema with this index.
    Element(usize),
    /// A child element of any schema of the group with this index.
    Group(usize),
}

/// A child element position of a schema.
#[derive(Clone, Debug, PartialEq, Eq)]
pub struct ChildSlot {
    /// The slot's name; for a leaf child, the tag that it matches.
    pub name: String,
    pub occurrence: Occurrence,
    pub target: Target,
}

/// The text content of an element. A repeated text slot holds the
/// white-space separated words of the text, each decoded as a number.
#[derive(Clone, Debug, PartialEq, Eq)]
pub struct TextSlot {
    pub occurrence: Occurrence,
    pub kind: LeafKind,
}

/// The shape of one element type.
#[derive(Clone, Debug, PartialEq, Eq)]
pub struct ElementSchema {
    pub name: String,
    pub attributes: Vec<AttributeSlot>,
    pub children: Vec<ChildSlot>,
    pub text: Option<TextSlot>,
    /// A stub skips its whole subtree uninterpreted and yields an empty value.
    pub stub: bool,
}

/// A catalog of element schemas and of groups of alternatives among them.
#[derive(Clone, Debug, PartialEq, Eq)]
pub struct SchemaSet {
    pub elements: Vec<ElementSchema>,
    /// Each group lists, in order of preference, the schemas it accepts.
    pub groups: Vec<Vec<usize>>,
}

/// Whether a default, where the occurrence has one, is of the slot's kind.
pub open spec fn default_fits(o: Occurrence, kind: LeafKind) -> bool {
    o matches Occurrence::OptionalWithDefault(d) ==> scalar_kind(d) == kind
}

pub open spec fn attribute_slot_valid(a: AttributeSlot) -> bool {
    !a.occurrence.is_many() && default_fits(a.occurrence, a.kind)
}

impl SchemaSet {
    pub open spec fn child_slot_valid(self, c: ChildSlot) -> bool {
        match c.target {
            Target::Leaf(kind) => default_fits(c.occurrence, kind),
            Target::Element(k) => k < self.elements@.len() && !(c.occurrence is OptionalWithDefault),
            Target::Group(g) => g < self.groups@.len() && !(c.occurrence is OptionalWithDefault),
        }
    }

    /// A schema's slots are well formed and their names are unique.
    pub open spec fn element_valid(self, e: ElementSchema) -> bool {
        &&& forall|i: int| 0 <= i < e.attributes@.len() ==> attribute_slot_valid(
            #[trigger] e.attributes@[i],
        )
        &&& forall|i: int| 0 <= i < e.children@.len() ==> self.child_slot_valid(
            #[trigger] e.children@[i],
        )
        &&& forall|i: int, j: int|
            0 <= i < j < e.attributes@.len() ==> #[trigger] e.attributes@[i].name@
                != #[trigger] e.attributes@[j].name@
        &&& forall|i: int, j: int|
            0 <= i < j < e.children@.len() ==> #[trigger] e.children@[i].name@
                != #[trigger] e.children@[j].name@
        &&& e.text matches Some(t) ==> default_fits(t.occurrence, t.kind) && (t.occurrence.is_many()
            ==> !(t.kind is Text))
    }

    /// A group is non-empty and names schemas of the set.
    pub open spec fn group_valid(self, g: Vec<usize>) -> bool {
        &&& g@.len() > 0
        &&& forall|i: int| 0 <= i < g@.len() ==> #[trigger] g@[i] < self.elements@.len()
    }

    /// Every schema and every group of the set is well formed.
    pub open spec fn valid(self) -> bool {
        &&& forall|k: int| 0 <= k < self.elements@.len() ==> self.element_valid(
            #[trigger] self.elements@[k],
        )
        &&& forall|g: int| 0 <= g < self.groups@.len() ==> self.group_valid(
            #[trigger] self.groups@[g],
        )
    }
}

/// A defect in a schema set, found before any document is parsed.
#[derive(Clone, Copy, Debug, PartialEq, Eq, Structural)]
pub enum ConfigurationError {
    /// The schema with this index has a malformed slot (a repeated
    /// attribute, a default of the wrong kind or on an element child, a
    /// target outside the set, a repeated text slot of kind `Text`) or two
    /// slots of one kind with one name.
    Element { element: usize },
    /// The group with this index is empty or names a schema outside the set.
    Group { group: usize },
}

fn default_fits_kind(o: &Occurrence, kind: LeafKind) -> (r: bool)
    ensures
        r == default_fits(*o, kind),
{
    match o {
        Occurrence::OptionalWithDefault(d) => match (d, kind) {
            (Scalar::Text(_), LeafKind::Text) => true,
            (Scalar::Unsigned(_), LeafKind::Unsigned) => true,
            (Scalar::Decimal(_), LeafKind::Decimal) => true,
            _ => false,
        },
        _ => true,
    }
}

impl SchemaSet {
    fn child_slot_ok(&self, c: &ChildSlot) -> (r: bool)
        ensures
            r == self.child_slot_valid(*c),
    {
        match c.target {
            Target::Leaf(kind) => default_fits_kind(&c.occurrence, kind),
            Target::Element(k) => k < self.elements.len() && !matches!(
                c.occurrence,
                Occurrence::OptionalWithDefault(_)
            ),
            Target::Group(g) => g < self.groups.len() && !matches!(
                c.occurrence,
                Occurrence::OptionalWithDefault(_)
            ),
        }
    }

    fn element_ok(&self, e: &ElementSchema) -> (r: bool)
        ensures
            r == self.element_valid(*e),
    {
        let attrs = &e.attributes;
        let children = &e.children;
        let mut i: usize = 0;
        while i < attrs.len()
            invariant
                i <= attrs@.len(),
                attrs == &e.attributes,
                forall|k: int| 0 <= k < i ==> attribute_slot_valid(#[trigger] attrs@[k]),
                forall|a: int, b: int|
                    0 <= a < i && a < b < attrs@.len() ==> #[trigger] attrs@[a].name@
                        != #[trigger] attrs@[b].name@,
            decreases attrs@.len() - i,
        {
            let a = &attrs[i];
            if a.occurrence.is_repeated() || !default_fits_kind(&a.occurrence, a.kind) {
                return false;
            }
            let mut j: usize = i + 1;
            while j < attrs.len()
                invariant
                    i < j <= attrs@.len(),
                    attrs == &e.attributes,
                    forall|k: int| 0 <= k <= i ==> attribute_slot_valid(#[trigger] attrs@[k]),
                    forall|a: int, b: int|
                        0 <= a < i && a < b < attrs@.len() ==> #[trigger] attrs@[a].name@
                            != #[trigger] attrs@[b].name@,
                    forall|k: int| i < k < j ==> attrs@[i as int].name@ != #[trigger] attrs@[k].name@,
                decreases attrs@.len() - j,
            {
                if attrs[i].name == attrs[j].name {
                    return false;
                }
                j = j + 1;
            }
            i = i + 1;
        }
        let mut i: usize = 0;
        while i < children.len()
            invariant
                i <= children@.len(),
                attrs == &e.attributes,
                children == &e.children,
                forall|k: int| 0 <= k < attrs@.len() ==> attribute_slot_valid(#[trigger] attrs@[k]),
                forall|a: int, b: int|
                    0 <= a < b < attrs@.len() ==> #[trigger] attrs@[a].name@
                        != #[trigger] attrs@[b].name@,
                forall|k: int| 0 <= k < i ==> self.child_slot_valid(#[trigger] children@[k]),
                forall|a: int, b: int|
                    0 <= a < i && a < b < children@.len() ==> #[trigger] children@[a].name@
                        != #[trigger] children@[b].name@,
            decreases children@.len() - i,
        {
            if !self.child_slot_ok(&children[i]) {
                return false;
            }
            let mut j: usize = i + 1;
            while j < children.len()
                invariant
                    i < j <= children@.len(),
                    attrs == &e.attributes,
                    children == &e.children,
                    forall|k: int| 0 <= k < attrs@.len() ==> attribute_slot_valid(#[trigger] attrs@[k]),
                    forall|a: int, b: int|
                        0 <= a < b < attrs@.len() ==> #[trigger] attrs@[a].name@
                            != #[trigger] attrs@[b].name@,
                    forall|k: int| 0 <= k <= i ==> self.child_slot_valid(#[trigger] children@[k]),
                    forall|a: int, b: int|
                        0 <= a < i && a < b < children@.len() ==> #[trigger] children@[a].name@
                            != #[trigger] children@[b].name@,
                    forall|k: int|
                        i < k < j ==> children@[i as int].name@ != #[trigger] children@[k].name@,
                decreases children@.len() - j,
            {
                if children[i].name == children[j].name {
                    return false;
                }
                j = j + 1;
            }
            i = i + 1;
        }
        match &e.text {
            Some(t) => default_fits_kind(&t.occurrence, t.kind) && !(t.occurrence.is_repeated()
                && matches!(t.kind, LeafKind::Text)),
            None => true,
        }
    }

    /// Checks that the set is well formed, before any document is parsed;
    /// on a defect, names the first schema, or else the first group, that has one.
    pub fn check(&self) -> (r: Result<(), ConfigurationError>)
        ensures
            r is Ok <==> self.valid(),
            r matches Err(ConfigurationError::Element { element }) ==> element
                < self.elements@.len() && !self.element_valid(self.elements@[element as int]),
            r matches Err(ConfigurationError::Group { group }) ==> group < self.groups@.len()
                && !self.group_valid(self.groups@[group as int]),
    {
        let mut k: usize = 0;
        while k < self.elements.len()
            invariant
                k <= self.elements@.len(),
                forall|m: int| 0 <= m < k ==> self.element_valid(#[trigger] self.elements@[m]),
            decreases self.elements@.len() - k,
        {
            if !self.element_ok(&self.elements[k]) {
                return Err(ConfigurationError::Element { element: k });
            }
            k = k + 1;
        }
        let mut g: usize = 0;
        while g < self.groups.len()
            invariant
                g <= self.groups@.len(),
                forall|m: int| 0 <= m < self.elements@.len() ==> self.element_valid(#[trigger] self.elements@[m]),
                forall|m: int| 0 <= m < g ==> self.group_valid(#[trigger] self.groups@[m]),
            decreases self.groups@.len() - g,
        {
            let alts = &self.groups[g];
            if alts.len() == 0 {
                return Err(ConfigurationError::Group { group: g });
            }
            let mut i: usize = 0;
            while i < alts.len()
                invariant
                    i <= alts@.len(),
                    g < self.groups@.len(),
                    alts == &self.groups@[g as int],
                    forall|m: int| 0 <= m < i ==> #[trigger] alts@[m] < self.elements@.len(),
                decreases alts@.len() - i,
            {
                if alts[i] >= self.elements.len() {
                    return Err(ConfigurationError::Group { group: g });
                }
                i = i + 1;
            }
            g = g + 1;
        }
        Ok(())
    }
}

} // verus!
