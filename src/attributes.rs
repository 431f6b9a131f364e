//! Matching an element's attributes against its attribute slots.
use vstd::prelude::*;
use crate::decode::{Scalar, decoded, decode_leaf};
use crate::error::{Error, ErrorKind, ErrorKindModel, ErrorModel};
use crate::event::{Attribute, Position};
use crate::schema::{AttributeSlot, Occurrence};

verus! {

/// The names of the attribute slots, in order.
pub open spec fn attribute_names(slots: Seq<AttributeSlot>) -> Seq<String> {
    slots.map_values(|a: AttributeSlot| a.name)
}

/// The first slot at or after `k` named `name`.
pub open spec fn find_attribute_from(slots: Seq<AttributeSlot>, name: Seq<char>, k: int) -> Option<
    int,
>
    decreases slots.len() - k,
{
    if k < 0 || k >= slots.len() {
        None
    } else if slots[k].name@ == name {
        Some(k)
    } else {
        find_attribute_from(slots, name, k + 1)
    }
}

/// Decodes the attributes `attrs[j..]` in document order into `vals`, one
/// entry per slot; fails at the first attribute that no slot names or that
/// does not decode.
pub open spec fn collect_attributes(
    element: String,
    slots: Seq<AttributeSlot>,
    attrs: Seq<Attribute>,
    j: int,
    vals: Seq<Option<Scalar>>,
    position: Position,
) -> Result<Seq<Option<Scalar>>, ErrorModel>
    decreases attrs.len() - j,
{
    if j < 0 || j >= attrs.len() {
        Ok(vals)
    } else {
        match find_attribute_from(slots, attrs[j].name@, 0) {
            None => Err(
                ErrorModel {
                    position,
                    kind: ErrorKindModel::UnexpectedAttribute {
                        element,
                        attribute: attrs[j].name,
                        expected: attribute_names(slots),
                    },
                },
            ),
            Some(k) => match decoded(slots[k].kind, attrs[j].value) {
                None => Err(
                    ErrorModel {
                        position,
                        kind: ErrorKindModel::ValueDecode {
                            text: attrs[j].value,
                            kind: slots[k].kind,
                        },
                    },
                ),
                Some(v) => collect_attributes(
                    element,
                    slots,
                    attrs,
                    j + 1,
                    vals.update(k, Some(v)),
                    position,
                ),
            },
        }
    }
}

/// The final value of one attribute slot, given what the document gave it.
pub open spec fn settle_attribute(element: String, slot: AttributeSlot, val: Option<Scalar>) -> Result<
    Option<Scalar>,
    ErrorKindModel,
> {
    match val {
        Some(v) => Ok(Some(v)),
        None => match slot.occurrence {
            Occurrence::Required => Err(
                ErrorKindModel::MissingAttribute { element, attribute: slot.name },
            ),
            Occurrence::OptionalWithDefault(d) => Ok(Some(d)),
            _ => Ok(None),
        },
    }
}

/// Settles the slots `k..` in order; fails at the first required one that is absent.
pub open spec fn settle_attributes(
    element: String,
    slots: Seq<AttributeSlot>,
    vals: Seq<Option<Scalar>>,
    k: int,
    position: Position,
) -> Result<Seq<Option<Scalar>>, ErrorModel>
    decreases slots.len() - k,
{
    if k < 0 || k >= slots.len() {
        Ok(vals)
    } else {
        match settle_attribute(element, slots[k], vals[k]) {
            Err(kind) => Err(ErrorModel { position, kind }),
            Ok(v) => settle_attributes(element, slots, vals.update(k, v), k + 1, position),
        }
    }
}

/// One absent value per slot.
pub open spec fn no_values(n: nat) -> Seq<Option<Scalar>> {
    Seq::new(n, |i: int| None)
}

/// The attribute values of an element: one entry per slot, in slot order, or
/// the first error.
pub open spec fn attribute_values(
    element: String,
    slots: Seq<AttributeSlot>,
    attrs: Seq<Attribute>,
    position: Position,
) -> Result<Seq<Option<Scalar>>, ErrorModel> {
    match collect_attributes(element, slots, attrs, 0, no_values(slots.len()), position) {
        Err(e) => Err(e),
        Ok(vals) => settle_attributes(element, slots, vals, 0, position),
    }
}

/// Whether an executable result is the one that `s` describes.
pub open spec fn values_agree(
    r: Result<Vec<Option<Scalar>>, Error>,
    s: Result<Seq<Option<Scalar>>, ErrorModel>,
) -> bool {
    match s {
        Ok(v) => r is Ok && r->Ok_0@ == v,
        Err(e) => r is Err && r->Err_0@ == e,
    }
}

fn find_attribute(slots: &Vec<AttributeSlot>, name: &String) -> (r: Option<usize>)
    ensures
        match find_attribute_from(slots@, name@, 0) {
            Some(k) => r is Some && r->0 as int == k && k < slots@.len(),
            None => r is None,
        },
{
    let mut k: usize = 0;
    while k < slots.len()
        invariant
            k <= slots@.len(),
            find_attribute_from(slots@, name@, 0) == find_attribute_from(slots@, name@, k as int),
        decreases slots@.len() - k,
    {
        if slots[k].name == *name {
            proof {
                lemma_find_attribute_in_range(slots@, name@, k as int);
            }
            return Some(k);
        }
        k = k + 1;
    }
    None
}

/// The names of the attribute slots, copied.
pub fn attribute_name_list(slots: &Vec<AttributeSlot>) -> (r: Vec<String>)
    ensures
        r@ == attribute_names(slots@),
{
    let mut names: Vec<String> = Vec::new();
    let mut k: usize = 0;
    while k < slots.len()
        invariant
            k <= slots@.len(),
            names@ == attribute_names(slots@).subrange(0, k as int),
        decreases slots@.len() - k,
    {
        names.push(slots[k].name.clone());
        k = k + 1;
        assert(names@ =~= attribute_names(slots@).subrange(0, k as int));
    }
    assert(attribute_names(slots@).subrange(0, k as int) =~= attribute_names(slots@));
    names
}

/// Matches the attributes of a start tag of `element` against `slots`.
///
/// Each attribute is looked up by exact name, in document order: one that no
/// slot names fails with `UnexpectedAttribute`, listing every slot's name; one
/// whose text does not decode fails with `ValueDecode`. Then each slot, in
/// order, that no attribute filled is settled: a `Required` one fails with
/// `MissingAttribute`, an `OptionalWithDefault` one takes its default, and any
/// other stays empty. Errors carry `position`.
pub fn validate_attributes(
    element: &String,
    slots: &Vec<AttributeSlot>,
    attrs: &Vec<Attribute>,
    position: Position,
) -> (r: Result<Vec<Option<Scalar>>, Error>)
    ensures
        values_agree(r, attribute_values(*element, slots@, attrs@, position)),
{
    let mut vals: Vec<Option<Scalar>> = Vec::new();
    let mut k: usize = 0;
    while k < slots.len()
        invariant
            k <= slots@.len(),
            vals@ == no_values(k as nat),
        decreases slots@.len() - k,
    {
        vals.push(None);
        k = k + 1;
        assert(vals@ =~= no_values(k as nat));
    }
    let ghost start = vals@;
    let mut j: usize = 0;
    while j < attrs.len()
        invariant
            j <= attrs@.len(),
            vals@.len() == slots@.len(),
            start == no_values(slots@.len()),
            collect_attributes(*element, slots@, attrs@, 0, start, position)
                == collect_attributes(*element, slots@, attrs@, j as int, vals@, position),
        decreases attrs@.len() - j,
    {
        let attr = &attrs[j];
        match find_attribute(slots, &attr.name) {
            None => {
                return Err(
                    Error {
                        position,
                        kind: ErrorKind::UnexpectedAttribute {
                            element: element.clone(),
                            attribute: attr.name.clone(),
                            expected: attribute_name_list(slots),
                        },
                    },
                );
            },
            Some(k) => {
                match decode_leaf(slots[k].kind, &attr.value) {
                    None => {
                        return Err(
                            Error {
                                position,
                                kind: ErrorKind::ValueDecode {
                                    text: attr.value.clone(),
                                    kind: slots[k].kind,
                                },
                            },
                        );
                    },
                    Some(v) => {
                        vals[k] = Some(v);
                    },
                }
            },
        }
        j = j + 1;
    }
    let ghost collected = vals@;
    let mut k: usize = 0;
    while k < slots.len()
        invariant
            k <= slots@.len(),
            vals@.len() == slots@.len(),
            collect_attributes(*element, slots@, attrs@, 0, no_values(slots@.len()), position)
                == Ok::<Seq<Option<Scalar>>, ErrorModel>(collected),
            settle_attributes(*element, slots@, collected, 0, position) == settle_attributes(
                *element,
                slots@,
                vals@,
                k as int,
                position,
            ),
        decreases slots@.len() - k,
    {
        if vals[k].is_none() {
            let slot = &slots[k];
            match &slot.occurrence {
                Occurrence::Required => {
                    return Err(
                        Error {
                            position,
                            kind: ErrorKind::MissingAttribute {
                                element: element.clone(),
                                attribute: slot.name.clone(),
                            },
                        },
                    );
                },
                Occurrence::OptionalWithDefault(d) => {
                    vals[k] = Some(d.copied());
                },
                _ => {
                    proof {
                        assert(vals@.update(k as int, None) =~= vals@);
                    }
                },
            }
        } else {
            proof {
                assert(vals@.update(k as int, vals@[k as int]) =~= vals@);
            }
        }
        k = k + 1;
    }
    Ok(vals)
}

pub proof fn lemma_find_attribute_in_range(slots: Seq<AttributeSlot>, name: Seq<char>, k: int)
    ensures
        find_attribute_from(slots, name, k) matches Some(i) ==> (k <= i < slots.len()
            && slots[i].name@ == name),
    decreases slots.len() - k,
{
    if 0 <= k < slots.len() && slots[k].name@ != name {
        lemma_find_attribute_in_range(slots, name, k + 1);
    }
}

} // verus!
