//! Character data: blank text, and the words of a text list.
use vstd::prelude::*;
use crate::decode::{Scalar, decoded, decode_leaf, decode_number, number_of};
use crate::schema::TextSlot;

verus! {

/// XML white space.
pub open spec fn is_space(c: char) -> bool {
    c == ' ' || c == '\t' || c == '\n' || c == '\r'
}

/// Text made of white space only.
pub open spec fn is_blank(s: Seq<char>) -> bool {
    forall|i: int| 0 <= i < s.len() ==> is_space(#[trigger] s[i])
}

/// The words of `s`, after the unfinished word `cur`: the maximal runs of
/// characters that are not white space, in order.
pub open spec fn split_from(s: Seq<char>, cur: Seq<char>) -> Seq<Seq<char>>
    decreases s.len(),
{
    if s.len() == 0 {
        if cur.len() > 0 {
            seq![cur]
        } else {
            seq![]
        }
    } else if is_space(s[0]) {
        let rest = split_from(s.drop_first(), seq![]);
        if cur.len() > 0 {
            seq![cur] + rest
        } else {
            rest
        }
    } else {
        split_from(s.drop_first(), cur.push(s[0]))
    }
}

/// The white-space separated words of `s`.
pub open spec fn words(s: Seq<char>) -> Seq<Seq<char>> {
    split_from(s, seq![])
}

/// Each of `ws` decoded as a number of kind `kind`, or `None` where one does not decode.
pub open spec fn numbers_of(kind: crate::decode::LeafKind, ws: Seq<Seq<char>>) -> Option<Seq<Scalar>>
    decreases ws.len(),
{
    if ws.len() == 0 {
        Some(seq![])
    } else {
        match numbers_of(kind, ws.drop_last()) {
            None => None,
            Some(vs) => match number_of(kind, ws.last()) {
                None => None,
                Some(v) => Some(vs.push(v)),
            },
        }
    }
}

/// The values that a text slot takes from non-blank text: for a repeated
/// slot each word decoded, otherwise the whole text decoded.
pub open spec fn text_values(slot: TextSlot, text: String) -> Option<Seq<Scalar>> {
    if slot.occurrence.is_many() {
        numbers_of(slot.kind, words(text@))
    } else {
        match decoded(slot.kind, text) {
            Some(v) => Some(seq![v]),
            None => None,
        }
    }
}

/// Whether the characters are all white space.
pub fn blank(cs: &Vec<char>) -> (r: bool)
    ensures
        r == is_blank(cs@),
{
    let mut i: usize = 0;
    while i < cs.len()
        invariant
            i <= cs@.len(),
            forall|k: int| 0 <= k < i ==> is_space(#[trigger] cs@[k]),
        decreases cs@.len() - i,
    {
        let c = cs[i];
        if !(c == ' ' || c == '\t' || c == '\n' || c == '\r') {
            return false;
        }
        i = i + 1;
    }
    true
}

/// The white-space separated words of `cs`.
pub fn split_words(cs: &Vec<char>) -> (r: Vec<Vec<char>>)
    ensures
        r@.map_values(|w: Vec<char>| w@) == words(cs@),
{
    let mut out: Vec<Vec<char>> = Vec::new();
    let mut cur: Vec<char> = Vec::new();
    let mut i: usize = 0;
    assert(out@.map_values(|w: Vec<char>| w@) =~= seq![]);
    assert(cs@.subrange(0, cs@.len() as int) =~= cs@);
    assert(cur@ =~= seq![]);
    while i < cs.len()
        invariant
            i <= cs@.len(),
            words(cs@) == out@.map_values(|w: Vec<char>| w@) + split_from(
                cs@.subrange(i as int, cs@.len() as int),
                cur@,
            ),
        decreases cs@.len() - i,
    {
        let ghost rest = cs@.subrange(i as int, cs@.len() as int);
        let ghost before = out@.map_values(|w: Vec<char>| w@);
        assert(rest.drop_first() =~= cs@.subrange(i + 1, cs@.len() as int));
        assert(rest[0] == cs@[i as int]);
        let c = cs[i];
        if c == ' ' || c == '\t' || c == '\n' || c == '\r' {
            if cur.len() > 0 {
                let ghost w = cur@;
                let word = cur;
                cur = Vec::new();
                out.push(word);
                assert(out@.map_values(|w: Vec<char>| w@) =~= before.push(w));
                assert(before + (seq![w] + split_from(rest.drop_first(), seq![])) =~= before.push(w)
                    + split_from(rest.drop_first(), seq![]));
            } else {
                cur = Vec::new();
            }
            assert(cur@ =~= seq![]);
        } else {
            cur.push(c);
        }
        i = i + 1;
    }
    let ghost before = out@.map_values(|w: Vec<char>| w@);
    assert(cs@.subrange(i as int, cs@.len() as int) =~= seq![]);
    if cur.len() > 0 {
        let ghost w = cur@;
        out.push(cur);
        assert(out@.map_values(|w: Vec<char>| w@) =~= before.push(w));
        assert(before + seq![w] =~= before.push(w));
    } else {
        assert(before + seq![] =~= before);
    }
    out
}

/// Decodes the values that a text slot takes from the non-blank text `text`,
/// whose characters are `cs`.
pub fn read_text(slot: &TextSlot, text: &String, cs: &Vec<char>) -> (r: Option<Vec<Scalar>>)
    requires
        cs@ == text@,
    ensures
        match text_values(*slot, *text) {
            Some(v) => r is Some && r->0@ == v,
            None => r is None,
        },
{
    if slot.occurrence.is_repeated() {
        let ws = split_words(cs);
        let ghost wv = ws@.map_values(|w: Vec<char>| w@);
        let mut out: Vec<Scalar> = Vec::new();
        let mut i: usize = 0;
        assert(wv.subrange(0, 0) =~= seq![]);
        assert(out@ =~= seq![]);
        while i < ws.len()
            invariant
                i <= ws@.len(),
                wv == ws@.map_values(|w: Vec<char>| w@),
                wv == words(cs@),
                cs@ == text@,
                slot.occurrence.is_many(),
                numbers_of(slot.kind, wv.subrange(0, i as int)) == Some(out@),
            decreases ws@.len() - i,
        {
            assert(wv.subrange(0, i + 1).drop_last() =~= wv.subrange(0, i as int));
            match decode_number(slot.kind, &ws[i]) {
                None => {
                    proof {
                        assert(wv.subrange(0, i + 1).last() == ws@[i as int]@);
                        lemma_numbers_prefix_fails(slot.kind, wv, i as int + 1);
                    }
                    return None;
                },
                Some(v) => {
                    out.push(v);
                    assert(wv.subrange(0, i + 1).last() == ws@[i as int]@);
                },
            }
            i = i + 1;
        }
        assert(wv.subrange(0, i as int) =~= wv);
        Some(out)
    } else {
        match decode_leaf(slot.kind, text) {
            Some(v) => {
                let out = vec![v];
                assert(out@ =~= seq![v]);
                Some(out)
            },
            None => None,
        }
    }
}

proof fn lemma_numbers_prefix_fails(kind: crate::decode::LeafKind, ws: Seq<Seq<char>>, n: int)
    requires
        0 <= n <= ws.len(),
        numbers_of(kind, ws.subrange(0, n)) is None,
    ensures
        numbers_of(kind, ws) is None,
    decreases ws.len() - n,
{
    if n < ws.len() {
        assert(ws.subrange(0, n + 1).drop_last() =~= ws.subrange(0, n));
        lemma_numbers_prefix_fails(kind, ws, n + 1);
    } else {
        assert(ws.subrange(0, n) =~= ws);
    }
}

} // verus!
