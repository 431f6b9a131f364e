//! Decoding of leaf text into scalar values.
use vstd::prelude::*;
use vstd::std_specs::iter::IteratorSpec;

verus! {

/// The leaf types that text can be decoded into.
#[derive(Clone, Copy, Debug, PartialEq, Eq, Structural)]
pub enum LeafKind {
    /// The text itself.
    Text,
    /// A non-negative decimal integer that fits in 64 bits.
    Unsigned,
    /// A decimal number with an optional sign and fraction, such as `-3.14`.
    Decimal,
}

/// A decimal number `(-1)^negative * mantissa / 10^scale`, as written in the text.
#[derive(Clone, Copy, Debug, PartialEq, Eq, Structural)]
pub struct Decimal {
    pub negative: bool,
    pub mantissa: u64,
    pub scale: u32,
}

/// A decoded leaf value.
#[derive(Clone, Debug, PartialEq, Eq)]
pub enum Scalar {
    Text(String),
    Unsigned(u64),
    Decimal(Decimal),
}

impl Scalar {
    /// A copy of the value.
    pub fn copied(&self) -> (r: Scalar)
        ensures
            r == *self,
    {
        match self {
            Scalar::Text(t) => Scalar::Text(t.clone()),
            Scalar::Unsigned(n) => Scalar::Unsigned(*n),
            Scalar::Decimal(d) => Scalar::Decimal(*d),
        }
    }
}

pub open spec fn is_digit(c: char) -> bool {
    '0' <= c && c <= '9'
}

pub open spec fn all_digits(s: Seq<char>) -> bool {
    forall|i: int| 0 <= i < s.len() ==> is_digit(#[trigger] s[i])
}

/// The number that the digits `s` spell, read after the digits of `acc`.
pub open spec fn digits_value_from(acc: nat, s: Seq<char>) -> nat
    decreases s.len(),
{
    if s.len() == 0 {
        acc
    } else {
        digits_value_from(acc, s.drop_last()) * 10 + (s.last() as nat - '0' as nat) as nat
    }
}

/// The number that the digits `s` spell.
pub open spec fn digits_value(s: Seq<char>) -> nat {
    digits_value_from(0, s)
}

/// The unsigned integer that `s` spells: one or more digits, fitting in 64 bits.
pub open spec fn unsigned_of(s: Seq<char>) -> Option<u64> {
    if s.len() > 0 && all_digits(s) && digits_value(s) <= u64::MAX {
        Some(digits_value(s) as u64)
    } else {
        None
    }
}

/// Whether `s` starts with a sign character.
pub open spec fn has_sign(s: Seq<char>) -> bool {
    s.len() > 0 && (s[0] == '-' || s[0] == '+')
}

/// The decimal with the given sign whose digits before the point are
/// `int_part` and after it `frac`; both must be one or more digits.
pub open spec fn split_decimal(negative: bool, int_part: Seq<char>, frac: Seq<char>) -> Option<
    Decimal,
> {
    if int_part.len() > 0 && frac.len() > 0 && all_digits(int_part) && all_digits(frac)
        && digits_value(int_part + frac) <= u64::MAX && frac.len() <= u32::MAX {
        Some(
            Decimal {
                negative,
                mantissa: digits_value(int_part + frac) as u64,
                scale: frac.len() as u32,
            },
        )
    } else {
        None
    }
}

pub open spec fn has_dot(s: Seq<char>) -> bool {
    exists|p: int| 0 <= p < s.len() && s[p] == '.'
}

/// The place of a `.` in `s`, where it has one.
pub open spec fn dot_index(s: Seq<char>) -> int {
    choose|p: int| 0 <= p < s.len() && s[p] == '.'
}

/// The decimal that `s` spells: an optional `-` or `+`, one or more digits, and
/// optionally a `.` followed by one or more digits. All the digits together
/// must fit in 64 bits.
pub open spec fn decimal_of(s: Seq<char>) -> Option<Decimal> {
    let negative = s.len() > 0 && s[0] == '-';
    let body = if has_sign(s) { s.drop_first() } else { s };
    if has_dot(body) {
        let p = dot_index(body);
        split_decimal(negative, body.subrange(0, p), body.subrange(p + 1, body.len() as int))
    } else if body.len() > 0 && all_digits(body) && digits_value(body) <= u64::MAX {
        Some(Decimal { negative, mantissa: digits_value(body) as u64, scale: 0 })
    } else {
        None
    }
}

/// What decoding `text` as `kind` gives: the value, or `None` where the text
/// does not spell a value of that kind.
pub open spec fn decoded(kind: LeafKind, text: String) -> Option<Scalar> {
    match kind {
        LeafKind::Text => Some(Scalar::Text(text)),
        _ => number_of(kind, text@),
    }
}

/// What the characters `s` give as a number of kind `kind`; never a value
/// for `Text`.
pub open spec fn number_of(kind: LeafKind, s: Seq<char>) -> Option<Scalar> {
    match kind {
        LeafKind::Text => None,
        LeafKind::Unsigned => match unsigned_of(s) {
            Some(n) => Some(Scalar::Unsigned(n)),
            None => None,
        },
        LeafKind::Decimal => match decimal_of(s) {
            Some(d) => Some(Scalar::Decimal(d)),
            None => None,
        },
    }
}

proof fn lemma_digits_grow(acc: nat, s: Seq<char>, i: int, j: int)
    requires
        0 <= i <= j <= s.len(),
        all_digits(s),
    ensures
        digits_value_from(acc, s.subrange(0, i)) <= digits_value_from(acc, s.subrange(0, j)),
    decreases j - i,
{
    if i < j {
        lemma_digits_grow(acc, s, i, j - 1);
        assert(s.subrange(0, j).drop_last() =~= s.subrange(0, j - 1));
        assert(is_digit(s[j - 1]));
    }
}

proof fn lemma_digits_concat(acc: nat, a: Seq<char>, b: Seq<char>)
    ensures
        digits_value_from(digits_value_from(acc, a), b) == digits_value_from(acc, a + b),
    decreases b.len(),
{
    if b.len() > 0 {
        lemma_digits_concat(acc, a, b.drop_last());
        assert((a + b).drop_last() =~= a + b.drop_last());
        assert((a + b).last() == b.last());
    } else {
        assert(a + b =~= a);
    }
}

/// Reads the digits `s[from..to]` after the number `acc`; `None` where one is
/// not a digit or the number does not fit in 64 bits.
fn read_digits(s: &Vec<char>, from: usize, to: usize, acc: u64) -> (r: Option<u64>)
    requires
        from <= to <= s@.len(),
    ensures
        ({
            let part = s@.subrange(from as int, to as int);
            match r {
                Some(n) => all_digits(part) && n == digits_value_from(acc as nat, part),
                None => !all_digits(part) || digits_value_from(acc as nat, part) > u64::MAX,
            }
        }),
{
    let ghost part = s@.subrange(from as int, to as int);
    let mut n: u64 = acc;
    let mut i: usize = from;
    while i < to
        invariant
            from <= i <= to <= s@.len(),
            part == s@.subrange(from as int, to as int),
            all_digits(part.subrange(0, i - from)),
            n == digits_value_from(acc as nat, part.subrange(0, i - from)),
        decreases to - i,
    {
        let c = s[i];
        proof {
            assert(part.subrange(0, i + 1 - from).drop_last() =~= part.subrange(0, i - from));
            assert(part[i - from] == c);
        }
        if !('0' <= c && c <= '9') {
            assert(!is_digit(part[i - from]));
            return None;
        }
        let d = (c as u32 - '0' as u32) as u64;
        if n > (u64::MAX - d) / 10 {
            proof {
                assert(all_digits(part.subrange(0, i + 1 - from))) by {
                    assert forall|k: int| 0 <= k < i + 1 - from implies is_digit(
                        #[trigger] part.subrange(0, i + 1 - from)[k],
                    ) by {
                        if k < i - from {
                            assert(part.subrange(0, i - from)[k] == part.subrange(
                                0,
                                i + 1 - from,
                            )[k]);
                        }
                    }
                }
                assert(n * 10 + d > u64::MAX) by (nonlinear_arith)
                    requires
                        n > (u64::MAX - d) / 10,
                        d <= 9,
                ;
                if all_digits(part) {
                    lemma_digits_grow(acc as nat, part, i + 1 - from, part.len() as int);
                    assert(part.subrange(0, part.len() as int) =~= part);
                }
            }
            return None;
        }
        n = n * 10 + d;
        i = i + 1;
        proof {
            assert forall|k: int| 0 <= k < i - from implies is_digit(
                #[trigger] part.subrange(0, i - from)[k],
            ) by {
                if k < i - 1 - from {
                    assert(part.subrange(0, i - 1 - from)[k] == part.subrange(0, i - from)[k]);
                }
            }
        }
    }
    assert(part.subrange(0, i - from) =~= part);
    Some(n)
}

/// Decodes `text` as `kind`; `None` where it does not spell such a value.
pub fn decode_leaf(kind: LeafKind, text: &String) -> (r: Option<Scalar>)
    ensures
        r == decoded(kind, *text),
{
    match kind {
        LeafKind::Text => Some(Scalar::Text(text.clone())),
        _ => decode_number(kind, &chars_of(text)),
    }
}

/// Decodes the characters `s` as a number of kind `kind`.
pub fn decode_number(kind: LeafKind, s: &Vec<char>) -> (r: Option<Scalar>)
    ensures
        r == number_of(kind, s@),
{
    match kind {
        LeafKind::Text => None,
        LeafKind::Unsigned => {
            let len = s.len();
            if len == 0 {
                return None;
            }
            proof {
                assert(s@.subrange(0, len as int) =~= s@);
            }
            match read_digits(s, 0, len, 0) {
                Some(n) => Some(Scalar::Unsigned(n)),
                None => None,
            }
        },
        LeafKind::Decimal => match decode_decimal(s) {
            Some(d) => Some(Scalar::Decimal(d)),
            None => None,
        },
    }
}

fn decode_split(s: &Vec<char>, start: usize, p: usize, negative: bool) -> (r: Option<Decimal>)
    requires
        start <= p < s@.len(),
    ensures
        r == split_decimal(
            negative,
            s@.subrange(start as int, p as int),
            s@.subrange(p + 1, s@.len() as int),
        ),
{
    let len = s.len();
    let ghost int_part = s@.subrange(start as int, p as int);
    let ghost frac = s@.subrange(p + 1, len as int);
    if p == start || p + 1 == len {
        return None;
    }
    proof {
        lemma_digits_concat(0, int_part, frac);
        if all_digits(int_part) && all_digits(frac) {
            lemma_digits_grow(digits_value(int_part), frac, 0, frac.len() as int);
            assert(frac.subrange(0, 0) =~= Seq::<char>::empty());
            assert(frac.subrange(0, frac.len() as int) =~= frac);
        }
    }
    match read_digits(s, start, p, 0) {
        None => None,
        Some(ip) => match read_digits(s, p + 1, len, ip) {
            None => None,
            Some(m) => {
                if len - (p + 1) > u32::MAX as usize {
                    None
                } else {
                    Some(Decimal { negative, mantissa: m, scale: (len - (p + 1)) as u32 })
                }
            },
        },
    }
}

proof fn lemma_first_dot(s: Seq<char>, start: int, p: int)
    requires
        start == (if has_sign(s) { 1int } else { 0 }),
        start <= p < s.len(),
        s[p] == '.',
        forall|k: int| start <= k < p ==> s[k] != '.',
    ensures
        decimal_of(s) == split_decimal(
            s.len() > 0 && s[0] == '-',
            s.subrange(start, p),
            s.subrange(p + 1, s.len() as int),
        ),
{
    let negative = s.len() > 0 && s[0] == '-';
    let body = if has_sign(s) { s.drop_first() } else { s };
    assert(body =~= s.subrange(start, s.len() as int));
    let q = p - start;
    assert(body[q] == '.');
    assert(has_dot(body));
    let chosen = dot_index(body);
    let int_part = body.subrange(0, chosen);
    let frac = body.subrange(chosen + 1, body.len() as int);
    let ip = s.subrange(start, p);
    let fp = s.subrange(p + 1, s.len() as int);
    if chosen < q {
        assert(s[chosen + start] != '.');
    }
    if chosen > q {
        assert(int_part[q] == '.');
        assert(!all_digits(int_part));
        let k = chosen + start - (p + 1);
        assert(fp[k] == '.');
        assert(!all_digits(fp));
    }
    if chosen == q {
        assert(ip =~= int_part);
        assert(fp =~= frac);
    }
    assert(decimal_of(s) == split_decimal(negative, int_part, frac));
    assert(split_decimal(negative, int_part, frac) == split_decimal(negative, ip, fp));
}

fn decode_decimal(s: &Vec<char>) -> (r: Option<Decimal>)
    ensures
        r == decimal_of(s@),
{
    let len = s.len();
    let mut start: usize = 0;
    let mut negative = false;
    if len > 0 {
        let c = s[0];
        if c == '-' {
            negative = true;
            start = 1;
        } else if c == '+' {
            start = 1;
        }
    }
    let ghost body = if has_sign(s@) { s@.drop_first() } else { s@ };
    assert(body =~= s@.subrange(start as int, len as int));
    assert(negative == (s@.len() > 0 && s@[0] == '-'));
    // find the first '.'
    let mut p: usize = start;
    while p < len && s[p] != '.'
        invariant
            start <= p <= len,
            len == s@.len(),
            forall|k: int| start <= k < p ==> s@[k] != '.',
        decreases len - p,
    {
        p = p + 1;
    }
    if p < len {
        proof {
            lemma_first_dot(s@, start as int, p as int);
        }
        decode_split(s, start, p, negative)
    } else {
        assert(!has_dot(body)) by {
            assert forall|k: int| 0 <= k < body.len() implies body[k] != '.' by {
                assert(body[k] == s@[k + start]);
            }
        }
        if start == len {
            return None;
        }
        match read_digits(s, start, len, 0) {
            Some(n) => Some(Decimal { negative, mantissa: n, scale: 0 }),
            None => None,
        }
    }
}

/// The characters of `t`, in order.
pub fn chars_of(t: &String) -> (r: Vec<char>)
    ensures
        r@ == t@,
{
    broadcast use vstd::string::axiom_spec_iter, vstd::string::next_postcondition;

    let s = t.as_str();
    let mut it = s.chars();
    let mut out: Vec<char> = Vec::new();
    loop
        invariant
            s@ == t@,
            out@ + IteratorSpec::remaining(&it) == s@,
            IteratorSpec::decrease(&it) is Some,
        decreases IteratorSpec::decrease(&it)->0,
    {
        match it.next() {
            Some(c) => {
                out.push(c);
            },
            None => {
                assert(out@ + IteratorSpec::remaining(&it) =~= out@);
                return out;
            },
        }
    }
}

} // verus!
