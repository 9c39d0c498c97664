//! The wire codec: fixed 13-byte ASCII frames of the shape
//! `((px,py):(tx,ty))`, each coordinate a signed decimal integer. Decoding
//! accepts any byte string of that shape and reports a recoverable
//! `ParseCarErr` otherwise; encoding emits the canonical frame and fails
//! when a coordinate does not fit the fixed frame width.

use vstd::prelude::*;
use vstd::slice::slice_subrange;

verus! {

/// The opening parenthesis byte.
pub const LP: u8 = 40;

/// The closing parenthesis byte.
pub const RP: u8 = 41;

/// The comma byte separating the two halves of a coordinate pair.
pub const COMMA: u8 = 44;

/// The colon byte separating position from target.
pub const COLON: u8 = 58;

/// The minus sign byte.
pub const MINUS: u8 = 45;

/// The plus sign byte.
pub const PLUS: u8 = 43;

/// Every frame on the wire is exactly this many bytes.
pub const FRAME_LEN: usize = 13;

/// The shared movable entity: a position and a requested target.
#[derive(Clone, Copy, Debug, PartialEq, Eq)]
pub struct Car {
    pub pos: (i32, i32),
    pub target: (i32, i32),
}

/// A malformed frame: missing delimiters, unbalanced parentheses, or a
/// non-integer field.
#[derive(Debug, PartialEq, Eq)]
pub struct ParseCarErr;

/// A coordinate whose decimal form does not fit the fixed frame width.
#[derive(Debug, PartialEq, Eq)]
pub struct EncodeError;

pub open spec fn is_digit(b: u8) -> bool {
    48 <= b <= 57
}

/// One or more decimal digit bytes.
pub open spec fn digits_wf(s: Seq<u8>) -> bool {
    s.len() > 0 && forall|j: int| 0 <= j < s.len() ==> is_digit(#[trigger] s[j])
}

/// The value of a digit string, most significant byte first.
pub open spec fn digits_val(s: Seq<u8>) -> int
    decreases s.len(),
{
    if s.len() == 0 {
        0
    } else {
        digits_val(s.drop_last()) * 10 + (s.last() - 48)
    }
}

/// A signed decimal integer field: an optional sign, then digits.
pub open spec fn int_wf(s: Seq<u8>) -> bool {
    if s.len() > 0 && (s[0] == MINUS || s[0] == PLUS) {
        digits_wf(s.skip(1))
    } else {
        digits_wf(s)
    }
}

/// The value of a signed decimal integer field.
pub open spec fn int_val(s: Seq<u8>) -> int
    recommends
        int_wf(s),
{
    if s.len() > 0 && s[0] == MINUS {
        -digits_val(s.skip(1))
    } else if s.len() > 0 && s[0] == PLUS {
        digits_val(s.skip(1))
    } else {
        digits_val(s)
    }
}

/// A field that parses as an `i32`: well-formed and within range.
pub open spec fn field_ok(s: Seq<u8>) -> bool {
    int_wf(s) && i32::MIN <= int_val(s) <= i32::MAX
}

/// `i` is the first occurrence of `b` in `s`.
pub open spec fn is_first_at(s: Seq<u8>, b: u8, i: int) -> bool {
    &&& 0 <= i < s.len()
    &&& s[i] == b
    &&& forall|j: int| 0 <= j < i ==> s[j] != b
}

/// Splits `s` at the first occurrence of `b`, which is removed.
pub open spec fn split_at_first(s: Seq<u8>, b: u8) -> Option<(Seq<u8>, Seq<u8>)> {
    if exists|i: int| is_first_at(s, b, i) {
        let i = choose|i: int| is_first_at(s, b, i);
        Some((s.take(i), s.skip(i + 1)))
    } else {
        None
    }
}

/// Removes one outer pair of parentheses.
pub open spec fn strip_outer(s: Seq<u8>) -> Option<Seq<u8>> {
    if s.len() >= 2 && s[0] == LP && s.last() == RP {
        Some(s.subrange(1, s.len() - 1))
    } else {
        None
    }
}

/// The meaning of one parenthesised coordinate pair `(a,b)`.
pub open spec fn pair_spec(s: Seq<u8>) -> Option<(int, int)> {
    match strip_outer(s) {
        None => None,
        Some(t) => match split_at_first(t, COMMA) {
            None => None,
            Some((a, b)) => if field_ok(a) && field_ok(b) {
                Some((int_val(a), int_val(b)))
            } else {
                None
            },
        },
    }
}

/// The meaning of a whole frame `((px,py):(tx,ty))`: the decoded position
/// and target pairs, or nothing if the frame is malformed.
pub open spec fn decode_spec(s: Seq<u8>) -> Option<((int, int), (int, int))> {
    match strip_outer(s) {
        None => None,
        Some(t) => match split_at_first(t, COLON) {
            None => None,
            Some((p, q)) => match (pair_spec(p), pair_spec(q)) {
                (Some(pv), Some(qv)) => Some((pv, qv)),
                _ => None,
            },
        },
    }
}

/// The canonical decimal digits of a natural number.
pub open spec fn dec_rep(n: nat) -> Seq<u8>
    decreases n,
{
    if n < 10 {
        seq![(48 + n) as u8]
    } else {
        dec_rep(n / 10).push((48 + n % 10) as u8)
    }
}

/// The canonical decimal form of an integer: a minus sign for negatives.
pub open spec fn int_rep(i: int) -> Seq<u8> {
    if i < 0 {
        seq![MINUS] + dec_rep((-i) as nat)
    } else {
        dec_rep(i as nat)
    }
}

/// The canonical frame of an entity, before the fixed-width check.
pub open spec fn frame_of(c: Car) -> Seq<u8> {
    seq![LP, LP] + int_rep(c.pos.0 as int) + seq![COMMA] + int_rep(c.pos.1 as int) + seq![
        RP,
        COLON,
        LP,
    ] + int_rep(c.target.0 as int) + seq![COMMA] + int_rep(c.target.1 as int) + seq![RP, RP]
}

/// The `Car` whose fields carry the four decoded coordinates.
pub open spec fn car_of(v: ((int, int), (int, int))) -> Car {
    Car {
        pos: (v.0.0 as i32, v.0.1 as i32),
        target: (v.1.0 as i32, v.1.1 as i32),
    }
}

proof fn lemma_digits_val_nonneg(s: Seq<u8>)
    requires
        forall|j: int| 0 <= j < s.len() ==> is_digit(#[trigger] s[j]),
    ensures
        digits_val(s) >= 0,
    decreases s.len(),
{
    if s.len() > 0 {
        lemma_digits_val_nonneg(s.drop_last());
    }
}

proof fn lemma_digits_val_prefix_le(s: Seq<u8>, k: int)
    requires
        0 <= k <= s.len(),
        forall|j: int| 0 <= j < s.len() ==> is_digit(#[trigger] s[j]),
    ensures
        digits_val(s.take(k)) <= digits_val(s),
    decreases s.len() - k,
{
    if k == s.len() {
        assert(s.take(k) =~= s);
    } else {
        lemma_digits_val_nonneg(s.take(k));
        assert(s.take(k + 1).drop_last() =~= s.take(k));
        assert(digits_val(s.take(k + 1)) == digits_val(s.take(k)) * 10 + (s[k] - 48));
        lemma_digits_val_prefix_le(s, k + 1);
    }
}

fn find_first(s: &[u8], b: u8) -> (r: Option<usize>)
    ensures
        match r {
            Some(i) => is_first_at(s@, b, i as int),
            None => forall|j: int| 0 <= j < s@.len() ==> s@[j] != b,
        },
{
    let n = s.len();
    let mut i: usize = 0;
    while i < n
        invariant
            i <= n,
            n == s@.len(),
            forall|j: int| 0 <= j < i ==> s@[j] != b,
        decreases n - i,
    {
        if s[i] == b {
            return Some(i);
        }
        i = i + 1;
    }
    None
}

proof fn lemma_split_at_first(s: Seq<u8>, b: u8, i: int)
    requires
        is_first_at(s, b, i),
    ensures
        split_at_first(s, b) == Some((s.take(i), s.skip(i + 1))),
{
    let w = choose|w: int| is_first_at(s, b, w);
    assert(is_first_at(s, b, w));
    if w < i {
        assert(s[w] != b);
    }
    if w > i {
        assert(s[i] != b);
    }
    assert(w == i);
}

fn split_first_exec<'a>(s: &'a [u8], b: u8) -> (r: Option<(&'a [u8], &'a [u8])>)
    ensures
        match r {
            Some((x, y)) => split_at_first(s@, b) == Some((x@, y@)),
            None => split_at_first(s@, b) is None,
        },
{
    let n = s.len();
    match find_first(s, b) {
        Some(i) => {
            proof {
                lemma_split_at_first(s@, b, i as int);
            }
            Some((slice_subrange(s, 0, i), slice_subrange(s, i + 1, n)))
        },
        None => {
            proof {
                assert(forall|i: int| !is_first_at(s@, b, i));
            }
            None
        },
    }
}

fn strip_outer_exec<'a>(s: &'a [u8]) -> (r: Option<&'a [u8]>)
    ensures
        match r {
            Some(t) => strip_outer(s@) == Some(t@),
            None => strip_outer(s@) is None,
        },
{
    let n = s.len();
    if n >= 2 && s[0] == LP && s[n - 1] == RP {
        Some(slice_subrange(s, 1, n - 1))
    } else {
        None
    }
}

fn parse_digits(s: &[u8]) -> (r: Option<i64>)
    ensures
        match r {
            Some(v) => digits_wf(s@) && v == digits_val(s@) && 0 <= v <= 0x8000_0000,
            None => !digits_wf(s@) || digits_val(s@) > 0x8000_0000,
        },
{
    let n = s.len();
    if n == 0 {
        return None;
    }
    let mut acc: i64 = 0;
    let mut i: usize = 0;
    while i < n
        invariant
            i <= n,
            n == s@.len(),
            0 < n,
            acc == digits_val(s@.take(i as int)),
            0 <= acc <= 0x8000_0000,
            forall|j: int| 0 <= j < i ==> is_digit(#[trigger] s@[j]),
        decreases n - i,
    {
        let b = s[i];
        if b < 48 || b > 57 {
            assert(!is_digit(s@[i as int]));
            return None;
        }
        acc = acc * 10 + ((b - 48) as i64);
        i = i + 1;
        proof {
            assert(s@.take(i as int).drop_last() =~= s@.take(i - 1));
        }
        if acc > 0x8000_0000 {
            proof {
                if digits_wf(s@) {
                    lemma_digits_val_prefix_le(s@, i as int);
                }
            }
            return None;
        }
    }
    proof {
        assert(s@.take(n as int) =~= s@);
    }
    Some(acc)
}

fn parse_i32(s: &[u8]) -> (r: Option<i32>)
    ensures
        match r {
            Some(v) => field_ok(s@) && v as int == int_val(s@),
            None => !field_ok(s@),
        },
{
    let n = s.len();
    if n == 0 {
        return None;
    }
    let b0 = s[0];
    if b0 == MINUS {
        let rest = slice_subrange(s, 1, n);
        match parse_digits(rest) {
            Some(v) => {
                if v == 0x8000_0000 {
                    Some(i32::MIN)
                } else {
                    Some(-(v as i32))
                }
            },
            None => {
                proof {
                    if int_wf(s@) {
                        lemma_digits_val_nonneg(s@.skip(1));
                    }
                }
                None
            },
        }
    } else if b0 == PLUS {
        let rest = slice_subrange(s, 1, n);
        match parse_digits(rest) {
            Some(v) => {
                if v <= 0x7fff_ffff {
                    Some(v as i32)
                } else {
                    None
                }
            },
            None => None,
        }
    } else {
        match parse_digits(s) {
            Some(v) => {
                if v <= 0x7fff_ffff {
                    Some(v as i32)
                } else {
                    None
                }
            },
            None => None,
        }
    }
}

fn parse_pair(s: &[u8]) -> (r: Option<(i32, i32)>)
    ensures
        match r {
            Some((a, b)) => pair_spec(s@) == Some((a as int, b as int)),
            None => pair_spec(s@) is None,
        },
{
    let t = match strip_outer_exec(s) {
        Some(t) => t,
        None => {
            return None;
        },
    };
    let (a, b) = match split_first_exec(t, COMMA) {
        Some(p) => p,
        None => {
            return None;
        },
    };
    let av = match parse_i32(a) {
        Some(v) => v,
        None => {
            return None;
        },
    };
    let bv = match parse_i32(b) {
        Some(v) => v,
        None => {
            return None;
        },
    };
    Some((av, bv))
}

impl Car {
    /// Decodes one frame. Succeeds exactly on byte strings of the shape
    /// `((px,py):(tx,ty))` whose four fields are signed decimal integers in
    /// `i32` range; everything else is a recoverable `ParseCarErr`.
    pub fn decode(s: &[u8]) -> (r: Result<Car, ParseCarErr>)
        ensures
            r matches Ok(c) ==> decode_spec(s@) == Some(
                (
                    (c.pos.0 as int, c.pos.1 as int),
                    (c.target.0 as int, c.target.1 as int),
                ),
            ),
            r is Err <==> decode_spec(s@) is None,
    {
        let t = match strip_outer_exec(s) {
            Some(t) => t,
            None => {
                return Err(ParseCarErr);
            },
        };
        let (p, q) = match split_first_exec(t, COLON) {
            Some(x) => x,
            None => {
                return Err(ParseCarErr);
            },
        };
        let pos = match parse_pair(p) {
            Some(v) => v,
            None => {
                return Err(ParseCarErr);
            },
        };
        let target = match parse_pair(q) {
            Some(v) => v,
            None => {
                return Err(ParseCarErr);
            },
        };
        Ok(Car { pos, target })
    }

    /// Encodes the entity as its canonical frame. Fails, rather than emit a
    /// malformed frame, when the decimal forms do not fill exactly the fixed
    /// 13-byte width.
    pub fn encode(&self) -> (r: Result<Vec<u8>, EncodeError>)
        ensures
            r matches Ok(v) ==> v@ == frame_of(*self) && v@.len() == FRAME_LEN,
            r is Err <==> frame_of(*self).len() != FRAME_LEN,
    {
        let mut out: Vec<u8> = Vec::new();
        out.push(LP);
        out.push(LP);
        push_i32_dec(&mut out, self.pos.0);
        out.push(COMMA);
        push_i32_dec(&mut out, self.pos.1);
        out.push(RP);
        out.push(COLON);
        out.push(LP);
        push_i32_dec(&mut out, self.target.0);
        out.push(COMMA);
        push_i32_dec(&mut out, self.target.1);
        out.push(RP);
        out.push(RP);
        proof {
            assert(out@ =~= frame_of(*self));
        }
        if out.len() == FRAME_LEN {
            Ok(out)
        } else {
            Err(EncodeError)
        }
    }
}

fn push_u32_dec(out: &mut Vec<u8>, n: u32)
    ensures
        final(out)@ == old(out)@ + dec_rep(n as nat),
    decreases n,
{
    if n < 10 {
        out.push(48 + n as u8);
        proof {
            assert(out@ =~= old(out)@ + dec_rep(n as nat));
        }
    } else {
        push_u32_dec(out, n / 10);
        out.push(48 + (n % 10) as u8);
        proof {
            assert(out@ =~= old(out)@ + dec_rep(n as nat));
        }
    }
}

fn push_i32_dec(out: &mut Vec<u8>, v: i32)
    ensures
        final(out)@ == old(out)@ + int_rep(v as int),
{
    if v < 0 {
        out.push(MINUS);
        let m: u32 = if v == i32::MIN {
            0x8000_0000u32
        } else {
            (-v) as u32
        };
        assert(m as nat == (-(v as int)) as nat);
        push_u32_dec(out, m);
        proof {
            assert(out@ =~= old(out)@ + int_rep(v as int));
        }
    } else {
        push_u32_dec(out, v as u32);
    }
}

/// Round trip of the wire protocol: a 13-byte frame that decodes at all is
/// reproduced byte for byte by encoding the decoded coordinates.
pub proof fn lemma_frame_round_trip(m: Seq<u8>, v: ((int, int), (int, int)))
    requires
        m.len() == FRAME_LEN,
        decode_spec(m) == Some(v),
    ensures
        frame_of(car_of(v)) == m,
        frame_of(car_of(v)).len() == FRAME_LEN,
{
    let t = strip_outer(m).unwrap();
    assert(t == m.subrange(1, m.len() - 1));
    let i = choose|i: int| is_first_at(t, COLON, i);
    assert(is_first_at(t, COLON, i));
    let p = t.take(i);
    let q = t.skip(i + 1);
    assert(split_at_first(t, COLON) == Some((p, q))) by {
        lemma_split_at_first(t, COLON, i);
    }
    let u = strip_outer(p).unwrap();
    let i2 = choose|j: int| is_first_at(u, COMMA, j);
    assert(is_first_at(u, COMMA, i2));
    let a = u.take(i2);
    let b = u.skip(i2 + 1);
    assert(split_at_first(u, COMMA) == Some((a, b))) by {
        lemma_split_at_first(u, COMMA, i2);
    }
    let w = strip_outer(q).unwrap();
    let i3 = choose|j: int| is_first_at(w, COMMA, j);
    assert(is_first_at(w, COMMA, i3));
    let c = w.take(i3);
    let d = w.skip(i3 + 1);
    assert(split_at_first(w, COMMA) == Some((c, d))) by {
        lemma_split_at_first(w, COMMA, i3);
    }
    assert(field_ok(a) && field_ok(b) && field_ok(c) && field_ok(d));
    assert(a.len() >= 1 && b.len() >= 1 && c.len() >= 1 && d.len() >= 1);
    assert(t.len() == 11);
    assert(p.len() + 1 + q.len() == 11);
    assert(u.len() == p.len() - 2);
    assert(w.len() == q.len() - 2);
    assert(a.len() + 1 + b.len() == u.len());
    assert(c.len() + 1 + d.len() == w.len());
    assert(a.len() == 1 && b.len() == 1 && c.len() == 1 && d.len() == 1);
    lemma_single_field(a);
    lemma_single_field(b);
    lemma_single_field(c);
    lemma_single_field(d);
    assert(v == ((int_val(a), int_val(b)), (int_val(c), int_val(d))));
    let car = car_of(v);
    assert(car.pos.0 as int == int_val(a));
    assert(car.pos.1 as int == int_val(b));
    assert(car.target.0 as int == int_val(c));
    assert(car.target.1 as int == int_val(d));
    assert(frame_of(car) =~= m) by {
        assert(int_rep(int_val(a)) == a && int_rep(int_val(b)) == b && int_rep(int_val(c)) == c
            && int_rep(int_val(d)) == d);
        assert(u == p.subrange(1, p.len() - 1));
        assert(w == q.subrange(1, q.len() - 1));
    }
}

/// A one-byte integer field is a digit, and the canonical form of its value.
proof fn lemma_single_field(a: Seq<u8>)
    requires
        a.len() == 1,
        int_wf(a),
    ensures
        is_digit(a[0]),
        0 <= int_val(a) <= 9,
        int_rep(int_val(a)) == a,
{
    assert(a.skip(1).len() == 0);
    assert(is_digit(a[0]));
    assert(a.drop_last().len() == 0);
    assert(digits_val(a.drop_last()) == 0);
    assert(a.last() == a[0]);
    assert(digits_val(a) == a[0] - 48);
    assert(int_val(a) == a[0] - 48);
    assert(dec_rep((a[0] - 48) as nat) =~= a);
}


proof fn lemma_dec_rep(n: nat)
    ensures
        dec_rep(n).len() > 0,
        forall|j: int| 0 <= j < dec_rep(n).len() ==> is_digit(#[trigger] dec_rep(n)[j]),
        digits_val(dec_rep(n)) == n,
    decreases n,
{
    if n < 10 {
        let s = dec_rep(n);
        assert(s =~= seq![(48 + n) as u8]);
        assert(s.drop_last().len() == 0);
        assert(digits_val(s.drop_last()) == 0);
        assert(digits_val(s) == n);
    } else {
        lemma_dec_rep(n / 10);
        let s = dec_rep(n);
        assert(s == dec_rep(n / 10).push((48 + n % 10) as u8));
        assert(s.drop_last() =~= dec_rep(n / 10));
        assert(s.last() == (48 + n % 10) as u8);
        assert(n == (n / 10) * 10 + n % 10);
        assert(digits_val(s) == (n / 10) * 10 + n % 10);
        assert(forall|j: int|
            0 <= j < s.len() - 1 ==> #[trigger] s[j] == dec_rep(n / 10)[j]);
    }
}

proof fn lemma_int_rep(i: int)
    ensures
        int_rep(i).len() > 0,
        int_wf(int_rep(i)),
        int_val(int_rep(i)) == i,
        forall|j: int|
            0 <= j < int_rep(i).len() ==> (is_digit(#[trigger] int_rep(i)[j]) || int_rep(i)[j]
                == MINUS),
{
    let s = int_rep(i);
    if i < 0 {
        lemma_dec_rep((-i) as nat);
        assert(s == seq![MINUS] + dec_rep((-i) as nat));
        assert(s[0] == MINUS);
        assert(s.skip(1) =~= dec_rep((-i) as nat));
        assert(digits_wf(s.skip(1)));
        assert(int_val(s) == -digits_val(s.skip(1)));
        assert(forall|j: int|
            1 <= j < s.len() ==> #[trigger] s[j] == dec_rep((-i) as nat)[j - 1]);
    } else {
        lemma_dec_rep(i as nat);
        assert(s == dec_rep(i as nat));
        assert(is_digit(s[0]));
        assert(s[0] != MINUS && s[0] != PLUS);
        assert(int_wf(s));
        assert(int_val(s) == digits_val(s));
    }
}

/// A parenthesised pair of two canonical integer fields means exactly
/// those two values.
proof fn lemma_canonical_pair(x: int, y: int)
    requires
        i32::MIN <= x <= i32::MAX,
        i32::MIN <= y <= i32::MAX,
    ensures
        pair_spec(seq![LP] + int_rep(x) + seq![COMMA] + int_rep(y) + seq![RP]) == Some((x, y)),
{
    lemma_int_rep(x);
    lemma_int_rep(y);
    let a = int_rep(x);
    let b = int_rep(y);
    let p = seq![LP] + a + seq![COMMA] + b + seq![RP];
    assert(p[0] == LP);
    assert(p.last() == RP);
    let u = p.subrange(1, p.len() - 1);
    assert(strip_outer(p) == Some(u));
    assert(u =~= a + seq![COMMA] + b);
    assert(u[a.len() as int] == COMMA);
    assert forall|j: int| 0 <= j < a.len() implies u[j] != COMMA by {
        assert(u[j] == a[j]);
        assert(is_digit(a[j]) || a[j] == MINUS);
    }
    assert(is_first_at(u, COMMA, a.len() as int));
    lemma_split_at_first(u, COMMA, a.len() as int);
    assert(u.take(a.len() as int) =~= a);
    assert(u.skip(a.len() as int + 1) =~= b);
    assert(field_ok(a) && field_ok(b));
    assert(pair_spec(p) == Some((int_val(a), int_val(b))));
}

/// Every canonical frame decodes: for any entity, the frame it encodes to
/// satisfies the decode relation with exactly its four coordinates — so a
/// well-formed frame always decodes, and decoding inverts encoding.
pub proof fn lemma_canonical_frame_decodes(c: Car)
    ensures
        decode_spec(frame_of(c)) == Some(
            ((c.pos.0 as int, c.pos.1 as int), (c.target.0 as int, c.target.1 as int)),
        ),
{
    let x1 = c.pos.0 as int;
    let y1 = c.pos.1 as int;
    let x2 = c.target.0 as int;
    let y2 = c.target.1 as int;
    lemma_int_rep(x1);
    lemma_int_rep(y1);
    lemma_int_rep(x2);
    lemma_int_rep(y2);
    let ra = int_rep(x1);
    let rb = int_rep(y1);
    let rc = int_rep(x2);
    let rd = int_rep(y2);
    let m = frame_of(c);
    let p = seq![LP] + ra + seq![COMMA] + rb + seq![RP];
    let q = seq![LP] + rc + seq![COMMA] + rd + seq![RP];
    let t = p + seq![COLON] + q;
    assert(m =~= seq![LP] + t + seq![RP]);
    assert(m[0] == LP);
    assert(m.last() == RP);
    let t2 = m.subrange(1, m.len() - 1);
    assert(strip_outer(m) == Some(t2));
    assert(t2 =~= t);
    assert(t[p.len() as int] == COLON);
    assert forall|j: int| 0 <= j < p.len() implies t[j] != COLON by {
        assert(t[j] == p[j]);
        if j == 0 {
            assert(p[j] == LP);
        } else if j <= ra.len() {
            assert(p[j] == ra[j - 1]);
            assert(is_digit(ra[j - 1]) || ra[j - 1] == MINUS);
        } else if j == ra.len() + 1 {
            assert(p[j] == COMMA);
        } else if j <= ra.len() + 1 + rb.len() {
            assert(p[j] == rb[j - ra.len() - 2]);
            assert(is_digit(rb[j - ra.len() - 2]) || rb[j - ra.len() - 2] == MINUS);
        } else {
            assert(p[j] == RP);
        }
    }
    assert(is_first_at(t, COLON, p.len() as int));
    lemma_split_at_first(t, COLON, p.len() as int);
    assert(t.take(p.len() as int) =~= p);
    assert(t.skip(p.len() as int + 1) =~= q);
    lemma_canonical_pair(x1, y1);
    lemma_canonical_pair(x2, y2);
    assert(pair_spec(p) == Some((x1, y1)));
    assert(pair_spec(q) == Some((x2, y2)));
}

} // verus!
