//! The physical key grammar is memcomparable: ordering encoded keys as byte
//! strings orders them by their first differing tuple field, compared as a
//! value of its type.

use crate::bytes::{be64, lex_lt};
use crate::key_codec::{i64_order_bits, spec_encode_key, spec_encode_part, spec_encode_parts, spec_memcomparable, zeros, KeyFamily, KeyPartValue};
use vstd::prelude::*;

verus! {

/// `a` and `b` first differ at a position inside both, where `a` holds the
/// smaller byte.
pub open spec fn diverges_below(a: Seq<u8>, b: Seq<u8>) -> bool {
    exists|k: int| 0 <= k < a.len() && k < b.len() && a.take(k) == b.take(k) && #[trigger] a[k] < b[k]
}

/// Divergence at `k` orders the strings.
proof fn lemma_diverges_at_lex(a: Seq<u8>, b: Seq<u8>, k: int)
    requires
        0 <= k < a.len(),
        k < b.len(),
        a.take(k) == b.take(k),
        a[k] < b[k],
    ensures
        lex_lt(a, b),
    decreases k,
{
    if k > 0 {
        assert(a[0] == a.take(k)[0]);
        assert(b[0] == b.take(k)[0]);
        let a1 = a.drop_first();
        let b1 = b.drop_first();
        assert(a1.take(k - 1) =~= a.take(k).drop_first());
        assert(b1.take(k - 1) =~= b.take(k).drop_first());
        lemma_diverges_at_lex(a1, b1, k - 1);
    }
}

/// Strings that diverge are ordered, whatever follows each.
pub proof fn lemma_diverges_lex(a: Seq<u8>, b: Seq<u8>, ra: Seq<u8>, rb: Seq<u8>)
    requires
        diverges_below(a, b),
    ensures
        diverges_below(a + ra, b + rb),
        lex_lt(a + ra, b + rb),
{
    let k = choose|k: int| 0 <= k < a.len() && k < b.len() && a.take(k) == b.take(k) && #[trigger] a[k] < b[k];
    assert((a + ra).take(k) =~= a.take(k));
    assert((b + rb).take(k) =~= b.take(k));
    assert((a + ra)[k] == a[k]);
    assert((b + rb)[k] == b[k]);
    lemma_diverges_at_lex(a + ra, b + rb, k);
}

/// A common prefix keeps divergence.
pub proof fn lemma_diverges_prefix(c: Seq<u8>, a: Seq<u8>, b: Seq<u8>)
    requires
        diverges_below(a, b),
    ensures
        diverges_below(c + a, c + b),
{
    let k = choose|k: int| 0 <= k < a.len() && k < b.len() && a.take(k) == b.take(k) && #[trigger] a[k] < b[k];
    let j = c.len() + k;
    assert((c + a).take(j) =~= c + a.take(k));
    assert((c + b).take(j) =~= c + b.take(k));
    assert((c + a)[j] == a[k]);
    assert((c + b)[j] == b[k]);
}

/// The two ways `x` sorts before `y`: they first differ at a position
/// inside both, or `x` is a proper prefix of `y`.
proof fn lemma_lex_lt_cases(x: Seq<u8>, y: Seq<u8>)
    requires
        lex_lt(x, y),
    ensures
        diverges_below(x, y) || (x.len() < y.len() && y.take(x.len() as int) == x),
    decreases x.len(),
{
    if x.len() > 0 && y.len() > 0 && x[0] == y[0] {
        let x1 = x.drop_first();
        let y1 = y.drop_first();
        lemma_lex_lt_cases(x1, y1);
        if diverges_below(x1, y1) {
            let k = choose|k: int| 0 <= k < x1.len() && k < y1.len() && x1.take(k) == y1.take(k) && #[trigger] x1[k] < y1[k];
            assert(x.take(k + 1) =~= seq![x[0]] + x1.take(k));
            assert(y.take(k + 1) =~= seq![y[0]] + y1.take(k));
            assert(x[k + 1] == x1[k]);
            assert(y[k + 1] == y1[k]);
        } else {
            assert(y.take(x.len() as int) =~= seq![y[0]] + y1.take(x1.len() as int));
            assert(x =~= seq![x[0]] + x1);
        }
    } else if x.len() > 0 && y.len() > 0 {
        assert(x.take(0) =~= y.take(0));
        assert(x[0] < y[0]);
    } else {
        assert(y.take(0) =~= x);
    }
}

/// The bytes of a short final group: the string, zero padding to eight
/// bytes, and a marker counting the padding.
proof fn lemma_short_group(v: Seq<u8>, i: int)
    requires
        v.len() < 8,
        0 <= i <= 8,
    ensures
        spec_memcomparable(v).len() == 9,
        i < v.len() ==> spec_memcomparable(v)[i] == v[i],
        v.len() <= i < 8 ==> spec_memcomparable(v)[i] == 0,
        i == 8 ==> spec_memcomparable(v)[i] == (255 - (8 - v.len())) as u8,
{
    let m = spec_memcomparable(v);
    assert(m == v + zeros((8 - v.len()) as nat) + seq![(0xff - (8 - v.len())) as u8]);
}

/// The bytes of a full group: eight bytes of the string and the marker 255.
proof fn lemma_full_group(v: Seq<u8>, i: int)
    requires
        v.len() >= 8,
        0 <= i <= 8,
    ensures
        spec_memcomparable(v).len() >= 9,
        i < 8 ==> spec_memcomparable(v)[i] == v[i],
        i == 8 ==> spec_memcomparable(v)[i] == 255,
        spec_memcomparable(v) == v.take(8).push(255u8) + spec_memcomparable(v.skip(8)),
{
    let m = spec_memcomparable(v);
    assert(m == v.take(8).push(0xffu8) + spec_memcomparable(v.skip(8)));
}

/// When `x` is a proper prefix of `y` shorter than a group, the encodings
/// diverge at the first non-zero byte of `y` past `x`, or at the marker.
proof fn lemma_padding_diverges(x: Seq<u8>, y: Seq<u8>, p: int)
    requires
        x.len() < 8,
        x.len() < y.len(),
        y.take(x.len() as int) == x,
        x.len() <= p <= 8,
        forall|i: int| x.len() <= i < p && i < y.len() ==> y[i] == 0,
        spec_memcomparable(x).take(p) == spec_memcomparable(y).take(p),
    ensures
        diverges_below(spec_memcomparable(x), spec_memcomparable(y)),
    decreases 8 - p,
{
    let mx = spec_memcomparable(x);
    let my = spec_memcomparable(y);
    lemma_short_group(x, p);
    if y.len() >= 8 {
        lemma_full_group(y, p);
    } else {
        lemma_short_group(y, p);
    }
    if p == 8 {
        assert(mx[8] < my[8]);
    } else if p < y.len() && y[p] != 0 {
        assert(mx[p] == 0);
        assert(my[p] == y[p]);
    } else {
        assert(mx[p] == my[p]);
        assert(mx.take(p + 1) =~= mx.take(p).push(mx[p]));
        assert(my.take(p + 1) =~= my.take(p).push(my[p]));
        lemma_padding_diverges(x, y, p + 1);
    }
}

/// The memcomparable encoding preserves strict byte order, and encodings of
/// ordered strings diverge inside both.
pub proof fn lemma_memcomparable_order(x: Seq<u8>, y: Seq<u8>)
    requires
        lex_lt(x, y),
    ensures
        diverges_below(spec_memcomparable(x), spec_memcomparable(y)),
    decreases x.len(),
{
    let mx = spec_memcomparable(x);
    let my = spec_memcomparable(y);
    lemma_lex_lt_cases(x, y);
    if diverges_below(x, y) {
        let k = choose|k: int| 0 <= k < x.len() && k < y.len() && x.take(k) == y.take(k) && #[trigger] x[k] < y[k];
        if k < 8 {
            assert forall|i: int| 0 <= i <= k implies mx[i] == x[i] && my[i] == y[i] by {
                if x.len() >= 8 {
                    lemma_full_group(x, i);
                } else {
                    lemma_short_group(x, i);
                }
                if y.len() >= 8 {
                    lemma_full_group(y, i);
                } else {
                    lemma_short_group(y, i);
                }
            }
            assert forall|i: int| 0 <= i < k implies mx.take(k)[i] == my.take(k)[i] by {
                assert(x.take(k)[i] == y.take(k)[i]);
            }
            assert(mx.take(k) =~= my.take(k));
            if x.len() >= 8 {
                lemma_full_group(x, 0);
            } else {
                lemma_short_group(x, 0);
            }
            if y.len() >= 8 {
                lemma_full_group(y, 0);
            } else {
                lemma_short_group(y, 0);
            }
        } else {
            lemma_full_group(x, 0);
            lemma_full_group(y, 0);
            assert(x.take(8) =~= x.take(k).take(8));
            assert(y.take(8) =~= y.take(k).take(8));
            let xs = x.skip(8);
            let ys = y.skip(8);
            assert(xs.take(k - 8) =~= x.take(k).skip(8));
            assert(ys.take(k - 8) =~= y.take(k).skip(8));
            assert(xs[k - 8] == x[k]);
            assert(ys[k - 8] == y[k]);
            lemma_diverges_at_lex(xs, ys, k - 8);
            lemma_memcomparable_order(xs, ys);
            lemma_diverges_prefix(x.take(8).push(255u8), spec_memcomparable(xs), spec_memcomparable(ys));
        }
    } else if x.len() >= 8 {
        lemma_full_group(x, 0);
        lemma_full_group(y, 0);
        assert(x.take(8) =~= y.take(x.len() as int).take(8));
        assert(y.take(8) =~= y.take(x.len() as int).take(8));
        let xs = x.skip(8);
        let ys = y.skip(8);
        assert(ys.take(xs.len() as int) =~= y.take(x.len() as int).skip(8));
        assert(x.skip(8) =~= y.take(x.len() as int).skip(8));
        assert(xs.len() < ys.len());
        if xs.len() == 0 {
            assert(lex_lt(xs, ys));
        } else {
            lemma_prefix_lex(xs, ys);
        }
        lemma_memcomparable_order(xs, ys);
        lemma_diverges_prefix(x.take(8).push(255u8), spec_memcomparable(xs), spec_memcomparable(ys));
    } else {
        assert(mx.take(x.len() as int) =~= my.take(x.len() as int)) by {
            assert forall|i: int| 0 <= i < x.len() implies mx.take(x.len() as int)[i] == my.take(x.len() as int)[i] by {
                lemma_short_group(x, i);
                if y.len() >= 8 {
                    lemma_full_group(y, i);
                } else {
                    lemma_short_group(y, i);
                }
                assert(y.take(x.len() as int)[i] == y[i]);
            }
        }
        lemma_padding_diverges(x, y, x.len() as int);
    }
}

/// A proper prefix sorts first.
proof fn lemma_prefix_lex(x: Seq<u8>, y: Seq<u8>)
    requires
        x.len() < y.len(),
        y.take(x.len() as int) == x,
    ensures
        lex_lt(x, y),
    decreases x.len(),
{
    if x.len() > 0 {
        assert(x[0] == y.take(x.len() as int)[0]);
        assert(y.drop_first().take(x.drop_first().len() as int) =~= y.take(x.len() as int).drop_first());
        lemma_prefix_lex(x.drop_first(), y.drop_first());
    }
}

/// Integers whose big-endian bytes first differ at byte 0 are ordered by it.
proof fn lemma_be64_first_byte_0(a: u64, b: u64)
    by (bit_vector)
    requires
        (a >> 56u64) as u8 > (b >> 56u64) as u8,
    ensures
        a > b,
{
}

/// Integers whose big-endian bytes first differ at byte 1 are ordered by it.
proof fn lemma_be64_first_byte_1(a: u64, b: u64)
    by (bit_vector)
    requires
        (a >> 56u64) as u8 == (b >> 56u64) as u8,
        (a >> 48u64) as u8 > (b >> 48u64) as u8,
    ensures
        a > b,
{
}

/// Integers whose big-endian bytes first differ at byte 2 are ordered by it.
proof fn lemma_be64_first_byte_2(a: u64, b: u64)
    by (bit_vector)
    requires
        (a >> 56u64) as u8 == (b >> 56u64) as u8,
        (a >> 48u64) as u8 == (b >> 48u64) as u8,
        (a >> 40u64) as u8 > (b >> 40u64) as u8,
    ensures
        a > b,
{
}

/// Integers whose big-endian bytes first differ at byte 3 are ordered by it.
proof fn lemma_be64_first_byte_3(a: u64, b: u64)
    by (bit_vector)
    requires
        (a >> 56u64) as u8 == (b >> 56u64) as u8,
        (a >> 48u64) as u8 == (b >> 48u64) as u8,
        (a >> 40u64) as u8 == (b >> 40u64) as u8,
        (a >> 32u64) as u8 > (b >> 32u64) as u8,
    ensures
        a > b,
{
}

/// Integers whose big-endian bytes first differ at byte 4 are ordered by it.
proof fn lemma_be64_first_byte_4(a: u64, b: u64)
    by (bit_vector)
    requires
        (a >> 56u64) as u8 == (b >> 56u64) as u8,
        (a >> 48u64) as u8 == (b >> 48u64) as u8,
        (a >> 40u64) as u8 == (b >> 40u64) as u8,
        (a >> 32u64) as u8 == (b >> 32u64) as u8,
        (a >> 24u64) as u8 > (b >> 24u64) as u8,
    ensures
        a > b,
{
}

/// Integers whose big-endian bytes first differ at byte 5 are ordered by it.
proof fn lemma_be64_first_byte_5(a: u64, b: u64)
    by (bit_vector)
    requires
        (a >> 56u64) as u8 == (b >> 56u64) as u8,
        (a >> 48u64) as u8 == (b >> 48u64) as u8,
        (a >> 40u64) as u8 == (b >> 40u64) as u8,
        (a >> 32u64) as u8 == (b >> 32u64) as u8,
        (a >> 24u64) as u8 == (b >> 24u64) as u8,
        (a >> 16u64) as u8 > (b >> 16u64) as u8,
    ensures
        a > b,
{
}

/// Integers whose big-endian bytes first differ at byte 6 are ordered by it.
proof fn lemma_be64_first_byte_6(a: u64, b: u64)
    by (bit_vector)
    requires
        (a >> 56u64) as u8 == (b >> 56u64) as u8,
        (a >> 48u64) as u8 == (b >> 48u64) as u8,
        (a >> 40u64) as u8 == (b >> 40u64) as u8,
        (a >> 32u64) as u8 == (b >> 32u64) as u8,
        (a >> 24u64) as u8 == (b >> 24u64) as u8,
        (a >> 16u64) as u8 == (b >> 16u64) as u8,
        (a >> 8u64) as u8 > (b >> 8u64) as u8,
    ensures
        a > b,
{
}

/// Integers whose big-endian bytes first differ at byte 7 are ordered by it.
proof fn lemma_be64_first_byte_7(a: u64, b: u64)
    by (bit_vector)
    requires
        (a >> 56u64) as u8 == (b >> 56u64) as u8,
        (a >> 48u64) as u8 == (b >> 48u64) as u8,
        (a >> 40u64) as u8 == (b >> 40u64) as u8,
        (a >> 32u64) as u8 == (b >> 32u64) as u8,
        (a >> 24u64) as u8 == (b >> 24u64) as u8,
        (a >> 16u64) as u8 == (b >> 16u64) as u8,
        (a >> 8u64) as u8 == (b >> 8u64) as u8,
        a as u8 > b as u8,
    ensures
        a > b,
{
}

/// Big-endian encoding preserves order.
pub proof fn lemma_be64_order(a: u64, b: u64)
    requires
        a < b,
    ensures
        diverges_below(be64(a), be64(b)),
{
    let x = be64(a);
    let y = be64(b);
    crate::bytes::lemma_from_be64_of_be64(a);
    crate::bytes::lemma_from_be64_of_be64(b);
    let k: int = if x[0] != y[0] {
        0
    } else if x[1] != y[1] {
        1
    } else if x[2] != y[2] {
        2
    } else if x[3] != y[3] {
        3
    } else if x[4] != y[4] {
        4
    } else if x[5] != y[5] {
        5
    } else if x[6] != y[6] {
        6
    } else if x[7] != y[7] {
        7
    } else {
        assert(x =~= y);
        8
    };
    assert(k < 8);
    assert(x.take(k) =~= y.take(k)) by {
        assert forall|i: int| 0 <= i < k implies x.take(k)[i] == y.take(k)[i] by {}
    }
    if x[k] > y[k] {
        if k == 0 {
            lemma_be64_first_byte_0(a, b);
        } else if k == 1 {
            lemma_be64_first_byte_1(a, b);
        } else if k == 2 {
            lemma_be64_first_byte_2(a, b);
        } else if k == 3 {
            lemma_be64_first_byte_3(a, b);
        } else if k == 4 {
            lemma_be64_first_byte_4(a, b);
        } else if k == 5 {
            lemma_be64_first_byte_5(a, b);
        } else if k == 6 {
            lemma_be64_first_byte_6(a, b);
        } else {
            lemma_be64_first_byte_7(a, b);
        }
    }
    assert(x[k] < y[k]);
}

/// Signed integers ordered as their flipped-sign bit patterns.
proof fn lemma_i64_order_bits(a: i64, b: i64)
    by (bit_vector)
    requires
        a < b,
    ensures
        ((a as u64) ^ 0x8000_0000_0000_0000u64) < ((b as u64) ^ 0x8000_0000_0000_0000u64),
{
}

/// Complement reverses order.
proof fn lemma_complement_order(a: u64, b: u64)
    by (bit_vector)
    requires
        a > b,
    ensures
        !a < !b,
{
}

/// The order of two tuple fields of the same type: bytes and text by their
/// bytes, booleans with false first, integers by value, and descending
/// integers by reversed value.
pub open spec fn part_lt(a: KeyPartValue, b: KeyPartValue) -> bool {
    match (a, b) {
        (KeyPartValue::Bytes(x), KeyPartValue::Bytes(y)) => lex_lt(x, y),
        (KeyPartValue::Text(x), KeyPartValue::Text(y)) => lex_lt(vstd::utf8::encode_utf8(x), vstd::utf8::encode_utf8(y)),
        (KeyPartValue::Bool(x), KeyPartValue::Bool(y)) => !x && y,
        (KeyPartValue::U8(x), KeyPartValue::U8(y)) => x < y,
        (KeyPartValue::U64(x), KeyPartValue::U64(y)) => x < y,
        (KeyPartValue::I64(x), KeyPartValue::I64(y)) => x < y,
        (KeyPartValue::DescU64(x), KeyPartValue::DescU64(y)) => x > y,
        _ => false,
    }
}

/// Ordered fields have diverging encodings.
pub proof fn lemma_part_order(a: KeyPartValue, b: KeyPartValue)
    requires
        part_lt(a, b),
    ensures
        diverges_below(spec_encode_part(a), spec_encode_part(b)),
{
    match (a, b) {
        (KeyPartValue::Bytes(x), KeyPartValue::Bytes(y)) => {
            lemma_memcomparable_order(x, y);
            lemma_diverges_prefix(seq![0x20u8], spec_memcomparable(x), spec_memcomparable(y));
        },
        (KeyPartValue::Text(x), KeyPartValue::Text(y)) => {
            let ex = vstd::utf8::encode_utf8(x);
            let ey = vstd::utf8::encode_utf8(y);
            lemma_memcomparable_order(ex, ey);
            lemma_diverges_prefix(seq![0x21u8], spec_memcomparable(ex), spec_memcomparable(ey));
        },
        (KeyPartValue::Bool(x), KeyPartValue::Bool(y)) => {
            let ea = spec_encode_part(a);
            let eb = spec_encode_part(b);
            assert(ea.take(1) =~= eb.take(1));
            assert(ea[1] < eb[1]);
        },
        (KeyPartValue::U8(x), KeyPartValue::U8(y)) => {
            let ea = spec_encode_part(a);
            let eb = spec_encode_part(b);
            assert(ea.take(1) =~= eb.take(1));
            assert(ea[1] < eb[1]);
        },
        (KeyPartValue::U64(x), KeyPartValue::U64(y)) => {
            lemma_be64_order(x, y);
            lemma_diverges_prefix(seq![0x32u8], be64(x), be64(y));
        },
        (KeyPartValue::I64(x), KeyPartValue::I64(y)) => {
            lemma_i64_order_bits(x, y);
            lemma_be64_order(i64_order_bits(x), i64_order_bits(y));
            lemma_diverges_prefix(seq![0x33u8], be64(i64_order_bits(x)), be64(i64_order_bits(y)));
        },
        (KeyPartValue::DescU64(x), KeyPartValue::DescU64(y)) => {
            lemma_complement_order(x, y);
            lemma_be64_order(!x, !y);
            lemma_diverges_prefix(seq![0x34u8], be64(!x), be64(!y));
        },
        _ => {},
    }
}

/// The encoding of a tuple is the encodings of its parts, concatenated.
pub proof fn lemma_encode_parts_concat(p: Seq<KeyPartValue>, q: Seq<KeyPartValue>)
    ensures
        spec_encode_parts(p + q) == spec_encode_parts(p) + spec_encode_parts(q),
    decreases p.len(),
{
    if p.len() > 0 {
        assert((p + q).drop_first() =~= p.drop_first() + q);
        lemma_encode_parts_concat(p.drop_first(), q);
        assert(spec_encode_parts(p + q) =~= spec_encode_part(p[0]) + spec_encode_parts(p.drop_first() + q));
    } else {
        assert(p + q =~= q);
    }
}

/// Memcomparable keys: two keys under the same address and family whose
/// tuples agree up to a field, where the first holds the smaller value of
/// the same type, sort in that order as byte strings, whatever follows.
pub proof fn lemma_key_order(
    tenant: Option<Seq<char>>,
    scope: Option<Seq<char>>,
    family: KeyFamily,
    prefix: Seq<KeyPartValue>,
    a: KeyPartValue,
    b: KeyPartValue,
    rest_a: Seq<KeyPartValue>,
    rest_b: Seq<KeyPartValue>,
)
    requires
        part_lt(a, b),
    ensures
        lex_lt(
            spec_encode_key(tenant, scope, family, prefix + seq![a] + rest_a),
            spec_encode_key(tenant, scope, family, prefix + seq![b] + rest_b),
        ),
{
    lemma_part_order(a, b);
    lemma_encode_parts_concat(prefix + seq![a], rest_a);
    lemma_encode_parts_concat(prefix, seq![a]);
    lemma_encode_parts_concat(prefix + seq![b], rest_b);
    lemma_encode_parts_concat(prefix, seq![b]);
    assert(seq![a].drop_first() =~= Seq::<KeyPartValue>::empty());
    assert(seq![b].drop_first() =~= Seq::<KeyPartValue>::empty());
    assert(spec_encode_parts(Seq::<KeyPartValue>::empty()) =~= Seq::<u8>::empty());
    assert(spec_encode_parts(seq![a]) =~= spec_encode_part(a) + spec_encode_parts(Seq::<KeyPartValue>::empty()));
    assert(spec_encode_parts(seq![b]) =~= spec_encode_part(b) + spec_encode_parts(Seq::<KeyPartValue>::empty()));
    let ea = spec_encode_part(a);
    let eb = spec_encode_part(b);
    let ta = spec_encode_parts(rest_a);
    let tb = spec_encode_parts(rest_b);
    lemma_diverges_lex(ea, eb, ta, tb);
    let c = spec_encode_key(tenant, scope, family, Seq::<KeyPartValue>::empty()) + spec_encode_parts(prefix);
    lemma_diverges_prefix(c, ea + ta, eb + tb);
    assert(spec_encode_key(tenant, scope, family, prefix + seq![a] + rest_a) =~= c + (ea + ta));
    assert(spec_encode_key(tenant, scope, family, prefix + seq![b] + rest_b) =~= c + (eb + tb));
    lemma_diverges_lex(c + (ea + ta), c + (eb + tb), Seq::<u8>::empty(), Seq::<u8>::empty());
    assert(c + (ea + ta) + Seq::<u8>::empty() =~= c + (ea + ta));
    assert(c + (eb + tb) + Seq::<u8>::empty() =~= c + (eb + tb));
}


/// Tuple `xs` sorts before `ys`: they agree up to a field where `xs` holds
/// the smaller value of the same type.
pub open spec fn tuple_lt(xs: Seq<KeyPartValue>, ys: Seq<KeyPartValue>) -> bool {
    exists|k: int| 0 <= k < xs.len() && k < ys.len() && xs.take(k) == ys.take(k) && #[trigger] part_lt(xs[k], ys[k])
}

/// The key order is the tuple order: under one address and family, a tuple
/// that sorts before another encodes to a smaller key; and a smaller key
/// never comes from a tuple that sorts after, or from the same tuple.
pub proof fn lemma_tuple_order(tenant: Option<Seq<char>>, scope: Option<Seq<char>>, family: KeyFamily, xs: Seq<KeyPartValue>, ys: Seq<KeyPartValue>)
    ensures
        tuple_lt(xs, ys) ==> lex_lt(spec_encode_key(tenant, scope, family, xs), spec_encode_key(tenant, scope, family, ys)),
        lex_lt(spec_encode_key(tenant, scope, family, xs), spec_encode_key(tenant, scope, family, ys)) ==> !tuple_lt(ys, xs) && xs != ys,
{
    let ex = spec_encode_key(tenant, scope, family, xs);
    let ey = spec_encode_key(tenant, scope, family, ys);
    if tuple_lt(xs, ys) {
        let k = choose|k: int| 0 <= k < xs.len() && k < ys.len() && xs.take(k) == ys.take(k) && #[trigger] part_lt(xs[k], ys[k]);
        lemma_key_order(tenant, scope, family, xs.take(k), xs[k], ys[k], xs.skip(k + 1), ys.skip(k + 1));
        assert(xs.take(k) + seq![xs[k]] + xs.skip(k + 1) =~= xs);
        assert(xs.take(k) + seq![ys[k]] + ys.skip(k + 1) =~= ys);
    }
    if tuple_lt(ys, xs) {
        let k = choose|k: int| 0 <= k < ys.len() && k < xs.len() && ys.take(k) == xs.take(k) && #[trigger] part_lt(ys[k], xs[k]);
        lemma_key_order(tenant, scope, family, ys.take(k), ys[k], xs[k], ys.skip(k + 1), xs.skip(k + 1));
        assert(ys.take(k) + seq![ys[k]] + ys.skip(k + 1) =~= ys);
        assert(ys.take(k) + seq![xs[k]] + xs.skip(k + 1) =~= xs);
    }
    crate::bytes::lemma_lex_lt_trichotomy(ex, ey);
}

} // verus!
