use vstd::prelude::*;
use vstd::assert_by_contradiction;
use vstd::string::StringSliceAdditionalSpecFns;
use vstd::utf8::encode_utf8;
use crate::error::{Error, ErrorKind};
use crate::value::{lookup, strand_entry, string_from_utf8, take_field, Value};

verus! {

broadcast use vstd::std_specs::vec::group_vec_axioms, vstd::seq::axiom_seq_index_decreases, vstd::utf8::encode_utf8_valid_utf8, vstd::utf8::decode_utf8_encode_utf8, vstd::utf8::encode_utf8_decode_utf8;

/// The eight big-endian bytes of a 64-bit word: the framing's fixed-width
/// integer form.
pub open spec fn u64_be(n: u64) -> Seq<u8> {
    seq![
        ((n >> 56) & 0xff) as u8,
        ((n >> 48) & 0xff) as u8,
        ((n >> 40) & 0xff) as u8,
        ((n >> 32) & 0xff) as u8,
        ((n >> 24) & 0xff) as u8,
        ((n >> 16) & 0xff) as u8,
        ((n >> 8) & 0xff) as u8,
        (n & 0xff) as u8,
    ]
}

/// The word eight big-endian bytes spell.
pub open spec fn u64_from_be(b: Seq<u8>) -> u64
    recommends
        b.len() == 8,
{
    (((b[0] as u64) << 56) | ((b[1] as u64) << 48) | ((b[2] as u64) << 40) | ((b[3] as u64) << 32)
        | ((b[4] as u64) << 24) | ((b[5] as u64) << 16) | ((b[6] as u64) << 8) | (b[7] as u64))
}

proof fn lemma_u64_be_round_trip(b: Seq<u8>)
    requires
        b.len() == 8,
    ensures
        u64_be(u64_from_be(b)) =~= b,
{
    let c0 = b[0];
    let c1 = b[1];
    let c2 = b[2];
    let c3 = b[3];
    let c4 = b[4];
    let c5 = b[5];
    let c6 = b[6];
    let c7 = b[7];
    let n = u64_from_be(b);
    assert(n == ((c0 as u64) << 56) | ((c1 as u64) << 48) | ((c2 as u64) << 40) | ((c3 as u64)
        << 32) | ((c4 as u64) << 24) | ((c5 as u64) << 16) | ((c6 as u64) << 8) | (c7 as u64));
    assert({
        let m = ((c0 as u64) << 56) | ((c1 as u64) << 48) | ((c2 as u64) << 40) | ((c3 as u64)
            << 32) | ((c4 as u64) << 24) | ((c5 as u64) << 16) | ((c6 as u64) << 8) | (c7 as u64);
        &&& ((m >> 56) & 0xff) as u8 == c0
        &&& ((m >> 48) & 0xff) as u8 == c1
        &&& ((m >> 40) & 0xff) as u8 == c2
        &&& ((m >> 32) & 0xff) as u8 == c3
        &&& ((m >> 24) & 0xff) as u8 == c4
        &&& ((m >> 16) & 0xff) as u8 == c5
        &&& ((m >> 8) & 0xff) as u8 == c6
        &&& (m & 0xff) as u8 == c7
    }) by (bit_vector);
}

proof fn lemma_i64_u64_round_trip(n: u64)
    ensures
        ((n as i64) as u64) == n,
{
    assert((n as i64) as u64 == n) by (bit_vector);
}

/// Appends the eight big-endian bytes of `n`.
fn push_u64_be(out: &mut Vec<u8>, n: u64)
    ensures
        final(out)@ =~= old(out)@ + u64_be(n),
{
    out.push(((n >> 56) & 0xff) as u8);
    out.push(((n >> 48) & 0xff) as u8);
    out.push(((n >> 40) & 0xff) as u8);
    out.push(((n >> 32) & 0xff) as u8);
    out.push(((n >> 24) & 0xff) as u8);
    out.push(((n >> 16) & 0xff) as u8);
    out.push(((n >> 8) & 0xff) as u8);
    out.push((n & 0xff) as u8);
}

/// Reads the eight big-endian bytes at `pos`.
fn read_u64_be(bytes: &[u8], pos: usize) -> (n: u64)
    requires
        pos + 8 <= bytes@.len(),
    ensures
        n == u64_from_be(bytes@.subrange(pos as int, pos + 8)),
        u64_be(n) =~= bytes@.subrange(pos as int, pos + 8),
{
    let n = ((bytes[pos] as u64) << 56) | ((bytes[pos + 1] as u64) << 48) | ((bytes[pos + 2]
        as u64) << 40) | ((bytes[pos + 3] as u64) << 32) | ((bytes[pos + 4] as u64) << 24) | ((
    bytes[pos + 5] as u64) << 16) | ((bytes[pos + 6] as u64) << 8) | (bytes[pos + 7] as u64);
    proof {
        let seg = bytes@.subrange(pos as int, pos + 8);
        assert(seg[0] == bytes@[pos as int] && seg[1] == bytes@[pos + 1] && seg[2] == bytes@[pos
            + 2] && seg[3] == bytes@[pos + 3] && seg[4] == bytes@[pos + 4] && seg[5] == bytes@[pos
            + 5] && seg[6] == bytes@[pos + 6] && seg[7] == bytes@[pos + 7]);
        lemma_u64_be_round_trip(seg);
    }
    n
}

/// The compact binary form of a value, as framed on the wire: a one-byte
/// tag, fixed-width big-endian words, and length-prefixed strings,
/// sequences and objects. This framing is the library's own form, not
/// CBOR: a host that speaks another wire protocol converts its frames at
/// the boundary.
pub open spec fn spec_encode(v: Value) -> Seq<u8>
    decreases v,
{
    match v {
        Value::Null => seq![0u8],
        Value::Bool(b) => if b {
            seq![2u8]
        } else {
            seq![1u8]
        },
        Value::Int(i) => seq![3u8] + u64_be(i as u64),
        Value::Strand(s) => seq![4u8] + u64_be(encode_utf8(s@).len() as u64) + encode_utf8(s@),
        Value::Array(vs) => seq![5u8] + u64_be(vs@.len() as u64) + encode_seq(vs@),
        Value::Object(fs) => seq![6u8] + u64_be(fs@.len() as u64) + encode_pairs(fs@),
    }
}

pub open spec fn encode_seq(vs: Seq<Value>) -> Seq<u8>
    decreases vs,
{
    if vs.len() == 0 {
        Seq::empty()
    } else {
        spec_encode(vs[0]) + encode_seq(vs.drop_first())
    }
}

pub open spec fn encode_pairs(fs: Seq<(String, Value)>) -> Seq<u8>
    decreases fs,
{
    if fs.len() == 0 {
        Seq::empty()
    } else {
        u64_be(encode_utf8(fs[0].0@).len() as u64) + encode_utf8(fs[0].0@) + spec_encode(fs[0].1)
            + encode_pairs(fs.drop_first())
    }
}

proof fn lemma_encode_seq_push(vs: Seq<Value>, v: Value)
    ensures
        encode_seq(vs.push(v)) =~= encode_seq(vs) + spec_encode(v),
    decreases vs.len(),
{
    let p = vs.push(v);
    assert(encode_seq(p) == spec_encode(p[0]) + encode_seq(p.drop_first()));
    if vs.len() == 0 {
        assert(p[0] == v);
        assert(p.drop_first() =~= Seq::<Value>::empty());
        assert(encode_seq(p.drop_first()) == Seq::<u8>::empty());
        assert(encode_seq(p) =~= spec_encode(v));
        assert(encode_seq(vs) == Seq::<u8>::empty());
    } else {
        assert(p[0] == vs[0]);
        assert(p.drop_first() =~= vs.drop_first().push(v));
        lemma_encode_seq_push(vs.drop_first(), v);
        assert(encode_seq(p.drop_first()) =~= encode_seq(vs.drop_first()) + spec_encode(v));
        assert(encode_seq(vs) == spec_encode(vs[0]) + encode_seq(vs.drop_first()));
        assert(spec_encode(vs[0]) + (encode_seq(vs.drop_first()) + spec_encode(v)) =~= (
        spec_encode(vs[0]) + encode_seq(vs.drop_first())) + spec_encode(v));
    }
}

proof fn lemma_encode_pairs_push(fs: Seq<(String, Value)>, pair: (String, Value))
    ensures
        encode_pairs(fs.push(pair)) =~= encode_pairs(fs) + (u64_be(
            encode_utf8(pair.0@).len() as u64,
        ) + encode_utf8(pair.0@) + spec_encode(pair.1)),
    decreases fs.len(),
{
    let p = fs.push(pair);
    assert(encode_pairs(p) == u64_be(encode_utf8(p[0].0@).len() as u64) + encode_utf8(p[0].0@)
        + spec_encode(p[0].1) + encode_pairs(p.drop_first()));
    if fs.len() == 0 {
        assert(p[0] == pair);
        assert(p.drop_first() =~= Seq::<(String, Value)>::empty());
        assert(encode_pairs(p.drop_first()) == Seq::<u8>::empty());
        assert(encode_pairs(p) =~= u64_be(encode_utf8(pair.0@).len() as u64) + encode_utf8(
            pair.0@,
        ) + spec_encode(pair.1));
        assert(encode_pairs(fs) == Seq::<u8>::empty());
        assert(encode_pairs(fs) + (u64_be(encode_utf8(pair.0@).len() as u64) + encode_utf8(
            pair.0@,
        ) + spec_encode(pair.1)) =~= u64_be(encode_utf8(pair.0@).len() as u64) + encode_utf8(
            pair.0@,
        ) + spec_encode(pair.1));
    } else {
        assert(p[0] == fs[0]);
        assert(p.drop_first() =~= fs.drop_first().push(pair));
        lemma_encode_pairs_push(fs.drop_first(), pair);
        assert(encode_pairs(fs) == u64_be(encode_utf8(fs[0].0@).len() as u64) + encode_utf8(
            fs[0].0@,
        ) + spec_encode(fs[0].1) + encode_pairs(fs.drop_first()));
        assert(encode_pairs(p) =~= encode_pairs(fs) + (u64_be(encode_utf8(pair.0@).len() as u64)
            + encode_utf8(pair.0@) + spec_encode(pair.1)));
    }
}

/// Appends a slice's bytes.
fn append_bytes(out: &mut Vec<u8>, b: &[u8])
    ensures
        final(out)@ =~= old(out)@ + b@,
{
    let mut j: usize = 0;
    while j < b.len()
        invariant
            0 <= j <= b@.len(),
            out@ =~= old(out)@ + b@.take(j as int),
        decreases b@.len() - j,
    {
        out.push(b[j]);
        proof {
            assert(b@.take(j + 1) =~= b@.take(j as int).push(b@[j as int]));
        }
        j += 1;
    }
    proof {
        assert(b@.take(b@.len() as int) =~= b@);
    }
}

proof fn lemma_u64_from_of_be(n: u64)
    ensures
        u64_from_be(u64_be(n)) == n,
{
    assert((((((n >> 56) & 0xff) as u8) as u64) << 56) | (((((n >> 48) & 0xff) as u8) as u64)
        << 48) | (((((n >> 40) & 0xff) as u8) as u64) << 40) | (((((n >> 32) & 0xff) as u8) as u64)
        << 32) | (((((n >> 24) & 0xff) as u8) as u64) << 24) | (((((n >> 16) & 0xff) as u8) as u64)
        << 16) | (((((n >> 8) & 0xff) as u8) as u64) << 8) | (((n & 0xff) as u8) as u64) == n)
        by (bit_vector);
}

/// Two words with the same big-endian bytes are the same word.
proof fn lemma_u64_be_injective(a: u64, b: u64)
    requires
        u64_be(a) == u64_be(b),
    ensures
        a == b,
{
    lemma_u64_from_of_be(a);
    lemma_u64_from_of_be(b);
}

proof fn lemma_i64_cast_round_trip(x: i64)
    ensures
        ((x as u64) as i64) == x,
{
    assert((x as u64) as i64 == x) by (bit_vector);
}

/// Deep structural equality of values, comparing strings by content.
pub open spec fn value_eq(a: Value, b: Value) -> bool
    decreases a,
{
    match (a, b) {
        (Value::Null, Value::Null) => true,
        (Value::Bool(x), Value::Bool(y)) => x == y,
        (Value::Int(x), Value::Int(y)) => x == y,
        (Value::Strand(x), Value::Strand(y)) => x@ == y@,
        (Value::Array(xs), Value::Array(ys)) => xs@.len() == ys@.len() && (forall|i: int|
            0 <= i < xs@.len() ==> value_eq(#[trigger] xs@[i], ys@[i])),
        (Value::Object(xs), Value::Object(ys)) => xs@.len() == ys@.len() && (forall|i: int|
            0 <= i < xs@.len() ==> (#[trigger] xs@[i]).0@ == ys@[i].0@ && value_eq(
                xs@[i].1,
                ys@[i].1,
            )),
        _ => false,
    }
}

/// A value whose string, sequence and object lengths all fit the wire's
/// 64-bit counters; every value built in running code is one.
pub open spec fn encodable(v: Value) -> bool
    decreases v,
{
    match v {
        Value::Null => true,
        Value::Bool(_) => true,
        Value::Int(_) => true,
        Value::Strand(s) => encode_utf8(s@).len() <= u64::MAX,
        Value::Array(vs) => vs@.len() <= u64::MAX && (forall|i: int|
            0 <= i < vs@.len() ==> encodable(#[trigger] vs@[i])),
        Value::Object(fs) => fs@.len() <= u64::MAX && (forall|i: int|
            0 <= i < fs@.len() ==> encode_utf8((#[trigger] fs@[i]).0@).len() <= u64::MAX
                && encodable(fs@[i].1)),
    }
}

proof fn lemma_encode_utf8_injective_chars(a: Seq<char>, b: Seq<char>)
    requires
        encode_utf8(a) == encode_utf8(b),
    ensures
        a == b,
{
    assert(vstd::utf8::decode_utf8(encode_utf8(a)) == a);
    assert(vstd::utf8::decode_utf8(encode_utf8(b)) == b);
}

proof fn lemma_utf8_block_unambiguous(s1: Seq<char>, s2: Seq<char>, r1: Seq<u8>, r2: Seq<u8>)
    requires
        encode_utf8(s1).len() <= u64::MAX,
        encode_utf8(s2).len() <= u64::MAX,
        u64_be(encode_utf8(s1).len() as u64) + encode_utf8(s1) + r1 == u64_be(
            encode_utf8(s2).len() as u64,
        ) + encode_utf8(s2) + r2,
    ensures
        s1 == s2,
        r1 == r2,
{
    let e1 = encode_utf8(s1);
    let e2 = encode_utf8(s2);
    let t = u64_be(e1.len() as u64) + e1 + r1;
    assert(u64_be(e1.len() as u64) =~= t.subrange(0, 8));
    assert(u64_be(e2.len() as u64) =~= t.subrange(0, 8));
    lemma_u64_be_injective(e1.len() as u64, e2.len() as u64);
    assert(e1.len() == e2.len());
    assert(e1 =~= t.subrange(8, 8 + e1.len() as int));
    assert(e2 =~= t.subrange(8, 8 + e1.len() as int));
    lemma_encode_utf8_injective_chars(s1, s2);
    assert(r1 =~= t.subrange(8 + e1.len() as int, t.len() as int));
    assert(r2 =~= t.subrange(8 + e1.len() as int, t.len() as int));
}

/// The framing is prefix-free: where one value's encoding begins, only
/// that value's own bytes can follow it, so a buffer spells at most one
/// value.
pub proof fn lemma_encoding_unambiguous(v1: Value, v2: Value, r1: Seq<u8>, r2: Seq<u8>)
    requires
        encodable(v1),
        encodable(v2),
        spec_encode(v1) + r1 == spec_encode(v2) + r2,
    ensures
        value_eq(v1, v2),
        r1 == r2,
    decreases v1,
{
    let t = spec_encode(v1) + r1;
    assert(spec_encode(v1)[0] == t[0]);
    assert(spec_encode(v2)[0] == t[0]);
    match (v1, v2) {
        (Value::Null, Value::Null) => {
            assert(r1 =~= t.subrange(1, t.len() as int));
            assert(r2 =~= t.subrange(1, t.len() as int));
        },
        (Value::Bool(x), Value::Bool(y)) => {
            assert(x == y);
            assert(r1 =~= t.subrange(1, t.len() as int));
            assert(r2 =~= t.subrange(1, t.len() as int));
        },
        (Value::Int(x), Value::Int(y)) => {
            assert(u64_be(x as u64) =~= t.subrange(1, 9));
            assert(u64_be(y as u64) =~= t.subrange(1, 9));
            lemma_u64_be_injective(x as u64, y as u64);
            lemma_i64_cast_round_trip(x);
            lemma_i64_cast_round_trip(y);
            assert(r1 =~= t.subrange(9, t.len() as int));
            assert(r2 =~= t.subrange(9, t.len() as int));
        },
        (Value::Strand(x), Value::Strand(y)) => {
            let tail = t.subrange(1, t.len() as int);
            assert(u64_be(encode_utf8(x@).len() as u64) + encode_utf8(x@) + r1 =~= tail);
            assert(u64_be(encode_utf8(y@).len() as u64) + encode_utf8(y@) + r2 =~= tail);
            lemma_utf8_block_unambiguous(x@, y@, r1, r2);
        },
        (Value::Array(xs), Value::Array(ys)) => {
            assert(u64_be(xs@.len() as u64) =~= t.subrange(1, 9));
            assert(u64_be(ys@.len() as u64) =~= t.subrange(1, 9));
            lemma_u64_be_injective(xs@.len() as u64, ys@.len() as u64);
            assert(xs@.len() == ys@.len());
            let tail = t.subrange(9, t.len() as int);
            assert(encode_seq(xs@) + r1 =~= tail);
            assert(encode_seq(ys@) + r2 =~= tail);
            assert(decreases_to!(v1 => v1->Array_0));
            lemma_encode_seq_unambiguous(xs@, ys@, r1, r2);
        },
        (Value::Object(xs), Value::Object(ys)) => {
            assert(u64_be(xs@.len() as u64) =~= t.subrange(1, 9));
            assert(u64_be(ys@.len() as u64) =~= t.subrange(1, 9));
            lemma_u64_be_injective(xs@.len() as u64, ys@.len() as u64);
            assert(xs@.len() == ys@.len());
            let tail = t.subrange(9, t.len() as int);
            assert(encode_pairs(xs@) + r1 =~= tail);
            assert(encode_pairs(ys@) + r2 =~= tail);
            assert(decreases_to!(v1 => v1->Object_0));
            lemma_encode_pairs_unambiguous(xs@, ys@, r1, r2);
        },
        _ => {
            assert(false);
        },
    }
}

proof fn lemma_encode_seq_unambiguous(vs1: Seq<Value>, vs2: Seq<Value>, r1: Seq<u8>, r2: Seq<u8>)
    requires
        vs1.len() == vs2.len(),
        forall|i: int| 0 <= i < vs1.len() ==> encodable(#[trigger] vs1[i]),
        forall|i: int| 0 <= i < vs2.len() ==> encodable(#[trigger] vs2[i]),
        encode_seq(vs1) + r1 == encode_seq(vs2) + r2,
    ensures
        forall|i: int| 0 <= i < vs1.len() ==> value_eq(#[trigger] vs1[i], vs2[i]),
        r1 == r2,
    decreases vs1,
{
    if vs1.len() == 0 {
        assert(encode_seq(vs1) == Seq::<u8>::empty());
        assert(encode_seq(vs2) == Seq::<u8>::empty());
        assert(r1 =~= r2);
    } else {
        assert(encode_seq(vs1) == spec_encode(vs1[0]) + encode_seq(vs1.drop_first()));
        assert(encode_seq(vs2) == spec_encode(vs2[0]) + encode_seq(vs2.drop_first()));
        assert(spec_encode(vs1[0]) + (encode_seq(vs1.drop_first()) + r1) =~= encode_seq(vs1) + r1);
        assert(spec_encode(vs2[0]) + (encode_seq(vs2.drop_first()) + r2) =~= encode_seq(vs2) + r2);
        assert(decreases_to!(vs1 => vs1[0]));
        lemma_encoding_unambiguous(
            vs1[0],
            vs2[0],
            encode_seq(vs1.drop_first()) + r1,
            encode_seq(vs2.drop_first()) + r2,
        );
        assert forall|i: int| 0 <= i < vs1.drop_first().len() implies encodable(
            #[trigger] vs1.drop_first()[i],
        ) by {
            assert(vs1.drop_first()[i] == vs1[i + 1]);
        }
        assert forall|i: int| 0 <= i < vs2.drop_first().len() implies encodable(
            #[trigger] vs2.drop_first()[i],
        ) by {
            assert(vs2.drop_first()[i] == vs2[i + 1]);
        }
        lemma_encode_seq_unambiguous(vs1.drop_first(), vs2.drop_first(), r1, r2);
        assert forall|i: int| 0 <= i < vs1.len() implies value_eq(#[trigger] vs1[i], vs2[i]) by {
            if i > 0 {
                assert(vs1.drop_first()[i - 1] == vs1[i]);
                assert(vs2.drop_first()[i - 1] == vs2[i]);
            }
        }
    }
}

proof fn lemma_encode_pairs_unambiguous(
    fs1: Seq<(String, Value)>,
    fs2: Seq<(String, Value)>,
    r1: Seq<u8>,
    r2: Seq<u8>,
)
    requires
        fs1.len() == fs2.len(),
        forall|i: int| 0 <= i < fs1.len() ==> encode_utf8((#[trigger] fs1[i]).0@).len()
            <= u64::MAX && encodable(fs1[i].1),
        forall|i: int| 0 <= i < fs2.len() ==> encode_utf8((#[trigger] fs2[i]).0@).len()
            <= u64::MAX && encodable(fs2[i].1),
        encode_pairs(fs1) + r1 == encode_pairs(fs2) + r2,
    ensures
        forall|i: int|
            0 <= i < fs1.len() ==> (#[trigger] fs1[i]).0@ == fs2[i].0@ && value_eq(
                fs1[i].1,
                fs2[i].1,
            ),
        r1 == r2,
    decreases fs1,
{
    if fs1.len() == 0 {
        assert(encode_pairs(fs1) == Seq::<u8>::empty());
        assert(encode_pairs(fs2) == Seq::<u8>::empty());
        assert(r1 =~= r2);
    } else {
        assert(encode_pairs(fs1) == u64_be(encode_utf8(fs1[0].0@).len() as u64) + encode_utf8(
            fs1[0].0@,
        ) + spec_encode(fs1[0].1) + encode_pairs(fs1.drop_first()));
        assert(encode_pairs(fs2) == u64_be(encode_utf8(fs2[0].0@).len() as u64) + encode_utf8(
            fs2[0].0@,
        ) + spec_encode(fs2[0].1) + encode_pairs(fs2.drop_first()));
        assert(u64_be(encode_utf8(fs1[0].0@).len() as u64) + encode_utf8(fs1[0].0@) + (spec_encode(
            fs1[0].1,
        ) + (encode_pairs(fs1.drop_first()) + r1)) =~= encode_pairs(fs1) + r1);
        assert(u64_be(encode_utf8(fs2[0].0@).len() as u64) + encode_utf8(fs2[0].0@) + (spec_encode(
            fs2[0].1,
        ) + (encode_pairs(fs2.drop_first()) + r2)) =~= encode_pairs(fs2) + r2);
        lemma_utf8_block_unambiguous(
            fs1[0].0@,
            fs2[0].0@,
            spec_encode(fs1[0].1) + (encode_pairs(fs1.drop_first()) + r1),
            spec_encode(fs2[0].1) + (encode_pairs(fs2.drop_first()) + r2),
        );
        assert(decreases_to!(fs1 => fs1[0]));
        assert(decreases_to!(fs1[0] => fs1[0].1));
        lemma_encoding_unambiguous(
            fs1[0].1,
            fs2[0].1,
            encode_pairs(fs1.drop_first()) + r1,
            encode_pairs(fs2.drop_first()) + r2,
        );
        assert forall|i: int| 0 <= i < fs1.drop_first().len() implies encode_utf8(
            (#[trigger] fs1.drop_first()[i]).0@,
        ).len() <= u64::MAX && encodable(fs1.drop_first()[i].1) by {
            assert(fs1.drop_first()[i] == fs1[i + 1]);
        }
        assert forall|i: int| 0 <= i < fs2.drop_first().len() implies encode_utf8(
            (#[trigger] fs2.drop_first()[i]).0@,
        ).len() <= u64::MAX && encodable(fs2.drop_first()[i].1) by {
            assert(fs2.drop_first()[i] == fs2[i + 1]);
        }
        lemma_encode_pairs_unambiguous(fs1.drop_first(), fs2.drop_first(), r1, r2);
        assert forall|i: int|
            0 <= i < fs1.len() implies (#[trigger] fs1[i]).0@ == fs2[i].0@ && value_eq(
            fs1[i].1,
            fs2[i].1,
        ) by {
            if i > 0 {
                assert(fs1.drop_first()[i - 1] == fs1[i]);
                assert(fs2.drop_first()[i - 1] == fs2[i]);
            }
        }
    }
}

/// Some encodable value's encoding occupies exactly `b[pos..end]`.
pub open spec fn value_at(b: Seq<u8>, pos: int, v: Value, end: int) -> bool {
    &&& 0 <= pos <= end <= b.len()
    &&& encodable(v)
    &&& spec_encode(v) == b.subrange(pos, end)
}

/// Some framed string block occupies exactly `b[pos..end]`.
pub open spec fn string_block_at(b: Seq<u8>, pos: int, s: Seq<char>, end: int) -> bool {
    &&& 0 <= pos <= end <= b.len()
    &&& encode_utf8(s).len() <= u64::MAX
    &&& u64_be(encode_utf8(s).len() as u64) + encode_utf8(s) == b.subrange(pos, end)
}

/// The first byte of an encoding names its variant, and each variant's
/// encoding has a known length or lower bound.
proof fn lemma_spec_encode_shape(v: Value)
    ensures
        spec_encode(v).len() >= 1,
        0 <= spec_encode(v)[0] <= 6,
        v is Null <==> spec_encode(v)[0] == 0,
        v is Bool <==> (spec_encode(v)[0] == 1 || spec_encode(v)[0] == 2),
        v is Int <==> spec_encode(v)[0] == 3,
        v is Strand <==> spec_encode(v)[0] == 4,
        v is Array <==> spec_encode(v)[0] == 5,
        v is Object <==> spec_encode(v)[0] == 6,
        v is Null || v is Bool ==> spec_encode(v).len() == 1,
        v is Int ==> spec_encode(v).len() == 9,
        v is Strand ==> spec_encode(v).len() == 9 + encode_utf8(v->Strand_0@).len(),
        v is Array ==> spec_encode(v).len() >= 9,
        v is Object ==> spec_encode(v).len() >= 9,
{
    match v {
        Value::Null => {},
        Value::Bool(_) => {},
        Value::Int(_) => {},
        Value::Strand(_) => {},
        Value::Array(_) => {},
        Value::Object(_) => {},
    }
}

/// Aligning a decoded element prefix with a hypothetical full sequence:
/// the shorter prefix pins the longer sequence's head, and what follows
/// the prefix is the remaining elements' encodings.
proof fn lemma_encode_seq_align(vs1: Seq<Value>, vs2: Seq<Value>, r1: Seq<u8>, r2: Seq<u8>)
    requires
        vs1.len() <= vs2.len(),
        forall|i: int| 0 <= i < vs1.len() ==> encodable(#[trigger] vs1[i]),
        forall|i: int| 0 <= i < vs2.len() ==> encodable(#[trigger] vs2[i]),
        encode_seq(vs1) + r1 == encode_seq(vs2) + r2,
    ensures
        r1 == encode_seq(vs2.skip(vs1.len() as int)) + r2,
    decreases vs1,
{
    if vs1.len() == 0 {
        assert(vs2.skip(0) =~= vs2);
        assert(r1 =~= encode_seq(vs2) + r2);
    } else {
        assert(encode_seq(vs1) == spec_encode(vs1[0]) + encode_seq(vs1.drop_first()));
        assert(encode_seq(vs2) == spec_encode(vs2[0]) + encode_seq(vs2.drop_first()));
        assert(spec_encode(vs1[0]) + (encode_seq(vs1.drop_first()) + r1) =~= encode_seq(vs1) + r1);
        assert(spec_encode(vs2[0]) + (encode_seq(vs2.drop_first()) + r2) =~= encode_seq(vs2) + r2);
        assert(decreases_to!(vs1 => vs1[0]));
        lemma_encoding_unambiguous(
            vs1[0],
            vs2[0],
            encode_seq(vs1.drop_first()) + r1,
            encode_seq(vs2.drop_first()) + r2,
        );
        assert forall|i: int| 0 <= i < vs1.drop_first().len() implies encodable(
            #[trigger] vs1.drop_first()[i],
        ) by {
            assert(vs1.drop_first()[i] == vs1[i + 1]);
        }
        assert forall|i: int| 0 <= i < vs2.drop_first().len() implies encodable(
            #[trigger] vs2.drop_first()[i],
        ) by {
            assert(vs2.drop_first()[i] == vs2[i + 1]);
        }
        lemma_encode_seq_align(vs1.drop_first(), vs2.drop_first(), r1, r2);
        assert(vs2.drop_first().skip(vs1.len() - 1) =~= vs2.skip(vs1.len() as int));
    }
}

/// The pairwise counterpart of the element alignment, for object fields.
proof fn lemma_encode_pairs_align(
    fs1: Seq<(String, Value)>,
    fs2: Seq<(String, Value)>,
    r1: Seq<u8>,
    r2: Seq<u8>,
)
    requires
        fs1.len() <= fs2.len(),
        forall|i: int| 0 <= i < fs1.len() ==> encode_utf8((#[trigger] fs1[i]).0@).len()
            <= u64::MAX && encodable(fs1[i].1),
        forall|i: int| 0 <= i < fs2.len() ==> encode_utf8((#[trigger] fs2[i]).0@).len()
            <= u64::MAX && encodable(fs2[i].1),
        encode_pairs(fs1) + r1 == encode_pairs(fs2) + r2,
    ensures
        r1 == encode_pairs(fs2.skip(fs1.len() as int)) + r2,
    decreases fs1,
{
    if fs1.len() == 0 {
        assert(fs2.skip(0) =~= fs2);
        assert(r1 =~= encode_pairs(fs2) + r2);
    } else {
        assert(encode_pairs(fs1) == u64_be(encode_utf8(fs1[0].0@).len() as u64) + encode_utf8(
            fs1[0].0@,
        ) + spec_encode(fs1[0].1) + encode_pairs(fs1.drop_first()));
        assert(encode_pairs(fs2) == u64_be(encode_utf8(fs2[0].0@).len() as u64) + encode_utf8(
            fs2[0].0@,
        ) + spec_encode(fs2[0].1) + encode_pairs(fs2.drop_first()));
        assert(u64_be(encode_utf8(fs1[0].0@).len() as u64) + encode_utf8(fs1[0].0@) + (spec_encode(
            fs1[0].1,
        ) + (encode_pairs(fs1.drop_first()) + r1)) =~= encode_pairs(fs1) + r1);
        assert(u64_be(encode_utf8(fs2[0].0@).len() as u64) + encode_utf8(fs2[0].0@) + (spec_encode(
            fs2[0].1,
        ) + (encode_pairs(fs2.drop_first()) + r2)) =~= encode_pairs(fs2) + r2);
        lemma_utf8_block_unambiguous(
            fs1[0].0@,
            fs2[0].0@,
            spec_encode(fs1[0].1) + (encode_pairs(fs1.drop_first()) + r1),
            spec_encode(fs2[0].1) + (encode_pairs(fs2.drop_first()) + r2),
        );
        assert(decreases_to!(fs1 => fs1[0]));
        assert(decreases_to!(fs1[0] => fs1[0].1));
        lemma_encoding_unambiguous(
            fs1[0].1,
            fs2[0].1,
            encode_pairs(fs1.drop_first()) + r1,
            encode_pairs(fs2.drop_first()) + r2,
        );
        assert forall|i: int| 0 <= i < fs1.drop_first().len() implies encode_utf8(
            (#[trigger] fs1.drop_first()[i]).0@,
        ).len() <= u64::MAX && encodable(fs1.drop_first()[i].1) by {
            assert(fs1.drop_first()[i] == fs1[i + 1]);
        }
        assert forall|i: int| 0 <= i < fs2.drop_first().len() implies encode_utf8(
            (#[trigger] fs2.drop_first()[i]).0@,
        ).len() <= u64::MAX && encodable(fs2.drop_first()[i].1) by {
            assert(fs2.drop_first()[i] == fs2[i + 1]);
        }
        lemma_encode_pairs_align(fs1.drop_first(), fs2.drop_first(), r1, r2);
        assert(fs2.drop_first().skip(fs1.len() - 1) =~= fs2.skip(fs1.len() as int));
    }
}

/// Field lists equal pair for pair (keys by content, values structurally)
/// answer every lookup alike.
proof fn lemma_lookup_value_eq(f1: Seq<(String, Value)>, f2: Seq<(String, Value)>, key: Seq<char>)
    requires
        f1.len() == f2.len(),
        forall|i: int|
            0 <= i < f1.len() ==> (#[trigger] f1[i]).0@ == f2[i].0@ && value_eq(f1[i].1, f2[i].1),
    ensures
        lookup(f1, key) is Some <==> lookup(f2, key) is Some,
        lookup(f1, key) is Some ==> value_eq(lookup(f1, key)->0, lookup(f2, key)->0),
    decreases f1.len(),
{
    if f1.len() == 0 {
    } else {
        assert(f1[0].0@ == f2[0].0@ && value_eq(f1[0].1, f2[0].1));
        if f1[0].0@ == key {
        } else {
            let t1 = f1.drop_first();
            let t2 = f2.drop_first();
            assert forall|i: int| 0 <= i < t1.len() implies (#[trigger] t1[i]).0@ == t2[i].0@
                && value_eq(t1[i].1, t2[i].1) by {
                assert(t1[i] == f1[i + 1]);
                assert(t2[i] == f2[i + 1]);
            }
            lemma_lookup_value_eq(t1, t2, key);
        }
    }
}

proof fn lemma_string_block_parts(b: Seq<u8>, pos: int, s: Seq<char>, end: int)
    requires
        string_block_at(b, pos, s, end),
    ensures
        end - pos == 8 + encode_utf8(s).len(),
        u64_be(encode_utf8(s).len() as u64) =~= b.subrange(pos, pos + 8),
        encode_utf8(s) =~= b.subrange(pos + 8, end),
{
    let e = encode_utf8(s);
    let blk = u64_be(e.len() as u64) + e;
    assert(u64_be(e.len() as u64).len() == 8);
    assert(blk.len() == 8 + e.len());
    assert(b.subrange(pos, end).len() == end - pos);
    assert forall|i: int| 0 <= i < 8 implies u64_be(e.len() as u64)[i] == #[trigger] b.subrange(
        pos,
        pos + 8,
    )[i] by {
        assert(blk[i] == b.subrange(pos, end)[i]);
    }
    assert(u64_be(e.len() as u64) =~= b.subrange(pos, pos + 8));
    assert forall|i: int| 0 <= i < e.len() implies e[i] == #[trigger] b.subrange(
        pos + 8,
        end,
    )[i] by {
        assert(blk[8 + i] == b.subrange(pos, end)[8 + i]);
    }
    assert(e =~= b.subrange(pos + 8, end));
}

/// Reads a length-prefixed string at `pos`; the bytes consumed are exactly
/// the string's own framed form, and a failure means no framed string
/// stands at `pos` at all.
fn read_string(bytes: &[u8], pos: usize) -> (r: Result<(String, usize), Error>)
    requires
        pos <= bytes@.len(),
    ensures
        r matches Ok(p) ==> pos < p.1 <= bytes@.len() && u64_be(encode_utf8(p.0@).len() as u64)
            + encode_utf8(p.0@) =~= bytes@.subrange(pos as int, p.1 as int),
        r matches Err(e) ==> e.kind == ErrorKind::Encoding && forall|s: Seq<char>, end: int|
            !string_block_at(bytes@, pos as int, s, end),
{
    let ghost b = bytes@;
    if bytes.len() - pos < 8 {
        proof {
            assert forall|s: Seq<char>, end: int| !string_block_at(b, pos as int, s, end) by {
                if string_block_at(b, pos as int, s, end) {
                    lemma_string_block_parts(b, pos as int, s, end);
                    assert(end - pos >= 8);
                }
            }
        }
        return Err(Error::new(ErrorKind::Encoding, "unexpected end of frame".to_owned()));
    }
    let n = read_u64_be(bytes, pos);
    let start = pos + 8;
    if n > (bytes.len() - start) as u64 {
        proof {
            assert forall|s: Seq<char>, end: int| !string_block_at(b, pos as int, s, end) by {
                if string_block_at(b, pos as int, s, end) {
                    lemma_string_block_parts(b, pos as int, s, end);
                    let sl = encode_utf8(s).len();
                    lemma_u64_be_injective(sl as u64, n);
                    assert(end == pos + 8 + sl);
                    assert(sl <= b.len() - start);
                    assert(n as int <= b.len() - start);
                }
            }
        }
        return Err(Error::new(ErrorKind::Encoding, "string runs past the frame".to_owned()));
    }
    proof {
        assert(n as int <= b.len() - start);
    }
    let mut buf: Vec<u8> = Vec::new();
    let mut k: usize = 0;
    while (k as u64) < n
        invariant
            b == bytes@,
            pos + 8 == start,
            start <= b.len(),
            b.len() <= usize::MAX,
            n as int <= b.len() - start,
            k as u64 <= n,
            start + k <= b.len(),
            buf@ =~= b.subrange(start as int, start + k),
        decreases n - k as u64,
    {
        proof {
            assert(k < b.len() - start);
        }
        buf.push(bytes[start + k]);
        proof {
            assert(b.subrange(start as int, start + k + 1) =~= b.subrange(
                start as int,
                start + k,
            ).push(b[start + k]));
        }
        k += 1;
    }
    let end = start + k;
    let ghost bv = buf@;
    match string_from_utf8(buf) {
        Option::Some(s) => {
            proof {
                assert(encode_utf8(s@) == bv);
                assert(bv.len() as u64 == n);
                assert(b.subrange(pos as int, end as int) =~= u64_be(n) + bv);
            }
            Ok((s, end))
        },
        Option::None => {
            proof {
                assert forall|s: Seq<char>, end: int| !string_block_at(b, pos as int, s, end) by {
                    if string_block_at(b, pos as int, s, end) {
                        lemma_string_block_parts(b, pos as int, s, end);
                        let sl = encode_utf8(s).len();
                        lemma_u64_be_injective(sl as u64, n);
                        assert(sl == n as int);
                        assert(end == pos + 8 + sl);
                        assert(encode_utf8(s) =~= b.subrange(start as int, start + sl));
                        assert(encode_utf8(s) == bv);
                        assert(vstd::utf8::valid_utf8(encode_utf8(s)));
                    }
                }
            }
            Err(Error::new(ErrorKind::Encoding, "string is not valid text".to_owned()))
        },
    }
}

proof fn lemma_value_at_head(b: Seq<u8>, pos: int, v: Value, end: int)
    requires
        value_at(b, pos, v, end),
    ensures
        pos < b.len(),
        end - pos == spec_encode(v).len(),
        spec_encode(v)[0] == b[pos],
{
    lemma_spec_encode_shape(v);
    assert(b.subrange(pos, end).len() == end - pos);
    assert(spec_encode(v)[0] == b.subrange(pos, end)[0]);
    assert(b.subrange(pos, end)[0] == b[pos]);
}

proof fn lemma_value_at_array_parts(b: Seq<u8>, pos: int, v: Value, end: int)
    requires
        value_at(b, pos, v, end),
        v is Array,
    ensures
        end >= pos + 9,
        u64_be(v->Array_0@.len() as u64) =~= b.subrange(pos + 1, pos + 9),
        encode_seq(v->Array_0@) =~= b.subrange(pos + 9, end),
{
    lemma_value_at_head(b, pos, v, end);
    let vs = v->Array_0@;
    let enc = spec_encode(v);
    assert(enc == seq![5u8] + u64_be(vs.len() as u64) + encode_seq(vs));
    assert(enc.len() == 9 + encode_seq(vs).len());
    assert forall|i: int| 0 <= i < 8 implies u64_be(vs.len() as u64)[i] == #[trigger] b.subrange(
        pos + 1,
        pos + 9,
    )[i] by {
        assert(enc[1 + i] == b.subrange(pos, end)[1 + i]);
        assert(enc[1 + i] == u64_be(vs.len() as u64)[i]);
    }
    assert(u64_be(vs.len() as u64) =~= b.subrange(pos + 1, pos + 9));
    assert forall|i: int| 0 <= i < encode_seq(vs).len() implies encode_seq(vs)[i]
        == #[trigger] b.subrange(pos + 9, end)[i] by {
        assert(enc[9 + i] == b.subrange(pos, end)[9 + i]);
        assert(enc[9 + i] == encode_seq(vs)[i]);
    }
    assert(encode_seq(vs) =~= b.subrange(pos + 9, end));
}

proof fn lemma_value_at_object_parts(b: Seq<u8>, pos: int, v: Value, end: int)
    requires
        value_at(b, pos, v, end),
        v is Object,
    ensures
        end >= pos + 9,
        u64_be(v->Object_0@.len() as u64) =~= b.subrange(pos + 1, pos + 9),
        encode_pairs(v->Object_0@) =~= b.subrange(pos + 9, end),
{
    lemma_value_at_head(b, pos, v, end);
    let fs = v->Object_0@;
    let enc = spec_encode(v);
    assert(enc == seq![6u8] + u64_be(fs.len() as u64) + encode_pairs(fs));
    assert(enc.len() == 9 + encode_pairs(fs).len());
    assert forall|i: int| 0 <= i < 8 implies u64_be(fs.len() as u64)[i] == #[trigger] b.subrange(
        pos + 1,
        pos + 9,
    )[i] by {
        assert(enc[1 + i] == b.subrange(pos, end)[1 + i]);
        assert(enc[1 + i] == u64_be(fs.len() as u64)[i]);
    }
    assert(u64_be(fs.len() as u64) =~= b.subrange(pos + 1, pos + 9));
    assert forall|i: int| 0 <= i < encode_pairs(fs).len() implies encode_pairs(fs)[i]
        == #[trigger] b.subrange(pos + 9, end)[i] by {
        assert(enc[9 + i] == b.subrange(pos, end)[9 + i]);
        assert(enc[9 + i] == encode_pairs(fs)[i]);
    }
    assert(encode_pairs(fs) =~= b.subrange(pos + 9, end));
}

/// Reads the value framed at `pos`. A successful read consumes exactly the
/// value's own encoding: whatever this decoder accepts is, byte for byte,
/// what the encoder writes for the value it returns. A failure means no
/// encodable value's encoding stands at `pos` at all.
fn decode_at(bytes: &[u8], pos: usize) -> (r: Result<(Value, usize), Error>)
    requires
        pos <= bytes@.len(),
    ensures
        r matches Ok(p) ==> pos < p.1 <= bytes@.len() && encodable(p.0) && spec_encode(p.0)
            =~= bytes@.subrange(pos as int, p.1 as int),
        r matches Err(e) ==> e.kind == ErrorKind::Encoding && forall|v: Value, vend: int|
            !value_at(bytes@, pos as int, v, vend),
    decreases bytes@.len() - pos,
{
    let ghost b = bytes@;
    if pos >= bytes.len() {
        proof {
            assert forall|v: Value, vend: int| !value_at(b, pos as int, v, vend) by {
                if value_at(b, pos as int, v, vend) {
                    lemma_value_at_head(b, pos as int, v, vend);
                }
            }
        }
        return Err(Error::new(ErrorKind::Encoding, "unexpected end of frame".to_owned()));
    }
    let tag = bytes[pos];
    if tag == 0 {
        proof {
            assert(b.subrange(pos as int, pos + 1) =~= spec_encode(Value::Null));
        }
        Ok((Value::Null, pos + 1))
    } else if tag == 1 {
        proof {
            assert(b.subrange(pos as int, pos + 1) =~= spec_encode(Value::Bool(false)));
        }
        Ok((Value::Bool(false), pos + 1))
    } else if tag == 2 {
        proof {
            assert(b.subrange(pos as int, pos + 1) =~= spec_encode(Value::Bool(true)));
        }
        Ok((Value::Bool(true), pos + 1))
    } else if tag == 3 {
        if bytes.len() - pos < 9 {
            proof {
                assert forall|v: Value, vend: int| !value_at(b, pos as int, v, vend) by {
                    if value_at(b, pos as int, v, vend) {
                        lemma_value_at_head(b, pos as int, v, vend);
                        lemma_spec_encode_shape(v);
                        assert(v is Int);
                        assert(vend == pos + 9);
                    }
                }
            }
            return Err(Error::new(ErrorKind::Encoding, "unexpected end of frame".to_owned()));
        }
        let n = read_u64_be(bytes, pos + 1);
        let i = #[verifier::truncate] (n as i64);
        proof {
            lemma_i64_u64_round_trip(n);
            assert(b.subrange(pos as int, pos + 9) =~= seq![3u8] + u64_be(n));
        }
        Ok((Value::Int(i), pos + 9))
    } else if tag == 4 {
        match read_string(bytes, pos + 1) {
            Ok((s, end)) => {
                proof {
                    assert(b.subrange(pos + 1, end as int) =~= u64_be(
                        encode_utf8(s@).len() as u64,
                    ) + encode_utf8(s@));
                    assert(encode_utf8(s@).len() == end - pos - 9);
                    assert(encode_utf8(s@).len() <= u64::MAX);
                    assert(b[pos as int] == 4);
                    assert(b.subrange(pos as int, end as int) =~= seq![b[pos as int]]
                        + b.subrange(pos + 1, end as int));
                    assert(b.subrange(pos as int, end as int) =~= spec_encode(Value::Strand(s)));
                }
                Ok((Value::Strand(s), end))
            },
            Err(e) => {
                proof {
                    assert forall|v: Value, vend: int| !value_at(b, pos as int, v, vend) by {
                        if value_at(b, pos as int, v, vend) {
                            lemma_value_at_head(b, pos as int, v, vend);
                            lemma_spec_encode_shape(v);
                            assert(v is Strand);
                            let sv = v->Strand_0@;
                            let enc = spec_encode(v);
                            assert(enc == seq![4u8] + (u64_be(encode_utf8(sv).len() as u64)
                                + encode_utf8(sv)));
                            assert forall|i: int|
                                0 <= i < enc.len() - 1 implies (u64_be(
                                encode_utf8(sv).len() as u64,
                            ) + encode_utf8(sv))[i] == #[trigger] b.subrange(
                                pos + 1,
                                vend,
                            )[i] by {
                                assert(enc[1 + i] == b.subrange(pos as int, vend)[1 + i]);
                            }
                            assert(u64_be(encode_utf8(sv).len() as u64) + encode_utf8(sv)
                                =~= b.subrange(pos + 1, vend));
                            assert(string_block_at(b, pos + 1, sv, vend));
                        }
                    }
                }
                Err(e)
            },
        }
    } else if tag == 5 {
        if bytes.len() - pos < 9 {
            proof {
                assert forall|v: Value, vend: int| !value_at(b, pos as int, v, vend) by {
                    if value_at(b, pos as int, v, vend) {
                        lemma_value_at_head(b, pos as int, v, vend);
                        lemma_spec_encode_shape(v);
                        assert(v is Array);
                        assert(vend >= pos + 9);
                    }
                }
            }
            return Err(Error::new(ErrorKind::Encoding, "unexpected end of frame".to_owned()));
        }
        let n = read_u64_be(bytes, pos + 1);
        let start = pos + 9;
        let mut items: Vec<Value> = Vec::new();
        let mut cur = start;
        let mut k: usize = 0;
        while (k as u64) < n
            invariant
                b == bytes@,
                pos + 9 == start,
                pos < b.len(),
                b[pos as int] == 5,
                u64_be(n) =~= b.subrange(pos + 1, pos + 9),
                start <= cur <= b.len(),
                k as u64 <= n,
                k <= cur - start,
                items@.len() == k,
                forall|j: int| 0 <= j < k ==> encodable(#[trigger] items@[j]),
                encode_seq(items@) =~= b.subrange(start as int, cur as int),
            decreases n - k as u64,
        {
            match decode_at(bytes, cur) {
                Ok((v, next)) => {
                    proof {
                        lemma_encode_seq_push(items@, v);
                        assert(b.subrange(start as int, next as int) =~= b.subrange(
                            start as int,
                            cur as int,
                        ) + b.subrange(cur as int, next as int));
                    }
                    items.push(v);
                    cur = next;
                },
                Err(e) => {
                    proof {
                        assert forall|w: Value, wend: int| !value_at(b, pos as int, w, wend) by {
                            if value_at(b, pos as int, w, wend) {
                                lemma_value_at_head(b, pos as int, w, wend);
                                lemma_spec_encode_shape(w);
                                assert(w is Array);
                                lemma_value_at_array_parts(b, pos as int, w, wend);
                                let ws = w->Array_0@;
                                lemma_u64_be_injective(ws.len() as u64, n);
                                assert(ws.len() == n as int);
                                assert(encode_seq(items@) + b.subrange(cur as int, b.len() as int)
                                    =~= b.subrange(start as int, b.len() as int));
                                assert(encode_seq(ws) + b.subrange(wend, b.len() as int)
                                    =~= b.subrange(start as int, b.len() as int));
                                assert(items@.len() < ws.len());
                                lemma_encode_seq_align(
                                    items@,
                                    ws,
                                    b.subrange(cur as int, b.len() as int),
                                    b.subrange(wend, b.len() as int),
                                );
                                let tail = ws.skip(items@.len() as int);
                                assert(tail.len() > 0);
                                assert(encode_seq(tail) == spec_encode(tail[0]) + encode_seq(
                                    tail.drop_first(),
                                ));
                                let elen = spec_encode(tail[0]).len() as int;
                                assert(b.subrange(cur as int, b.len() as int) == spec_encode(
                                    tail[0],
                                ) + (encode_seq(tail.drop_first()) + b.subrange(
                                    wend,
                                    b.len() as int,
                                )));
                                assert forall|i: int|
                                    0 <= i < elen implies spec_encode(tail[0])[i]
                                    == #[trigger] b.subrange(cur as int, cur + elen)[i] by {
                                    assert(b.subrange(cur as int, b.len() as int)[i]
                                        == spec_encode(tail[0])[i]);
                                }
                                assert(spec_encode(tail[0]) =~= b.subrange(cur as int, cur + elen));
                                assert(tail[0] == ws[items@.len() as int]);
                                assert(encodable(tail[0]));
                                assert(value_at(b, cur as int, tail[0], cur + elen));
                            }
                        }
                    }
                    return Err(e);
                },
            }
            k += 1;
        }
        proof {
            assert(items@.len() as u64 == n);
            assert(b.subrange(pos as int, cur as int) =~= seq![5u8] + u64_be(n) + b.subrange(
                start as int,
                cur as int,
            ));
        }
        Ok((Value::Array(items), cur))
    } else if tag == 6 {
        if bytes.len() - pos < 9 {
            proof {
                assert forall|v: Value, vend: int| !value_at(b, pos as int, v, vend) by {
                    if value_at(b, pos as int, v, vend) {
                        lemma_value_at_head(b, pos as int, v, vend);
                        lemma_spec_encode_shape(v);
                        assert(v is Object);
                        assert(vend >= pos + 9);
                    }
                }
            }
            return Err(Error::new(ErrorKind::Encoding, "unexpected end of frame".to_owned()));
        }
        let n = read_u64_be(bytes, pos + 1);
        let start = pos + 9;
        let mut fields: Vec<(String, Value)> = Vec::new();
        let mut cur = start;
        let mut k: usize = 0;
        while (k as u64) < n
            invariant
                b == bytes@,
                pos + 9 == start,
                pos < b.len(),
                b[pos as int] == 6,
                u64_be(n) =~= b.subrange(pos + 1, pos + 9),
                start <= cur <= b.len(),
                k as u64 <= n,
                k <= cur - start,
                fields@.len() == k,
                forall|j: int|
                    0 <= j < k ==> encode_utf8((#[trigger] fields@[j]).0@).len() <= u64::MAX
                        && encodable(fields@[j].1),
                encode_pairs(fields@) =~= b.subrange(start as int, cur as int),
            decreases n - k as u64,
        {
            let ghost cur0 = cur as int;
            let key = match read_string(bytes, cur) {
                Ok((key, next)) => {
                    cur = next;
                    key
                },
                Err(e) => {
                    proof {
                        assert forall|w: Value, wend: int| !value_at(b, pos as int, w, wend) by {
                            if value_at(b, pos as int, w, wend) {
                                lemma_value_at_head(b, pos as int, w, wend);
                                lemma_spec_encode_shape(w);
                                assert(w is Object);
                                lemma_value_at_object_parts(b, pos as int, w, wend);
                                let gs = w->Object_0@;
                                lemma_u64_be_injective(gs.len() as u64, n);
                                assert(gs.len() == n as int);
                                assert(encode_pairs(fields@) + b.subrange(
                                    cur as int,
                                    b.len() as int,
                                ) =~= b.subrange(start as int, b.len() as int));
                                assert(encode_pairs(gs) + b.subrange(wend, b.len() as int)
                                    =~= b.subrange(start as int, b.len() as int));
                                assert(fields@.len() < gs.len());
                                lemma_encode_pairs_align(
                                    fields@,
                                    gs,
                                    b.subrange(cur as int, b.len() as int),
                                    b.subrange(wend, b.len() as int),
                                );
                                let tail = gs.skip(fields@.len() as int);
                                assert(tail.len() > 0);
                                assert(encode_pairs(tail) == u64_be(
                                    encode_utf8(tail[0].0@).len() as u64,
                                ) + encode_utf8(tail[0].0@) + spec_encode(tail[0].1)
                                    + encode_pairs(tail.drop_first()));
                                let klen = encode_utf8(tail[0].0@).len() as int;
                                assert(b.subrange(cur as int, b.len() as int) == u64_be(
                                    encode_utf8(tail[0].0@).len() as u64,
                                ) + encode_utf8(tail[0].0@) + spec_encode(tail[0].1)
                                    + encode_pairs(tail.drop_first()) + b.subrange(
                                    wend,
                                    b.len() as int,
                                ));
                                assert forall|i: int|
                                    0 <= i < 8 + klen implies (u64_be(
                                    encode_utf8(tail[0].0@).len() as u64,
                                ) + encode_utf8(tail[0].0@))[i] == #[trigger] b.subrange(
                                    cur as int,
                                    cur + 8 + klen,
                                )[i] by {
                                    assert(b.subrange(cur as int, b.len() as int)[i] == (u64_be(
                                        encode_utf8(tail[0].0@).len() as u64,
                                    ) + encode_utf8(tail[0].0@))[i]);
                                }
                                assert(u64_be(encode_utf8(tail[0].0@).len() as u64) + encode_utf8(
                                    tail[0].0@,
                                ) =~= b.subrange(cur as int, cur + 8 + klen));
                                assert(tail[0] == gs[fields@.len() as int]);
                                assert(encode_utf8(tail[0].0@).len() <= u64::MAX);
                                assert(string_block_at(b, cur as int, tail[0].0@, cur + 8 + klen));
                            }
                        }
                    }
                    return Err(e);
                },
            };
            proof {
                assert(encode_utf8(key@).len() == cur - cur0 - 8);
                assert(encode_utf8(key@).len() <= u64::MAX);
            }
            let ghost cur1 = cur as int;
            let val = match decode_at(bytes, cur) {
                Ok((v, next)) => {
                    cur = next;
                    v
                },
                Err(e) => {
                    proof {
                        assert forall|w: Value, wend: int| !value_at(b, pos as int, w, wend) by {
                            if value_at(b, pos as int, w, wend) {
                                lemma_value_at_head(b, pos as int, w, wend);
                                lemma_spec_encode_shape(w);
                                assert(w is Object);
                                lemma_value_at_object_parts(b, pos as int, w, wend);
                                let gs = w->Object_0@;
                                lemma_u64_be_injective(gs.len() as u64, n);
                                assert(gs.len() == n as int);
                                assert(encode_pairs(fields@) + b.subrange(cur0, b.len() as int)
                                    =~= b.subrange(start as int, b.len() as int));
                                assert(encode_pairs(gs) + b.subrange(wend, b.len() as int)
                                    =~= b.subrange(start as int, b.len() as int));
                                assert(fields@.len() < gs.len());
                                lemma_encode_pairs_align(
                                    fields@,
                                    gs,
                                    b.subrange(cur0, b.len() as int),
                                    b.subrange(wend, b.len() as int),
                                );
                                let tail = gs.skip(fields@.len() as int);
                                assert(tail.len() > 0);
                                assert(encode_pairs(tail) == u64_be(
                                    encode_utf8(tail[0].0@).len() as u64,
                                ) + encode_utf8(tail[0].0@) + spec_encode(tail[0].1)
                                    + encode_pairs(tail.drop_first()));
                                assert(b.subrange(cur0, b.len() as int) == u64_be(
                                    encode_utf8(tail[0].0@).len() as u64,
                                ) + encode_utf8(tail[0].0@) + (spec_encode(tail[0].1)
                                    + (encode_pairs(tail.drop_first()) + b.subrange(
                                    wend,
                                    b.len() as int,
                                ))));
                                assert(u64_be(encode_utf8(key@).len() as u64) + encode_utf8(key@)
                                    + b.subrange(cur as int, b.len() as int) =~= b.subrange(
                                    cur0,
                                    b.len() as int,
                                ));
                                assert(tail[0] == gs[fields@.len() as int]);
                                assert(encode_utf8(tail[0].0@).len() <= u64::MAX);
                                lemma_utf8_block_unambiguous(
                                    key@,
                                    tail[0].0@,
                                    b.subrange(cur as int, b.len() as int),
                                    spec_encode(tail[0].1) + (encode_pairs(tail.drop_first())
                                        + b.subrange(wend, b.len() as int)),
                                );
                                let elen = spec_encode(tail[0].1).len() as int;
                                assert forall|i: int|
                                    0 <= i < elen implies spec_encode(tail[0].1)[i]
                                    == #[trigger] b.subrange(cur as int, cur + elen)[i] by {
                                    assert(b.subrange(cur as int, b.len() as int)[i]
                                        == spec_encode(tail[0].1)[i]);
                                }
                                assert(spec_encode(tail[0].1) =~= b.subrange(
                                    cur as int,
                                    cur + elen,
                                ));
                                assert(encodable(tail[0].1));
                                assert(value_at(b, cur as int, tail[0].1, cur + elen));
                            }
                        }
                    }
                    return Err(e);
                },
            };
            proof {
                lemma_encode_pairs_push(fields@, (key, val));
                assert(b.subrange(cur0, cur as int) =~= b.subrange(cur0, cur1) + b.subrange(
                    cur1,
                    cur as int,
                ));
                assert(b.subrange(start as int, cur as int) =~= b.subrange(start as int, cur0)
                    + b.subrange(cur0, cur as int));
            }
            fields.push((key, val));
            k += 1;
        }
        proof {
            assert(fields@.len() as u64 == n);
            assert(b.subrange(pos as int, cur as int) =~= seq![6u8] + u64_be(n) + b.subrange(
                start as int,
                cur as int,
            ));
        }
        Ok((Value::Object(fields), cur))
    } else {
        proof {
            assert forall|v: Value, vend: int| !value_at(b, pos as int, v, vend) by {
                if value_at(b, pos as int, v, vend) {
                    lemma_value_at_head(b, pos as int, v, vend);
                    lemma_spec_encode_shape(v);
                }
            }
        }
        Err(Error::new(ErrorKind::Encoding, "unknown tag in frame".to_owned()))
    }
}

/// Reads a whole frame as one value: trailing bytes after the value are an
/// encoding error, so a successful read means the buffer is, byte for
/// byte, the returned value's encoding — and a failed read means no
/// encodable value encodes to the buffer at all.
pub fn decode_value(bytes: &[u8]) -> (r: Result<Value, Error>)
    ensures
        r matches Ok(v) ==> encodable(v) && spec_encode(v) =~= bytes@,
        r matches Err(e) ==> e.kind == ErrorKind::Encoding && forall|v: Value|
            encodable(v) ==> spec_encode(v) != bytes@,
{
    let ghost b = bytes@;
    match decode_at(bytes, 0) {
        Ok((v, end)) => {
            if end == bytes.len() {
                proof {
                    assert(b.subrange(0, b.len() as int) =~= b);
                }
                Ok(v)
            } else {
                proof {
                    assert forall|w: Value| encodable(w) implies spec_encode(w) != b by {
                        if spec_encode(w) == b {
                            assert(spec_encode(v) + b.subrange(end as int, b.len() as int)
                                =~= b);
                            assert(spec_encode(w) + Seq::<u8>::empty() =~= b);
                            lemma_encoding_unambiguous(
                                v,
                                w,
                                b.subrange(end as int, b.len() as int),
                                Seq::<u8>::empty(),
                            );
                            assert(b.subrange(end as int, b.len() as int).len() == 0);
                        }
                    }
                }
                Err(Error::new(ErrorKind::Encoding, "trailing bytes after the frame".to_owned()))
            }
        },
        Err(e) => {
            proof {
                assert forall|w: Value| encodable(w) implies spec_encode(w) != b by {
                    if spec_encode(w) == b {
                        assert(b.subrange(0, b.len() as int) =~= b);
                        assert(value_at(b, 0, w, b.len() as int));
                    }
                }
            }
            Err(e)
        },
    }
}

/// Writes a value in the framing's binary form; what is written is exactly
/// the value's encoding.
pub fn encode_value(v: &Value) -> (out: Vec<u8>)
    ensures
        out@ =~= spec_encode(*v),
    decreases *v,
{
    let mut out: Vec<u8> = Vec::new();
    match v {
        Value::Null => {
            out.push(0);
        },
        Value::Bool(b) => {
            if *b {
                out.push(2);
            } else {
                out.push(1);
            }
        },
        Value::Int(i) => {
            out.push(3);
            push_u64_be(&mut out, *i as u64);
        },
        Value::Strand(s) => {
            out.push(4);
            let sb = s.as_str().as_bytes();
            push_u64_be(&mut out, sb.len() as u64);
            append_bytes(&mut out, sb);
        },
        Value::Array(vs) => {
            out.push(5);
            push_u64_be(&mut out, vs.len() as u64);
            let ghost header = out@;
            let mut k: usize = 0;
            while k < vs.len()
                invariant
                    v is Array,
                    *v == Value::Array(*vs),
                    0 <= k <= vs@.len(),
                    out@ =~= header + encode_seq(vs@.take(k as int)),
                decreases vs@.len() - k,
            {
                proof {
                    assert(decreases_to!(*v => v->Array_0));
                    assert(v->Array_0 == *vs);
                    assert(decreases_to!(*v => *vs));
                }
                let piece = encode_value(&vs[k]);
                append_bytes(&mut out, piece.as_slice());
                proof {
                    assert(vs@.take(k + 1) =~= vs@.take(k as int).push(vs@[k as int]));
                    lemma_encode_seq_push(vs@.take(k as int), vs@[k as int]);
                }
                k += 1;
            }
            proof {
                assert(vs@.take(vs@.len() as int) =~= vs@);
            }
        },
        Value::Object(fs) => {
            out.push(6);
            push_u64_be(&mut out, fs.len() as u64);
            let ghost header = out@;
            let mut k: usize = 0;
            while k < fs.len()
                invariant
                    v is Object,
                    *v == Value::Object(*fs),
                    0 <= k <= fs@.len(),
                    out@ =~= header + encode_pairs(fs@.take(k as int)),
                decreases fs@.len() - k,
            {
                proof {
                    assert(decreases_to!(*v => v->Object_0));
                    assert(v->Object_0 == *fs);
                    assert(decreases_to!(*v => *fs));
                }
                let kb = fs[k].0.as_str().as_bytes();
                push_u64_be(&mut out, kb.len() as u64);
                append_bytes(&mut out, kb);
                let piece = encode_value(&fs[k].1);
                append_bytes(&mut out, piece.as_slice());
                proof {
                    assert(fs@.take(k + 1) =~= fs@.take(k as int).push(fs@[k as int]));
                    lemma_encode_pairs_push(fs@.take(k as int), fs@[k as int]);
                }
                k += 1;
            }
            proof {
                assert(fs@.take(fs@.len() as int) =~= fs@);
            }
        },
    }
    out
}

/// The two fields of a request frame are distinct words.
proof fn lemma_request_keys_distinct()
    ensures
        "method"@ != "params"@,
{
    reveal_strlit("method");
    reveal_strlit("params");
    assert("method"@[0] == 'm');
    assert("params"@[0] == 'p');
}

pub open spec fn request_rel(f: Seq<(String, Value)>, method: String, params: Vec<Value>) -> bool {
    &&& lookup(f, "method"@) == Option::Some(Value::Strand(method))
    &&& lookup(f, "params"@) == Option::Some(Value::Array(params))
}

pub open spec fn request_shape(f: Seq<(String, Value)>) -> bool {
    &&& strand_entry(lookup(f, "method"@))
    &&& (lookup(f, "params"@) matches Option::Some(p) && p is Array)
}

/// Reads the method name and parameter list out of a decoded request
/// value, consuming it; a frame of any other shape is an encoding error.
pub fn parse_request(v: Value) -> (r: Result<(String, Vec<Value>), Error>)
    ensures
        match r {
            Ok(p) => v is Object && request_shape(v->Object_0@) && request_rel(
                v->Object_0@,
                p.0,
                p.1,
            ),
            Err(e) => (!(v is Object) || !request_shape(v->Object_0@)) && e.kind
                == ErrorKind::Encoding,
        },
{
    let mut fields = match v {
        Value::Object(fields) => fields,
        _ => {
            return Err(Error::new(ErrorKind::Encoding, "expected a request object".to_owned()));
        },
    };
    let ghost f = fields@;
    proof {
        lemma_request_keys_distinct();
    }
    let method = match take_field(&mut fields, &"method".to_owned()) {
        Option::Some(Value::Strand(m)) => m,
        _ => {
            return Err(
                Error::new(ErrorKind::Encoding, "a request needs a method name".to_owned()),
            );
        },
    };
    proof {
        crate::value::lemma_lookup_remove_other(f, "method"@, "params"@);
    }
    let params = match take_field(&mut fields, &"params".to_owned()) {
        Option::Some(Value::Array(ps)) => ps,
        _ => {
            return Err(
                Error::new(ErrorKind::Encoding, "a request needs a parameter list".to_owned()),
            );
        },
    };
    Ok((method, params))
}

/// Decodes a whole request frame from the wire: some request object with
/// this method name and parameter list is, byte for byte, what the buffer
/// spells, and a failure means no request object at all encodes to the
/// buffer.
pub fn decode_request(bytes: &[u8]) -> (r: Result<(String, Vec<Value>), Error>)
    ensures
        match r {
            Ok(p) => exists|v: Value|
                #![auto]
                encodable(v) && spec_encode(v) == bytes@ && v is Object && request_rel(
                    v->Object_0@,
                    p.0,
                    p.1,
                ),
            Err(e) => e.kind == ErrorKind::Encoding && !(exists|v: Value, m: String, ps: Vec<
                Value,
            >|
                #![auto]
                encodable(v) && spec_encode(v) == bytes@ && v is Object && request_rel(
                    v->Object_0@,
                    m,
                    ps,
                )),
        },
{
    let ghost b = bytes@;
    let v = match decode_value(bytes) {
        Ok(v) => v,
        Err(e) => {
            proof {
                assert_by_contradiction!(
                    !(exists|w: Value, m: String, ps: Vec<Value>|
                        #![auto]
                        encodable(w) && spec_encode(w) == b && w is Object && request_rel(
                            w->Object_0@,
                            m,
                            ps,
                        )),
                    {
                        let (w, m, ps) = choose|w: Value, m: String, ps: Vec<Value>|
                            #![auto]
                            encodable(w) && spec_encode(w) == b && w is Object && request_rel(
                                w->Object_0@,
                                m,
                                ps,
                            );
                        assert(spec_encode(w) != b);
                    }
                );
            }
            return Err(e);
        },
    };
    let ghost gv = v;
    match parse_request(v) {
        Ok(p) => {
            proof {
                assert(encodable(gv) && spec_encode(gv) == bytes@ && gv is Object && request_rel(
                    gv->Object_0@,
                    p.0,
                    p.1,
                ));
            }
            Ok(p)
        },
        Err(e) => {
            proof {
                assert_by_contradiction!(
                    !(exists|w: Value, m: String, ps: Vec<Value>|
                        #![auto]
                        encodable(w) && spec_encode(w) == b && w is Object && request_rel(
                            w->Object_0@,
                            m,
                            ps,
                        )),
                    {
                        let (w, m, ps) = choose|w: Value, m: String, ps: Vec<Value>|
                            #![auto]
                            encodable(w) && spec_encode(w) == b && w is Object && request_rel(
                                w->Object_0@,
                                m,
                                ps,
                            );
                        assert(spec_encode(gv) + Seq::<u8>::empty() =~= b);
                        assert(spec_encode(w) + Seq::<u8>::empty() =~= b);
                        lemma_encoding_unambiguous(gv, w, Seq::<u8>::empty(), Seq::<u8>::empty());
                        assert(gv is Object);
                        let fg = gv->Object_0@;
                        let fw = w->Object_0@;
                        lemma_lookup_value_eq(fg, fw, "method"@);
                        lemma_lookup_value_eq(fg, fw, "params"@);
                        assert(lookup(fw, "method"@) == Option::Some(Value::Strand(m)));
                        assert(value_eq(lookup(fg, "method"@)->0, Value::Strand(m)));
                        assert(lookup(fg, "method"@)->0 is Strand);
                        assert(strand_entry(lookup(fg, "method"@)));
                        assert(lookup(fw, "params"@) == Option::Some(Value::Array(ps)));
                        assert(value_eq(lookup(fg, "params"@)->0, Value::Array(ps)));
                        assert(lookup(fg, "params"@)->0 is Array);
                        assert(request_shape(fg));
                    }
                );
            }
            Err(e)
        },
    }
}

} // verus!
