//! The binary record format that carries one [`Document`] across the
//! isolation boundary.
//!
//! A record is a length-prefixed, schema-less rendering of a document: a
//! 32-bit little-endian total length (counting the prefix itself) followed
//! by the document body.  In the body every count is a 64-bit little-endian
//! integer, every character is a 32-bit Unicode scalar, and every value is
//! introduced by a one-byte tag.
//!
//! The format is specified twice: once as spec functions from models to
//! byte sequences ([`enc_record`] and friends), once as a spec decoder from
//! byte sequences back to models ([`dec_record`]).  [`lemma_dec_enc_record`]
//! proves the round trip: decoding an encoded record yields the original
//! document model.  The executable [`encode_record`] and [`decode_record`]
//! are proved to match the two specifications exactly.

use vstd::prelude::*;

use crate::document::{fields_model, value_model, values_model, Document, Value, ValueModel};

use vstd::std_specs::iter::IteratorSpec;

verus! {

broadcast use {vstd::seq::group_seq_axioms, vstd::std_specs::vec::group_vec_axioms, vstd::string::group_string_axioms};

/// The tag bytes that introduce each value kind in the body.
pub open spec fn tag_of(m: ValueModel) -> u8 {
    match m {
        ValueModel::Text(_) => 1,
        ValueModel::Int(_) => 2,
        ValueModel::Boolean(_) => 3,
        ValueModel::SubDoc(_) => 4,
        ValueModel::Sequence(_) => 5,
        ValueModel::Date(_) => 6,
        ValueModel::Null => 7,
        ValueModel::Binary(_) => 8,
    }
}

/// The four bytes of `n`, least significant first.
pub open spec fn u32_le(n: u32) -> Seq<u8> {
    seq![
        (n & 0xff) as u8,
        ((n >> 8) & 0xff) as u8,
        ((n >> 16) & 0xff) as u8,
        ((n >> 24) & 0xff) as u8,
    ]
}

/// The eight bytes of `n`, least significant first.
pub open spec fn u64_le(n: u64) -> Seq<u8> {
    seq![
        (n & 0xff) as u8,
        ((n >> 8) & 0xff) as u8,
        ((n >> 16) & 0xff) as u8,
        ((n >> 24) & 0xff) as u8,
        ((n >> 32) & 0xff) as u8,
        ((n >> 40) & 0xff) as u8,
        ((n >> 48) & 0xff) as u8,
        ((n >> 56) & 0xff) as u8,
    ]
}

/// The value of four little-endian bytes.
pub open spec fn le_u32(b0: u8, b1: u8, b2: u8, b3: u8) -> u32 {
    (b0 as u32) | ((b1 as u32) << 8) | ((b2 as u32) << 16) | ((b3 as u32) << 24)
}

/// The value of eight little-endian bytes.
pub open spec fn le_u64(b0: u8, b1: u8, b2: u8, b3: u8, b4: u8, b5: u8, b6: u8, b7: u8) -> u64 {
    (b0 as u64) | ((b1 as u64) << 8) | ((b2 as u64) << 16) | ((b3 as u64) << 24) | ((b4
        as u64) << 32) | ((b5 as u64) << 40) | ((b6 as u64) << 48) | ((b7 as u64) << 56)
}

/// Reading back the four bytes of `n` gives `n`.
pub proof fn lemma_u32_le_roundtrip(n: u32)
    ensures
        le_u32(
            (n & 0xff) as u8,
            ((n >> 8) & 0xff) as u8,
            ((n >> 16) & 0xff) as u8,
            ((n >> 24) & 0xff) as u8,
        ) == n,
{
    assert(((n & 0xff) as u8 as u32) | (((n >> 8) & 0xff) as u8 as u32) << 8 | (((n >> 16)
        & 0xff) as u8 as u32) << 16 | (((n >> 24) & 0xff) as u8 as u32) << 24 == n)
        by (bit_vector);
}

/// Reading back the eight bytes of `n` gives `n`.
pub proof fn lemma_u64_le_roundtrip(n: u64)
    ensures
        le_u64(
            (n & 0xff) as u8,
            ((n >> 8) & 0xff) as u8,
            ((n >> 16) & 0xff) as u8,
            ((n >> 24) & 0xff) as u8,
            ((n >> 32) & 0xff) as u8,
            ((n >> 40) & 0xff) as u8,
            ((n >> 48) & 0xff) as u8,
            ((n >> 56) & 0xff) as u8,
        ) == n,
{
    assert(((n & 0xff) as u8 as u64) | (((n >> 8) & 0xff) as u8 as u64) << 8 | (((n >> 16)
        & 0xff) as u8 as u64) << 16 | (((n >> 24) & 0xff) as u8 as u64) << 24 | (((n >> 32)
        & 0xff) as u8 as u64) << 32 | (((n >> 40) & 0xff) as u8 as u64) << 40 | (((n >> 48)
        & 0xff) as u8 as u64) << 48 | (((n >> 56) & 0xff) as u8 as u64) << 56 == n)
        by (bit_vector);
}

/// A signed 64-bit value survives the trip through its unsigned bit pattern.
pub proof fn lemma_i64_u64_roundtrip(i: i64)
    ensures
        (i as u64) as i64 == i,
{
    assert((i as u64) as i64 == i) by (bit_vector);
}

/// The characters of `s`, each as its 32-bit scalar, least significant
/// byte first.
pub open spec fn enc_chars(s: Seq<char>) -> Seq<u8>
    decreases s.len(),
{
    if s.len() == 0 {
        Seq::empty()
    } else {
        u32_le(s[0] as u32) + enc_chars(s.drop_first())
    }
}

/// A string: its character count, then its characters.
pub open spec fn enc_text(s: Seq<char>) -> Seq<u8> {
    u64_le(s.len() as u64) + enc_chars(s)
}

/// One encoded value: a tag byte, then the kind's payload.
pub open spec fn enc_value(m: ValueModel) -> Seq<u8>
    decreases m, 2int,
{
    seq![tag_of(m)] + match m {
        ValueModel::Text(s) => enc_text(s),
        ValueModel::Int(i) => u64_le(i as u64),
        ValueModel::Boolean(b) => seq![if b { 1u8 } else { 0u8 }],
        ValueModel::SubDoc(fs) => enc_doc(fs),
        ValueModel::Sequence(xs) => u64_le(xs.len() as u64) + enc_values(xs),
        ValueModel::Date(t) => u64_le(t as u64),
        ValueModel::Null => Seq::empty(),
        ValueModel::Binary(bs) => u64_le(bs.len() as u64) + bs,
    }
}

/// The elements of a sequence value, one after the other.
pub open spec fn enc_values(xs: Seq<ValueModel>) -> Seq<u8>
    decreases xs, 0int,
{
    if xs.len() == 0 {
        Seq::empty()
    } else {
        enc_value(xs[0]) + enc_values(xs.drop_first())
    }
}

/// The fields of a document: each key as a string, then its value.
pub open spec fn enc_fields(fs: Seq<(Seq<char>, ValueModel)>) -> Seq<u8>
    decreases fs, 0int,
{
    if fs.len() == 0 {
        Seq::empty()
    } else {
        enc_text(fs[0].0) + enc_value(fs[0].1) + enc_fields(fs.drop_first())
    }
}

/// A document body: its field count, then its fields.
pub open spec fn enc_doc(fs: Seq<(Seq<char>, ValueModel)>) -> Seq<u8>
    decreases fs, 1int,
{
    u64_le(fs.len() as u64) + enc_fields(fs)
}

/// A whole record: the total length (counting these four bytes), then the
/// document body.
pub open spec fn enc_record(fs: Seq<(Seq<char>, ValueModel)>) -> Seq<u8> {
    u32_le((4 + enc_doc(fs).len()) as u32) + enc_doc(fs)
}

/// Every count in the model fits in 64 bits, so that no length is
/// truncated on the wire.  Models of executable values always satisfy
/// this, since every in-memory length fits a machine word.
pub open spec fn wf64_value(m: ValueModel) -> bool
    decreases m, 1int,
{
    match m {
        ValueModel::Text(s) => s.len() <= u64::MAX,
        ValueModel::Int(_) => true,
        ValueModel::Boolean(_) => true,
        ValueModel::SubDoc(fs) => wf64_fields(fs),
        ValueModel::Sequence(xs) => xs.len() <= u64::MAX && wf64_values(xs),
        ValueModel::Date(_) => true,
        ValueModel::Null => true,
        ValueModel::Binary(bs) => bs.len() <= u64::MAX,
    }
}

/// [`wf64_value`] for every element of a sequence value.
pub open spec fn wf64_values(xs: Seq<ValueModel>) -> bool
    decreases xs, 0int,
{
    if xs.len() == 0 {
        true
    } else {
        wf64_value(xs[0]) && wf64_values(xs.drop_first())
    }
}

/// [`wf64_value`] for every field of a document, keys included.
pub open spec fn wf64_fields(fs: Seq<(Seq<char>, ValueModel)>) -> bool
    decreases fs, 0int,
{
    fs.len() <= u64::MAX && if fs.len() == 0 {
        true
    } else {
        fs[0].0.len() <= u64::MAX && wf64_value(fs[0].1) && wf64_fields(fs.drop_first())
    }
}

/// Appending one character on the right appends its four bytes.
pub proof fn lemma_enc_chars_snoc(s: Seq<char>, c: char)
    ensures
        enc_chars(s.push(c)) == enc_chars(s) + u32_le(c as u32),
    decreases s.len(),
{
    if s.len() == 0 {
        reveal_with_fuel(enc_chars, 2);
        assert(s.push(c)[0] == c);
        assert(s.push(c).drop_first() =~= Seq::<char>::empty());
        assert(enc_chars(s.push(c)) =~= enc_chars(s) + u32_le(c as u32));
    } else {
        assert(s.push(c).drop_first() =~= s.drop_first().push(c));
        lemma_enc_chars_snoc(s.drop_first(), c);
        assert(u32_le(s[0] as u32) + (enc_chars(s.drop_first()) + u32_le(c as u32)) =~= (
        u32_le(s[0] as u32) + enc_chars(s.drop_first())) + u32_le(c as u32));
    }
}

/// Appending one element on the right appends its encoding.
pub proof fn lemma_enc_values_snoc(xs: Seq<ValueModel>, v: ValueModel)
    ensures
        enc_values(xs.push(v)) == enc_values(xs) + enc_value(v),
    decreases xs.len(),
{
    if xs.len() == 0 {
        reveal_with_fuel(enc_values, 2);
        assert(xs.push(v)[0] == v);
        assert(xs.push(v).drop_first() =~= Seq::<ValueModel>::empty());
        assert(enc_values(xs.push(v)) =~= enc_values(xs) + enc_value(v));
    } else {
        assert(xs.push(v).drop_first() =~= xs.drop_first().push(v));
        lemma_enc_values_snoc(xs.drop_first(), v);
        assert(enc_value(xs[0]) + (enc_values(xs.drop_first()) + enc_value(v)) =~= (enc_value(
            xs[0],
        ) + enc_values(xs.drop_first())) + enc_value(v));
    }
}

/// Appending one field on the right appends its encoding.
pub proof fn lemma_enc_fields_snoc(fs: Seq<(Seq<char>, ValueModel)>, p: (Seq<char>, ValueModel))
    ensures
        enc_fields(fs.push(p)) == enc_fields(fs) + enc_text(p.0) + enc_value(p.1),
    decreases fs.len(),
{
    if fs.len() == 0 {
        reveal_with_fuel(enc_fields, 2);
        assert(fs.push(p)[0] == p);
        assert(fs.push(p).drop_first() =~= Seq::<(Seq<char>, ValueModel)>::empty());
        assert(enc_fields(fs.push(p)) =~= enc_fields(fs) + enc_text(p.0) + enc_value(p.1));
    } else {
        assert(fs.push(p).drop_first() =~= fs.drop_first().push(p));
        lemma_enc_fields_snoc(fs.drop_first(), p);
        assert(enc_text(fs[0].0) + enc_value(fs[0].1) + (enc_fields(fs.drop_first()) + enc_text(
            p.0,
        ) + enc_value(p.1)) =~= (enc_text(fs[0].0) + enc_value(fs[0].1) + enc_fields(
            fs.drop_first(),
        )) + enc_text(p.0) + enc_value(p.1));
    }
}

/// [`wf64_values`] holds of every prefix seen while a loop walks a vector.
pub proof fn lemma_wf64_values_snoc(xs: Seq<ValueModel>, v: ValueModel)
    requires
        wf64_values(xs),
        wf64_value(v),
    ensures
        wf64_values(xs.push(v)),
    decreases xs.len(),
{
    if xs.len() == 0 {
        reveal_with_fuel(wf64_values, 2);
        assert(xs.push(v)[0] == v);
        assert(xs.push(v).drop_first() =~= Seq::<ValueModel>::empty());
    } else {
        assert(xs.push(v).drop_first() =~= xs.drop_first().push(v));
        lemma_wf64_values_snoc(xs.drop_first(), v);
    }
}

/// Appends the four little-endian bytes of `n`.
pub(crate) fn push_u32_le(out: &mut Vec<u8>, n: u32)
    ensures
        final(out)@ == old(out)@ + u32_le(n),
{
    let ghost base = out@;
    out.push((n & 0xff) as u8);
    out.push(((n >> 8) & 0xff) as u8);
    out.push(((n >> 16) & 0xff) as u8);
    out.push(((n >> 24) & 0xff) as u8);
    proof {
        assert(out@ =~= base + u32_le(n));
    }
}

/// Appends the eight little-endian bytes of `n`.
fn push_u64_le(out: &mut Vec<u8>, n: u64)
    ensures
        final(out)@ == old(out)@ + u64_le(n),
{
    let ghost base = out@;
    out.push((n & 0xff) as u8);
    out.push(((n >> 8) & 0xff) as u8);
    out.push(((n >> 16) & 0xff) as u8);
    out.push(((n >> 24) & 0xff) as u8);
    out.push(((n >> 32) & 0xff) as u8);
    out.push(((n >> 40) & 0xff) as u8);
    out.push(((n >> 48) & 0xff) as u8);
    out.push(((n >> 56) & 0xff) as u8);
    proof {
        assert(out@ =~= base + u64_le(n));
    }
}

/// The characters of `s`, collected into a vector.
fn chars_vec(s: &str) -> (r: Vec<char>)
    ensures
        r@ == s@,
{
    let mut it = s.chars();
    let mut r: Vec<char> = Vec::new();
    proof {
        assert(r@ + IteratorSpec::remaining(&it) =~= s@);
    }
    loop
        invariant
            it.obeys_prophetic_iter_laws(),
            r@ + IteratorSpec::remaining(&it) == s@,
            r@.len() <= s@.len(),
        decreases s@.len() - r@.len(),
    {
        let ghost rem = IteratorSpec::remaining(&it);
        match it.next() {
            Some(c) => {
                proof {
                    assert(r@.push(c) + rem.drop_first() =~= r@ + rem);
                }
                r.push(c);
            },
            None => {
                proof {
                    assert(r@ + rem =~= r@);
                }
                return r;
            },
        }
    }
}

/// Appends the encoding of the string `s`: character count, then the
/// characters as 32-bit scalars.
fn encode_text(out: &mut Vec<u8>, s: &str)
    ensures
        final(out)@ == old(out)@ + enc_text(s@),
        s@.len() <= u64::MAX,
{
    let ghost base = out@;
    let cv = chars_vec(s);
    push_u64_le(out, cv.len() as u64);
    let mut i: usize = 0;
    proof {
        assert(s@.take(0) =~= Seq::<char>::empty());
        assert(out@ =~= base + u64_le(s@.len() as u64) + enc_chars(s@.take(0)));
    }
    while i < cv.len()
        invariant
            i <= cv.len(),
            cv@ == s@,
            out@ == base + u64_le(s@.len() as u64) + enc_chars(s@.take(i as int)),
        decreases cv.len() - i,
    {
        push_u32_le(out, cv[i] as u32);
        proof {
            lemma_enc_chars_snoc(s@.take(i as int), s@[i as int]);
            assert(s@.take(i as int).push(s@[i as int]) =~= s@.take(i + 1));
            assert(out@ =~= base + u64_le(s@.len() as u64) + enc_chars(s@.take(i + 1)));
        }
        i += 1;
    }
    proof {
        assert(s@.take(s@.len() as int) =~= s@);
        assert(base + u64_le(s@.len() as u64) + enc_chars(s@) =~= base + enc_text(s@));
    }
}

/// Appends the encoding of one value: its tag byte, then its payload.
fn encode_value(out: &mut Vec<u8>, v: &Value)
    ensures
        final(out)@ == old(out)@ + enc_value(v@),
        wf64_value(v@),
    decreases v,
{
    let ghost base = out@;
    match v {
        Value::Text(s) => {
            out.push(1);
            encode_text(out, s.as_str());
            proof {
                assert(out@ =~= base + enc_value(v@));
            }
        },
        Value::Int(i) => {
            out.push(2);
            push_u64_le(out, #[verifier::truncate] (*i as u64));
            proof {
                assert(out@ =~= base + enc_value(v@));
            }
        },
        Value::Boolean(b) => {
            out.push(3);
            out.push(if *b {
                1
            } else {
                0
            });
            proof {
                assert(out@ =~= base + enc_value(v@));
            }
        },
        Value::SubDoc(d) => {
            out.push(4);
            encode_doc(out, d);
            proof {
                assert(out@ =~= base + enc_value(v@));
            }
        },
        Value::Sequence(xs) => {
            let ghost ms = v@->Sequence_0;
            out.push(5);
            push_u64_le(out, xs.len() as u64);
            let mut i: usize = 0;
            proof {
                assert(ms.take(0) =~= Seq::<ValueModel>::empty());
                assert(out@ =~= base + seq![5u8] + u64_le(ms.len() as u64) + enc_values(
                    ms.take(0),
                ));
            }
            while i < xs.len()
                invariant
                    i <= xs.len(),
                    *v == Value::Sequence(*xs),
                    ms == v@->Sequence_0,
                    ms.len() == xs@.len(),
                    forall|j: int| 0 <= j < xs@.len() ==> ms[j] == value_model(xs@[j]),
                    out@ == base + seq![5u8] + u64_le(ms.len() as u64) + enc_values(
                        ms.take(i as int),
                    ),
                    wf64_values(ms.take(i as int)),
                decreases xs.len() - i,
            {
                proof {
                    assert(*v == Value::Sequence(*xs));
                    assert(decreases_to!(*xs => xs@));
                    assert(decreases_to!(xs@ => xs@[i as int]));
                    assert(decreases_to!(*v => xs@[i as int]));
                }
                encode_value(out, &xs[i]);
                proof {
                    lemma_enc_values_snoc(ms.take(i as int), ms[i as int]);
                    lemma_wf64_values_snoc(ms.take(i as int), ms[i as int]);
                    assert(ms.take(i as int).push(ms[i as int]) =~= ms.take(i + 1));
                    assert(out@ =~= base + seq![5u8] + u64_le(ms.len() as u64) + enc_values(
                        ms.take(i + 1),
                    ));
                }
                i += 1;
            }
            proof {
                assert(ms.take(ms.len() as int) =~= ms);
                assert(out@ =~= base + enc_value(v@));
            }
        },
        Value::Date(t) => {
            out.push(6);
            push_u64_le(out, #[verifier::truncate] (*t as u64));
            proof {
                assert(out@ =~= base + enc_value(v@));
            }
        },
        Value::Null => {
            out.push(7);
            proof {
                assert(out@ =~= base + enc_value(v@));
            }
        },
        Value::Binary(bs) => {
            out.push(8);
            push_u64_le(out, bs.len() as u64);
            out.extend_from_slice(bs.as_slice());
            proof {
                assert(out@ =~= base + enc_value(v@));
            }
        },
    }
}

/// Appends the encoding of a document body: field count, then fields.
fn encode_doc(out: &mut Vec<u8>, d: &Document)
    ensures
        final(out)@ == old(out)@ + enc_doc(d@),
        wf64_fields(d@),
    decreases d,
{
    let ghost base = out@;
    let ghost m = d@;
    push_u64_le(out, d.fields.len() as u64);
    let mut i: usize = 0;
    proof {
        assert(m.take(0) =~= Seq::<(Seq<char>, ValueModel)>::empty());
        assert(out@ =~= base + u64_le(m.len() as u64) + enc_fields(m.take(0)));
    }
    while i < d.fields.len()
        invariant
            i <= d.fields.len(),
            m == d@,
            m.len() == d.fields@.len(),
            out@ == base + u64_le(m.len() as u64) + enc_fields(m.take(i as int)),
            wf64_fields(m.take(i as int)),
        decreases d.fields.len() - i,
    {
        encode_text(out, d.fields[i].0.as_str());
        encode_value(out, &d.fields[i].1);
        proof {
            assert(m[i as int] == (d.fields@[i as int].0@, value_model(d.fields@[i as int].1)));
            lemma_enc_fields_snoc(m.take(i as int), m[i as int]);
            lemma_wf64_fields_snoc(m.take(i as int), m[i as int]);
            assert(m.take(i as int).push(m[i as int]) =~= m.take(i + 1));
            assert(out@ =~= base + u64_le(m.len() as u64) + enc_fields(m.take(i + 1)));
        }
        i += 1;
    }
    proof {
        assert(m.take(m.len() as int) =~= m);
        assert(out@ =~= base + enc_doc(m));
    }
}

/// Encodes `d` as one length-prefixed binary record.
///
/// Succeeds exactly when the record's total length fits the 32-bit prefix;
/// the bytes returned are precisely [`enc_record`] of the document's model.
pub fn encode_record(d: &Document) -> (r: Option<Vec<u8>>)
    ensures
        match r {
            Some(b) => b@ == enc_record(d@) && wf64_fields(d@) && 4 + enc_doc(d@).len()
                <= u32::MAX,
            None => 4 + enc_doc(d@).len() > u32::MAX,
        },
{
    let mut body: Vec<u8> = Vec::new();
    encode_doc(&mut body, d);
    proof {
        assert(body@ =~= enc_doc(d@));
    }
    if body.len() as u64 > (u32::MAX - 4) as u64 {
        return None;
    }
    let total = (body.len() as u64 + 4) as u32;
    let mut out: Vec<u8> = Vec::new();
    push_u32_le(&mut out, total);
    out.append(&mut body);
    proof {
        assert(out@ =~= enc_record(d@));
    }
    Some(out)
}

/// [`wf64_fields`] holds of every prefix seen while a loop walks a field list.
pub proof fn lemma_wf64_fields_snoc(fs: Seq<(Seq<char>, ValueModel)>, p: (Seq<char>, ValueModel))
    requires
        wf64_fields(fs),
        fs.len() + 1 <= u64::MAX,
        p.0.len() <= u64::MAX,
        wf64_value(p.1),
    ensures
        wf64_fields(fs.push(p)),
    decreases fs.len(),
{
    if fs.len() == 0 {
        reveal_with_fuel(wf64_fields, 2);
        assert(fs.push(p)[0] == p);
        assert(fs.push(p).drop_first() =~= Seq::<(Seq<char>, ValueModel)>::empty());
    } else {
        assert(fs.push(p).drop_first() =~= fs.drop_first().push(p));
        lemma_wf64_fields_snoc(fs.drop_first(), p);
    }
}


/// Reads `n` characters, four bytes each, from the front of `s`.
pub open spec fn dec_chars(s: Seq<u8>, n: nat) -> Option<Seq<char>>
    decreases n,
{
    if n == 0 {
        Some(Seq::empty())
    } else if s.len() < 4 {
        None
    } else {
        let u = le_u32(s[0], s[1], s[2], s[3]);
        if vstd::utf8::is_scalar(u) {
            match dec_chars(s.skip(4), (n - 1) as nat) {
                Some(cs) => Some(seq![u as char] + cs),
                None => None,
            }
        } else {
            None
        }
    }
}

/// Reads one string from the front of `s`: its character count, then its
/// characters.  Yields the characters and the bytes consumed.
pub open spec fn dec_text(s: Seq<u8>) -> Option<(Seq<char>, int)> {
    if s.len() < 8 {
        None
    } else {
        let n = le_u64(s[0], s[1], s[2], s[3], s[4], s[5], s[6], s[7]) as int;
        if n > s.len() - 8 {
            None
        } else {
            match dec_chars(s.skip(8), n as nat) {
                Some(cs) => Some((cs, 8 + 4 * n)),
                None => None,
            }
        }
    }
}

/// Reads one value from the front of `s`: a tag byte, then the payload
/// the tag announces.  Yields the value's model and the bytes consumed.
pub open spec fn dec_value(s: Seq<u8>) -> Option<(ValueModel, int)>
    decreases s.len(), 0int,
{
    if s.len() < 1 {
        None
    } else {
        let tag = s[0];
        let r = s.skip(1);
        if tag == 1 {
            match dec_text(r) {
                Some((cs, c)) => Some((ValueModel::Text(cs), 1 + c)),
                None => None,
            }
        } else if tag == 2 {
            if r.len() < 8 {
                None
            } else {
                Some(
                    (
                        ValueModel::Int(
                            le_u64(r[0], r[1], r[2], r[3], r[4], r[5], r[6], r[7]) as i64,
                        ),
                        9,
                    ),
                )
            }
        } else if tag == 3 {
            if r.len() < 1 {
                None
            } else if r[0] == 1 {
                Some((ValueModel::Boolean(true), 2))
            } else if r[0] == 0 {
                Some((ValueModel::Boolean(false), 2))
            } else {
                None
            }
        } else if tag == 4 {
            match dec_doc(r) {
                Some((fs, c)) => Some((ValueModel::SubDoc(fs), 1 + c)),
                None => None,
            }
        } else if tag == 5 {
            if r.len() < 8 {
                None
            } else {
                let n = le_u64(r[0], r[1], r[2], r[3], r[4], r[5], r[6], r[7]) as int;
                if n > r.len() - 8 {
                    None
                } else {
                    match dec_values(r.skip(8), n as nat) {
                        Some((xs, c)) => Some((ValueModel::Sequence(xs), 9 + c)),
                        None => None,
                    }
                }
            }
        } else if tag == 6 {
            if r.len() < 8 {
                None
            } else {
                Some(
                    (
                        ValueModel::Date(
                            le_u64(r[0], r[1], r[2], r[3], r[4], r[5], r[6], r[7]) as i64,
                        ),
                        9,
                    ),
                )
            }
        } else if tag == 7 {
            Some((ValueModel::Null, 1))
        } else if tag == 8 {
            if r.len() < 8 {
                None
            } else {
                let n = le_u64(r[0], r[1], r[2], r[3], r[4], r[5], r[6], r[7]) as int;
                if n > r.len() - 8 {
                    None
                } else {
                    Some((ValueModel::Binary(r.skip(8).take(n)), 9 + n))
                }
            }
        } else {
            None
        }
    }
}

/// Reads `n` values, one after the other, from the front of `s`.
pub open spec fn dec_values(s: Seq<u8>, n: nat) -> Option<(Seq<ValueModel>, int)>
    decreases s.len(), 1int,
{
    if n == 0 {
        Some((Seq::empty(), 0))
    } else {
        match dec_value(s) {
            Some((v, c)) => if 1 <= c <= s.len() {
                match dec_values(s.skip(c), (n - 1) as nat) {
                    Some((xs, c2)) => Some((seq![v] + xs, c + c2)),
                    None => None,
                }
            } else {
                None
            },
            None => None,
        }
    }
}

/// Reads `n` fields, each a key string then a value, from the front of `s`.
pub open spec fn dec_fields(s: Seq<u8>, n: nat) -> Option<
    (Seq<(Seq<char>, ValueModel)>, int),
>
    decreases s.len(), 1int,
{
    if n == 0 {
        Some((Seq::empty(), 0))
    } else {
        match dec_text(s) {
            Some((k, tc)) => if 1 <= tc <= s.len() {
                match dec_value(s.skip(tc)) {
                    Some((v, vc)) => if 1 <= vc <= s.len() - tc {
                        match dec_fields(s.skip(tc + vc), (n - 1) as nat) {
                            Some((fs, c2)) => Some((seq![(k, v)] + fs, tc + vc + c2)),
                            None => None,
                        }
                    } else {
                        None
                    },
                    None => None,
                }
            } else {
                None
            },
            None => None,
        }
    }
}

/// Reads a document body from the front of `s`: its field count, then its
/// fields.
pub open spec fn dec_doc(s: Seq<u8>) -> Option<(Seq<(Seq<char>, ValueModel)>, int)>
    decreases s.len(), 2int,
{
    if s.len() < 8 {
        None
    } else {
        let n = le_u64(s[0], s[1], s[2], s[3], s[4], s[5], s[6], s[7]) as int;
        if n > s.len() - 8 {
            None
        } else {
            match dec_fields(s.skip(8), n as nat) {
                Some((fs, c)) => Some((fs, 8 + c)),
                None => None,
            }
        }
    }
}

/// Decodes a whole record: the four-byte total length must equal the
/// record's length exactly, and the body must account for every remaining
/// byte; anything else is a corrupt record.
pub open spec fn dec_record(s: Seq<u8>) -> Option<Seq<(Seq<char>, ValueModel)>> {
    if s.len() < 4 {
        None
    } else if le_u32(s[0], s[1], s[2], s[3]) as int != s.len() {
        None
    } else {
        match dec_doc(s.skip(4)) {
            Some((fs, c)) => if 4 + c == s.len() {
                Some(fs)
            } else {
                None
            },
            None => None,
        }
    }
}

/// Encoded characters take four bytes each.
pub proof fn lemma_enc_chars_len(s: Seq<char>)
    ensures
        enc_chars(s).len() == 4 * s.len(),
    decreases s.len(),
{
    if s.len() == 0 {
    } else {
        lemma_enc_chars_len(s.drop_first());
    }
}

/// Decoding the encoding of `s` from the front of any stream yields `s`.
pub proof fn lemma_dec_enc_chars(s: Seq<char>, rest: Seq<u8>)
    ensures
        dec_chars(enc_chars(s) + rest, s.len()) == Some(s),
    decreases s.len(),
{
    let b = enc_chars(s) + rest;
    if s.len() == 0 {
        assert(dec_chars(b, 0) == Some(Seq::<char>::empty()));
        assert(s =~= Seq::<char>::empty());
    } else {
        let c = s[0];
        let u = c as u32;
        lemma_enc_chars_len(s);
        assert(b.len() >= 4);
        assert(b[0] == u32_le(u)[0]);
        assert(b[1] == u32_le(u)[1]);
        assert(b[2] == u32_le(u)[2]);
        assert(b[3] == u32_le(u)[3]);
        lemma_u32_le_roundtrip(u);
        assert(le_u32(b[0], b[1], b[2], b[3]) == u);
        vstd::utf8::char_is_scalar(c);
        vstd::utf8::char_u32_cast(c, u);
        assert(b.skip(4) =~= enc_chars(s.drop_first()) + rest);
        lemma_dec_enc_chars(s.drop_first(), rest);
        assert(seq![u as char] + s.drop_first() =~= s);
    }
}

/// Decoding the encoding of a string from the front of any stream yields
/// the string and its exact encoded length.
pub proof fn lemma_dec_enc_text(s: Seq<char>, rest: Seq<u8>)
    requires
        s.len() <= u64::MAX,
    ensures
        dec_text(enc_text(s) + rest) == Some((s, enc_text(s).len() as int)),
{
    let b = enc_text(s) + rest;
    let nv = s.len() as u64;
    lemma_enc_chars_len(s);
    assert(b.len() >= 8);
    assert(b[0] == u64_le(nv)[0]);
    assert(b[1] == u64_le(nv)[1]);
    assert(b[2] == u64_le(nv)[2]);
    assert(b[3] == u64_le(nv)[3]);
    assert(b[4] == u64_le(nv)[4]);
    assert(b[5] == u64_le(nv)[5]);
    assert(b[6] == u64_le(nv)[6]);
    assert(b[7] == u64_le(nv)[7]);
    lemma_u64_le_roundtrip(nv);
    assert(le_u64(b[0], b[1], b[2], b[3], b[4], b[5], b[6], b[7]) == nv);
    assert(b.skip(8) =~= enc_chars(s) + rest);
    lemma_dec_enc_chars(s, rest);
}

/// Decoding the encoding of a value from the front of any stream yields
/// the value and its exact encoded length.
#[verifier::rlimit(100)]
pub proof fn lemma_dec_enc_value(m: ValueModel, rest: Seq<u8>)
    requires
        wf64_value(m),
    ensures
        dec_value(enc_value(m) + rest) == Some((m, enc_value(m).len() as int)),
    decreases m, 2int,
{
    let b = enc_value(m) + rest;
    assert(b[0] == tag_of(m));
    match m {
        ValueModel::Text(s) => {
            assert(b.skip(1) =~= enc_text(s) + rest);
            lemma_dec_enc_text(s, rest);
        },
        ValueModel::Int(i) => {
            let u = i as u64;
            let r = b.skip(1);
            assert(r =~= u64_le(u) + rest);
            assert(r[0] == u64_le(u)[0]);
            assert(r[1] == u64_le(u)[1]);
            assert(r[2] == u64_le(u)[2]);
            assert(r[3] == u64_le(u)[3]);
            assert(r[4] == u64_le(u)[4]);
            assert(r[5] == u64_le(u)[5]);
            assert(r[6] == u64_le(u)[6]);
            assert(r[7] == u64_le(u)[7]);
            lemma_u64_le_roundtrip(u);
            lemma_i64_u64_roundtrip(i);
        },
        ValueModel::Boolean(v) => {
            let r = b.skip(1);
            assert(r[0] == if v { 1u8 } else { 0u8 });
        },
        ValueModel::SubDoc(fs) => {
            assert(b.skip(1) =~= enc_doc(fs) + rest);
            lemma_dec_enc_doc(fs, rest);
        },
        ValueModel::Sequence(xs) => {
            let nv = xs.len() as u64;
            let r = b.skip(1);
            assert(r =~= u64_le(nv) + (enc_values(xs) + rest));
            assert(r[0] == u64_le(nv)[0]);
            assert(r[1] == u64_le(nv)[1]);
            assert(r[2] == u64_le(nv)[2]);
            assert(r[3] == u64_le(nv)[3]);
            assert(r[4] == u64_le(nv)[4]);
            assert(r[5] == u64_le(nv)[5]);
            assert(r[6] == u64_le(nv)[6]);
            assert(r[7] == u64_le(nv)[7]);
            lemma_u64_le_roundtrip(nv);
            lemma_enc_values_count(xs);
            assert(r.skip(8) =~= enc_values(xs) + rest);
            lemma_dec_enc_values(xs, rest);
        },
        ValueModel::Date(t) => {
            let u = t as u64;
            let r = b.skip(1);
            assert(r =~= u64_le(u) + rest);
            assert(r[0] == u64_le(u)[0]);
            assert(r[1] == u64_le(u)[1]);
            assert(r[2] == u64_le(u)[2]);
            assert(r[3] == u64_le(u)[3]);
            assert(r[4] == u64_le(u)[4]);
            assert(r[5] == u64_le(u)[5]);
            assert(r[6] == u64_le(u)[6]);
            assert(r[7] == u64_le(u)[7]);
            lemma_u64_le_roundtrip(u);
            lemma_i64_u64_roundtrip(t);
        },
        ValueModel::Null => {
        },
        ValueModel::Binary(bs) => {
            let nv = bs.len() as u64;
            let r = b.skip(1);
            assert(r =~= u64_le(nv) + (bs + rest));
            assert(r[0] == u64_le(nv)[0]);
            assert(r[1] == u64_le(nv)[1]);
            assert(r[2] == u64_le(nv)[2]);
            assert(r[3] == u64_le(nv)[3]);
            assert(r[4] == u64_le(nv)[4]);
            assert(r[5] == u64_le(nv)[5]);
            assert(r[6] == u64_le(nv)[6]);
            assert(r[7] == u64_le(nv)[7]);
            lemma_u64_le_roundtrip(nv);
            assert(r.skip(8).take(bs.len() as int) =~= bs);
        },
    }
}

/// The encoding of a sequence of values is at least one byte per value.
pub proof fn lemma_enc_values_count(xs: Seq<ValueModel>)
    ensures
        enc_values(xs).len() >= xs.len(),
    decreases xs,
{
    if xs.len() == 0 {
    } else {
        lemma_enc_values_count(xs.drop_first());
        assert(enc_value(xs[0]).len() >= 1);
    }
}

/// The encoding of a field list is at least one byte per field.
pub proof fn lemma_enc_fields_count(fs: Seq<(Seq<char>, ValueModel)>)
    ensures
        enc_fields(fs).len() >= fs.len(),
    decreases fs,
{
    if fs.len() == 0 {
    } else {
        lemma_enc_fields_count(fs.drop_first());
        assert(enc_text(fs[0].0).len() >= 8);
    }
}

/// Decoding the encodings of `xs.len()` values from the front of any
/// stream yields `xs` and the exact encoded length.
pub proof fn lemma_dec_enc_values(xs: Seq<ValueModel>, rest: Seq<u8>)
    requires
        wf64_values(xs),
    ensures
        dec_values(enc_values(xs) + rest, xs.len()) == Some(
            (xs, enc_values(xs).len() as int),
        ),
    decreases xs, 0int,
{
    let b = enc_values(xs) + rest;
    if xs.len() == 0 {
        assert(xs =~= Seq::<ValueModel>::empty());
    } else {
        let v0 = xs[0];
        let c0 = enc_value(v0).len() as int;
        assert(b =~= enc_value(v0) + (enc_values(xs.drop_first()) + rest));
        lemma_dec_enc_value(v0, enc_values(xs.drop_first()) + rest);
        assert(c0 >= 1);
        assert(b.skip(c0) =~= enc_values(xs.drop_first()) + rest);
        lemma_dec_enc_values(xs.drop_first(), rest);
        assert(seq![v0] + xs.drop_first() =~= xs);
    }
}

/// Decoding the encodings of `fs.len()` fields from the front of any
/// stream yields `fs` and the exact encoded length.
pub proof fn lemma_dec_enc_fields(fs: Seq<(Seq<char>, ValueModel)>, rest: Seq<u8>)
    requires
        wf64_fields(fs),
    ensures
        dec_fields(enc_fields(fs) + rest, fs.len()) == Some(
            (fs, enc_fields(fs).len() as int),
        ),
    decreases fs, 0int,
{
    let b = enc_fields(fs) + rest;
    if fs.len() == 0 {
        assert(fs =~= Seq::<(Seq<char>, ValueModel)>::empty());
    } else {
        let k0 = fs[0].0;
        let v0 = fs[0].1;
        let tc = enc_text(k0).len() as int;
        let vc = enc_value(v0).len() as int;
        assert(b =~= enc_text(k0) + (enc_value(v0) + (enc_fields(fs.drop_first()) + rest)));
        lemma_dec_enc_text(k0, enc_value(v0) + (enc_fields(fs.drop_first()) + rest));
        assert(tc >= 8);
        assert(b.skip(tc) =~= enc_value(v0) + (enc_fields(fs.drop_first()) + rest));
        lemma_dec_enc_value(v0, enc_fields(fs.drop_first()) + rest);
        assert(vc >= 1);
        assert(b.skip(tc + vc) =~= enc_fields(fs.drop_first()) + rest);
        lemma_dec_enc_fields(fs.drop_first(), rest);
        assert(seq![(k0, v0)] + fs.drop_first() =~= fs);
    }
}

/// Decoding the encoding of a document body from the front of any stream
/// yields its fields and the exact encoded length.
pub proof fn lemma_dec_enc_doc(fs: Seq<(Seq<char>, ValueModel)>, rest: Seq<u8>)
    requires
        wf64_fields(fs),
    ensures
        dec_doc(enc_doc(fs) + rest) == Some((fs, enc_doc(fs).len() as int)),
    decreases fs, 1int,
{
    let b = enc_doc(fs) + rest;
    let nv = fs.len() as u64;
    assert(b =~= u64_le(nv) + (enc_fields(fs) + rest));
    assert(b[0] == u64_le(nv)[0]);
    assert(b[1] == u64_le(nv)[1]);
    assert(b[2] == u64_le(nv)[2]);
    assert(b[3] == u64_le(nv)[3]);
    assert(b[4] == u64_le(nv)[4]);
    assert(b[5] == u64_le(nv)[5]);
    assert(b[6] == u64_le(nv)[6]);
    assert(b[7] == u64_le(nv)[7]);
    lemma_u64_le_roundtrip(nv);
    lemma_enc_fields_count(fs);
    assert(b.skip(8) =~= enc_fields(fs) + rest);
    lemma_dec_enc_fields(fs, rest);
}

/// The round trip of the record format: decoding the encoding of any
/// document model whose record fits the length prefix yields the model
/// back, exactly.
pub proof fn lemma_dec_enc_record(fs: Seq<(Seq<char>, ValueModel)>)
    requires
        wf64_fields(fs),
        4 + enc_doc(fs).len() <= u32::MAX,
    ensures
        dec_record(enc_record(fs)) == Some(fs),
{
    let b = enc_record(fs);
    let total = (4 + enc_doc(fs).len()) as u32;
    assert(b =~= u32_le(total) + (enc_doc(fs) + Seq::<u8>::empty()));
    assert(b[0] == u32_le(total)[0]);
    assert(b[1] == u32_le(total)[1]);
    assert(b[2] == u32_le(total)[2]);
    assert(b[3] == u32_le(total)[3]);
    lemma_u32_le_roundtrip(total);
    assert(b.skip(4) =~= enc_doc(fs) + Seq::<u8>::empty());
    lemma_dec_enc_doc(fs, Seq::<u8>::empty());
}


/// Relies on `char::from_u32` of std: it returns `Some` exactly for a
/// Unicode scalar value (not a surrogate, at most 0x10FFFF), and the
/// character returned casts back to the same 32-bit value.
pub assume_specification[ char::from_u32 ](u: u32) -> (r: Option<char>)
    ensures
        r is Some <==> vstd::utf8::is_scalar(u),
        r matches Some(c) ==> c as u32 == u,
;

/// Relies on `String::push` of std: it appends the given character at the
/// end of the string.
pub assume_specification[ String::push ](s: &mut String, c: char)
    ensures
        final(s)@ == old(s)@.push(c),
;

/// Reads the four-byte little-endian integer at `pos`.
pub(crate) fn read_u32_at(buf: &Vec<u8>, pos: usize) -> (r: u32)
    requires
        pos + 4 <= buf@.len(),
    ensures
        r == le_u32(buf@[pos as int], buf@[pos + 1], buf@[pos + 2], buf@[pos + 3]),
{
    proof {
        vstd::std_specs::vec::axiom_spec_len(buf);
    }
    (buf[pos] as u32) | ((buf[pos + 1] as u32) << 8) | ((buf[pos + 2] as u32) << 16) | ((
    buf[pos + 3] as u32) << 24)
}

/// Reads the eight-byte little-endian integer at `pos`.
fn read_u64_at(buf: &Vec<u8>, pos: usize) -> (r: u64)
    requires
        pos + 8 <= buf@.len(),
    ensures
        r == le_u64(
            buf@[pos as int],
            buf@[pos + 1],
            buf@[pos + 2],
            buf@[pos + 3],
            buf@[pos + 4],
            buf@[pos + 5],
            buf@[pos + 6],
            buf@[pos + 7],
        ),
{
    proof {
        vstd::std_specs::vec::axiom_spec_len(buf);
    }
    (buf[pos] as u64) | ((buf[pos + 1] as u64) << 8) | ((buf[pos + 2] as u64) << 16) | ((
    buf[pos + 3] as u64) << 24) | ((buf[pos + 4] as u64) << 32) | ((buf[pos + 5] as u64)
        << 40) | ((buf[pos + 6] as u64) << 48) | ((buf[pos + 7] as u64) << 56)
}

/// Decodes one string at `pos`: the count of characters, then the
/// characters.  Matches [`dec_text`] on the suffix of the buffer exactly.
fn decode_text(buf: &Vec<u8>, pos: usize) -> (r: Option<(String, usize)>)
    requires
        pos <= buf@.len(),
    ensures
        match r {
            Some(p) => {
                &&& dec_text(buf@.skip(pos as int)) == Some((p.0@, p.1 as int))
                &&& pos + p.1 <= buf@.len()
                &&& p.1 >= 8
            },
            None => dec_text(buf@.skip(pos as int)) is None,
        },
{
    let ghost s = buf@.skip(pos as int);
    if buf.len() - pos < 8 {
        return None;
    }
    let n64 = read_u64_at(buf, pos);
    proof {
        assert(s[0] == buf@[pos as int]);
        assert(s[1] == buf@[pos + 1]);
        assert(s[2] == buf@[pos + 2]);
        assert(s[3] == buf@[pos + 3]);
        assert(s[4] == buf@[pos + 4]);
        assert(s[5] == buf@[pos + 5]);
        assert(s[6] == buf@[pos + 6]);
        assert(s[7] == buf@[pos + 7]);
    }
    if n64 > (buf.len() - pos - 8) as u64 {
        return None;
    }
    let n = n64 as usize;
    let start = pos + 8;
    let mut cur = start;
    let mut acc = String::new();
    let mut i: usize = 0;
    proof {
        assert(buf@.skip(start as int) =~= s.skip(8));
        assert(acc@ + Seq::<char>::empty() =~= acc@);
    }
    while i < n
        invariant
            i <= n,
            n == n64,
            pos + 8 == start,
            start <= cur <= buf@.len(),
            cur == start + 4 * i,
            acc@.len() == i,
            n64 <= buf@.len() - pos - 8,
            s == buf@.skip(pos as int),
            dec_text(s) == (match dec_chars(s.skip(8), n as nat) {
                Some(cs) => Some((cs, 8 + 4 * (n as int))),
                None => None,
            }),
            dec_chars(s.skip(8), n as nat) == match dec_chars(
                buf@.skip(cur as int),
                (n - i) as nat,
            ) {
                Some(cs) => Some(acc@ + cs),
                None => None,
            },
        decreases n - i,
    {
        let ghost t = buf@.skip(cur as int);
        if buf.len() - cur < 4 {
            proof {
                assert(dec_chars(buf@.skip(cur as int), (n - i) as nat) is None);
                assert(dec_chars(s.skip(8), n as nat) is None);
                assert(dec_text(s) is None);
            }
            return None;
        }
        let u = read_u32_at(buf, cur);
        proof {
            assert(t[0] == buf@[cur as int]);
            assert(t[1] == buf@[cur + 1]);
            assert(t[2] == buf@[cur + 2]);
            assert(t[3] == buf@[cur + 3]);
        }
        match char::from_u32(u) {
            Some(c) => {
                proof {
                    vstd::utf8::char_u32_cast(c, u);
                    assert(buf@.skip(cur + 4) =~= t.skip(4));
                    let cs0 = dec_chars(buf@.skip(cur + 4), (n - i - 1) as nat);
                    if cs0 is Some {
                        assert(acc@ + (seq![u as char] + cs0->0) =~= acc@.push(c)
                            + cs0->0);
                    }
                }
                acc.push(c);
                cur = cur + 4;
                i = i + 1;
            },
            None => {
                proof {
                    assert(dec_chars(buf@.skip(cur as int), (n - i) as nat) is None);
                    assert(dec_chars(s.skip(8), n as nat) is None);
                    assert(dec_text(s) is None);
                }
                return None;
            },
        }
    }
    proof {
        assert(dec_chars(buf@.skip(cur as int), 0nat) == Some(Seq::<char>::empty()));
        assert(acc@ + Seq::<char>::empty() =~= acc@);
        assert(4 * (n64 as int) == (cur - start) as int);
    }
    Some((acc, cur - pos))
}


/// Decodes one value at `pos`: the tag byte, then the payload the tag
/// announces.  Matches [`dec_value`] on the suffix of the buffer exactly.
fn decode_value(buf: &Vec<u8>, pos: usize) -> (r: Option<(Value, usize)>)
    requires
        pos <= buf@.len(),
    ensures
        match r {
            Some(p) => {
                &&& dec_value(buf@.skip(pos as int)) == Some((p.0@, p.1 as int))
                &&& pos + p.1 <= buf@.len()
                &&& p.1 >= 1
            },
            None => dec_value(buf@.skip(pos as int)) is None,
        },
    decreases buf@.len() - pos, 0int,
{
    let ghost s = buf@.skip(pos as int);
    proof {
        vstd::std_specs::vec::axiom_spec_len(buf);
    }
    if pos >= buf.len() {
        return None;
    }
    let tag = buf[pos];
    let ghost rr = s.skip(1);
    proof {
        assert(s[0] == buf@[pos as int]);
        assert(rr =~= buf@.skip(pos + 1));
    }
    if tag == 1 {
        match decode_text(buf, pos + 1) {
            Some(p) => {
                let (st, c) = p;
                Some((Value::Text(st), 1 + c))
            },
            None => None,
        }
    } else if tag == 2 {
        if buf.len() - (pos + 1) < 8 {
            return None;
        }
        let u = read_u64_at(buf, pos + 1);
        proof {
            assert(rr[0] == buf@[pos + 1]);
            assert(rr[1] == buf@[pos + 2]);
            assert(rr[2] == buf@[pos + 3]);
            assert(rr[3] == buf@[pos + 4]);
            assert(rr[4] == buf@[pos + 5]);
            assert(rr[5] == buf@[pos + 6]);
            assert(rr[6] == buf@[pos + 7]);
            assert(rr[7] == buf@[pos + 8]);
        }
        Some((Value::Int(#[verifier::truncate] (u as i64)), 9))
    } else if tag == 3 {
        if buf.len() - (pos + 1) < 1 {
            return None;
        }
        let b = buf[pos + 1];
        proof {
            assert(rr[0] == buf@[pos + 1]);
        }
        if b == 1 {
            Some((Value::Boolean(true), 2))
        } else if b == 0 {
            Some((Value::Boolean(false), 2))
        } else {
            None
        }
    } else if tag == 4 {
        match decode_doc(buf, pos + 1) {
            Some(p) => {
                let (d, c) = p;
                Some((Value::SubDoc(d), 1 + c))
            },
            None => None,
        }
    } else if tag == 5 {
        if buf.len() - (pos + 1) < 8 {
            return None;
        }
        let n64 = read_u64_at(buf, pos + 1);
        proof {
            assert(rr[0] == buf@[pos + 1]);
            assert(rr[1] == buf@[pos + 2]);
            assert(rr[2] == buf@[pos + 3]);
            assert(rr[3] == buf@[pos + 4]);
            assert(rr[4] == buf@[pos + 5]);
            assert(rr[5] == buf@[pos + 6]);
            assert(rr[6] == buf@[pos + 7]);
            assert(rr[7] == buf@[pos + 8]);
        }
        if n64 > (buf.len() - (pos + 9)) as u64 {
            return None;
        }
        let n = n64 as usize;
        let mut items: Vec<Value> = Vec::new();
        let mut cur = pos + 9;
        let mut i: usize = 0;
        proof {
            assert(buf@.skip(cur as int) =~= rr.skip(8));
            assert(values_model(items@) + (dec_values(rr.skip(8), n as nat)->0).0
                =~= (dec_values(rr.skip(8), n as nat)->0).0);
        }
        while i < n
            invariant
                i <= n,
                n == n64,
                pos + 9 <= cur <= buf@.len(),
                items@.len() == i,
                s == buf@.skip(pos as int),
                rr == s.skip(1),
                dec_value(s) == (match dec_values(rr.skip(8), n as nat) {
                    Some(q) => Some((ValueModel::Sequence(q.0), 9 + q.1)),
                    None => None,
                }),
                dec_values(rr.skip(8), n as nat) == (match dec_values(
                    buf@.skip(cur as int),
                    (n - i) as nat,
                ) {
                    Some(p) => Some(
                        (values_model(items@) + p.0, (cur - (pos + 9)) + p.1),
                    ),
                    None => None,
                }),
            decreases n - i,
        {
            proof {
                vstd::std_specs::vec::axiom_spec_len(buf);
                assert(decreases_to!(buf@.len() - pos as int => buf@.len() - cur as int));
            }
            match decode_value(buf, cur) {
                Some(p) => {
                    let (v, c) = p;
                    proof {
                        let t = buf@.skip(cur as int);
                        assert(dec_value(t) == Some((v@, c as int)));
                        assert(1 <= c as int <= t.len());
                        assert(buf@.skip(cur + c) =~= t.skip(c as int));
                        let tail = dec_values(buf@.skip(cur + c), (n - i - 1) as nat);
                        if tail is Some {
                            assert(values_model(items@) + (seq![v@] + (tail->0).0)
                                =~= values_model(items@.push(v)) + (tail->0).0);
                        }
                    }
                    items.push(v);
                    cur = cur + c;
                    i = i + 1;
                },
                None => {
                    proof {
                        assert(dec_values(buf@.skip(cur as int), (n - i) as nat) is None);
                    }
                    return None;
                },
            }
        }
        proof {
            assert(dec_values(buf@.skip(cur as int), 0nat) == Some(
                (Seq::<ValueModel>::empty(), 0int),
            ));
            assert(values_model(items@) + Seq::<ValueModel>::empty() =~= values_model(
                items@,
            ));
        }
        Some((Value::Sequence(items), cur - pos))
    } else if tag == 6 {
        if buf.len() - (pos + 1) < 8 {
            return None;
        }
        let u = read_u64_at(buf, pos + 1);
        proof {
            assert(rr[0] == buf@[pos + 1]);
            assert(rr[1] == buf@[pos + 2]);
            assert(rr[2] == buf@[pos + 3]);
            assert(rr[3] == buf@[pos + 4]);
            assert(rr[4] == buf@[pos + 5]);
            assert(rr[5] == buf@[pos + 6]);
            assert(rr[6] == buf@[pos + 7]);
            assert(rr[7] == buf@[pos + 8]);
        }
        Some((Value::Date(#[verifier::truncate] (u as i64)), 9))
    } else if tag == 7 {
        Some((Value::Null, 1))
    } else if tag == 8 {
        if buf.len() - (pos + 1) < 8 {
            return None;
        }
        let n64 = read_u64_at(buf, pos + 1);
        proof {
            assert(rr[0] == buf@[pos + 1]);
            assert(rr[1] == buf@[pos + 2]);
            assert(rr[2] == buf@[pos + 3]);
            assert(rr[3] == buf@[pos + 4]);
            assert(rr[4] == buf@[pos + 5]);
            assert(rr[5] == buf@[pos + 6]);
            assert(rr[6] == buf@[pos + 7]);
            assert(rr[7] == buf@[pos + 8]);
        }
        if n64 > (buf.len() - (pos + 9)) as u64 {
            return None;
        }
        let n = n64 as usize;
        let mut bytes: Vec<u8> = Vec::new();
        let mut i: usize = 0;
        proof {
            assert(bytes@ =~= buf@.subrange(pos + 9, pos + 9));
        }
        while i < n
            invariant
                i <= n,
                pos + 9 + n <= buf@.len(),
                bytes@ == buf@.subrange(pos + 9, pos + 9 + i),
            decreases n - i,
        {
            proof {
                vstd::std_specs::vec::axiom_spec_len(buf);
            }
            bytes.push(buf[pos + 9 + i]);
            proof {
                assert(bytes@ =~= buf@.subrange(pos + 9, pos + 9 + i + 1));
            }
            i = i + 1;
        }
        proof {
            assert(rr.skip(8).take(n64 as int) =~= buf@.subrange(pos + 9, pos + 9 + n));
        }
        Some((Value::Binary(bytes), 9 + n))
    } else {
        None
    }
}

/// Decodes a document body at `pos`: the field count, then each field as a
/// key string and a value.  Matches [`dec_doc`] on the suffix exactly.
fn decode_doc(buf: &Vec<u8>, pos: usize) -> (r: Option<(Document, usize)>)
    requires
        pos <= buf@.len(),
    ensures
        match r {
            Some(p) => {
                &&& dec_doc(buf@.skip(pos as int)) == Some((p.0@, p.1 as int))
                &&& pos + p.1 <= buf@.len()
                &&& p.1 >= 8
            },
            None => dec_doc(buf@.skip(pos as int)) is None,
        },
    decreases buf@.len() - pos, 1int,
{
    let ghost s = buf@.skip(pos as int);
    proof {
        vstd::std_specs::vec::axiom_spec_len(buf);
    }
    if buf.len() - pos < 8 {
        return None;
    }
    let n64 = read_u64_at(buf, pos);
    proof {
        assert(s[0] == buf@[pos as int]);
        assert(s[1] == buf@[pos + 1]);
        assert(s[2] == buf@[pos + 2]);
        assert(s[3] == buf@[pos + 3]);
        assert(s[4] == buf@[pos + 4]);
        assert(s[5] == buf@[pos + 5]);
        assert(s[6] == buf@[pos + 6]);
        assert(s[7] == buf@[pos + 7]);
    }
    if n64 > (buf.len() - (pos + 8)) as u64 {
        return None;
    }
    let n = n64 as usize;
    let mut fields: Vec<(String, Value)> = Vec::new();
    let mut cur = pos + 8;
    let mut i: usize = 0;
    proof {
        assert(buf@.skip(cur as int) =~= s.skip(8));
        assert(fields_model(fields@) + (dec_fields(s.skip(8), n as nat)->0).0
            =~= (dec_fields(s.skip(8), n as nat)->0).0);
    }
    while i < n
        invariant
            i <= n,
            n == n64,
            pos + 8 <= cur <= buf@.len(),
            fields@.len() == i,
            s == buf@.skip(pos as int),
            dec_doc(s) == (match dec_fields(s.skip(8), n as nat) {
                Some(q) => Some((q.0, 8 + q.1)),
                None => None,
            }),
            dec_fields(s.skip(8), n as nat) == (match dec_fields(
                buf@.skip(cur as int),
                (n - i) as nat,
            ) {
                Some(p) => Some((fields_model(fields@) + p.0, (cur - (pos + 8)) + p.1)),
                None => None,
            }),
        decreases n - i,
    {
        proof {
            vstd::std_specs::vec::axiom_spec_len(buf);
        }
        let tc: usize;
        let key: String;
        match decode_text(buf, cur) {
            Some(p) => {
                key = p.0;
                tc = p.1;
            },
            None => {
                proof {
                    assert(dec_fields(buf@.skip(cur as int), (n - i) as nat) is None);
                }
                return None;
            },
        }
        proof {
            assert(decreases_to!(buf@.len() - pos as int, 1int => buf@.len() - (cur + tc) as int, 0int));
            assert(buf@.skip(cur + tc) =~= buf@.skip(cur as int).skip(tc as int));
        }
        match decode_value(buf, cur + tc) {
            Some(p) => {
                let (v, vc) = p;
                proof {
                    let t = buf@.skip(cur as int);
                    assert(dec_text(t) == Some((key@, tc as int)));
                    assert(dec_value(t.skip(tc as int)) == Some((v@, vc as int)));
                    assert(1 <= vc as int <= t.len() - tc);
                    assert(buf@.skip(cur + tc + vc) =~= t.skip(tc + vc));
                    let tail = dec_fields(buf@.skip(cur + tc + vc), (n - i - 1) as nat);
                    if tail is Some {
                        assert(fields_model(fields@) + (seq![(key@, v@)] + (tail->0).0)
                            =~= fields_model(fields@.push((key, v))) + (tail->0).0);
                    }
                }
                fields.push((key, v));
                cur = cur + tc + vc;
                i = i + 1;
            },
            None => {
                proof {
                    assert(dec_value(buf@.skip(cur as int).skip(tc as int)) is None);
                    assert(dec_fields(buf@.skip(cur as int), (n - i) as nat) is None);
                }
                return None;
            },
        }
    }
    proof {
        assert(dec_fields(buf@.skip(cur as int), 0nat) == Some(
            (Seq::<(Seq<char>, ValueModel)>::empty(), 0int),
        ));
        assert(fields_model(fields@) + Seq::<(Seq<char>, ValueModel)>::empty()
            =~= fields_model(fields@));
    }
    let d = Document { fields };
    Some((d, cur - pos))
}

/// Decodes one whole record: the four-byte total length, which must match
/// the buffer exactly, then the document body, which must account for
/// every remaining byte.
///
/// Returns `Some` precisely when [`dec_record`] accepts the bytes, and then
/// the decoded document's model is [`dec_record`]'s result.  Together with
/// [`encode_record`] and [`lemma_dec_enc_record`] this gives the round
/// trip: decoding an encoded document yields a structurally equal document.
pub fn decode_record(buf: &Vec<u8>) -> (r: Option<Document>)
    ensures
        match r {
            Some(d) => dec_record(buf@) == Some(d@),
            None => dec_record(buf@) is None,
        },
{
    proof {
        vstd::std_specs::vec::axiom_spec_len(buf);
    }
    if buf.len() < 4 {
        return None;
    }
    let total = read_u32_at(buf, 0);
    if total as u64 != buf.len() as u64 {
        return None;
    }
    match decode_doc(buf, 4) {
        Some(p) => {
            let (d, c) = p;
            if 4 + c == buf.len() {
                Some(d)
            } else {
                None
            }
        },
        None => None,
    }
}

} // verus!
