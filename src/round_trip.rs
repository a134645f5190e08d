//! Decoding what was encoded gives the value back.
use vstd::prelude::*;

use crate::de::{spec_decode, spec_decode_fields, spec_decode_many, spec_from_bytes};
use crate::shape::{
    lemma_int_raw_round_trip, lemma_pow256_width, raw_of, width, FieldShape, SValue, ScalarKind,
    Shape,
};
use crate::ser::{spec_encode, spec_encode_fields, spec_encode_many};
use crate::wire::{le_bytes, le_nat, lemma_le_bytes_len, lemma_le_round_trip};

verus! {

/// `buf` holds `b` at `pos`.
pub open spec fn holds_at(buf: Seq<u8>, pos: nat, b: Seq<u8>) -> bool {
    pos + b.len() <= buf.len() && buf.subrange(pos as int, (pos + b.len()) as int) == b
}

proof fn lemma_split(buf: Seq<u8>, pos: nat, a: Seq<u8>, b: Seq<u8>)
    requires
        holds_at(buf, pos, a + b),
    ensures
        holds_at(buf, pos, a),
        holds_at(buf, pos + a.len(), b),
{
    let ab = a + b;
    assert(buf.subrange(pos as int, (pos + a.len()) as int) =~= ab.subrange(0, a.len() as int));
    assert(ab.subrange(0, a.len() as int) =~= a);
    assert(buf.subrange((pos + a.len()) as int, (pos + a.len() + b.len()) as int) =~= ab.subrange(
        a.len() as int,
        ab.len() as int,
    ));
    assert(ab.subrange(a.len() as int, ab.len() as int) =~= b);
}

/// A `u16` length prefix reads back as the length.
proof fn lemma_len_prefix(buf: Seq<u8>, pos: nat, n: nat)
    requires
        n <= 0xffff,
        holds_at(buf, pos, le_bytes(n, 2)),
    ensures
        le_nat(buf.subrange(pos as int, (pos + 2) as int)) == n,
{
    lemma_pow256_width(ScalarKind::U16);
    lemma_le_bytes_len(n, 2);
    lemma_le_round_trip(n, 2);
}

/// Decoding the encoding of `v` as `shape`, found at `pos` in `buf`, gives `v` and
/// ends right after the encoding.
pub proof fn lemma_decode_encoded(shape: Shape, v: SValue, buf: Seq<u8>, pos: nat)
    requires
        spec_encode(shape, v) is Ok,
        holds_at(buf, pos, spec_encode(shape, v)->Ok_0),
    ensures
        spec_decode(shape, buf, pos) == Ok::<(SValue, nat), crate::error::PlainSerializerError>(
            (v, pos + spec_encode(shape, v)->Ok_0.len()),
        ),
    decreases shape, 0int,
{
    let e = spec_encode(shape, v)->Ok_0;
    match shape {
        Shape::Scalar(k) => {
            match v {
                SValue::Bool(b) => {
                    assert(buf[pos as int] == buf.subrange(pos as int, (pos + 1) as int)[0]);
                },
                SValue::Int(i) => {
                    lemma_int_raw_round_trip(k, i);
                    lemma_le_bytes_len(raw_of(k, i), width(k));
                    lemma_le_round_trip(raw_of(k, i), width(k));
                },
                _ => {},
            }
        },
        Shape::Struct { name, fields } => {
            if let SValue::Struct(vs) = v {
                lemma_decode_encoded_fields(fields@, vs, 0, buf, pos);
                assert(vs.subrange(0, vs.len() as int) =~= vs);
            }
        },
        Shape::Opt(inner) => {
            assert(buf[pos as int] == buf.subrange(pos as int, (pos + e.len()) as int)[0]);
            if let SValue::Opt(Some(b)) = v {
                let ie = spec_encode(*inner, *b)->Ok_0;
                lemma_split(buf, pos, seq![1u8], ie);
                lemma_decode_encoded(*inner, *b, buf, pos + 1);
            }
        },
        Shape::Collection(inner) => {
            if let SValue::List(vs) = v {
                let ie = spec_encode_many(*inner, vs, 0)->Ok_0;
                lemma_le_bytes_len(vs.len(), 2);
                lemma_split(buf, pos, le_bytes(vs.len(), 2), ie);
                lemma_len_prefix(buf, pos, vs.len());
                lemma_decode_encoded_many(*inner, vs, 0, buf, pos + 2);
                assert(vs.subrange(0, vs.len() as int) =~= vs);
            }
        },
        Shape::FixedArray(n, inner) => {
            if let SValue::List(vs) = v {
                lemma_decode_encoded_many(*inner, vs, 0, buf, pos);
                assert(vs.subrange(0, vs.len() as int) =~= vs);
            }
        },
        Shape::Text => {
            if let SValue::Text(b) = v {
                lemma_le_bytes_len(b.len(), 2);
                lemma_split(buf, pos, le_bytes(b.len(), 2), b);
                lemma_len_prefix(buf, pos, b.len());
            }
        },
        Shape::Enum { repr, variants } => {
            if let SValue::Int(i) = v {
                lemma_int_raw_round_trip(repr, i);
                lemma_le_bytes_len(raw_of(repr, i), width(repr));
                lemma_le_round_trip(raw_of(repr, i), width(repr));
            }
        },
    }
}

/// The element form of `lemma_decode_encoded`, for `vs[i..]`.
pub proof fn lemma_decode_encoded_many(elem: Shape, vs: Seq<SValue>, i: int, buf: Seq<u8>, pos: nat)
    requires
        0 <= i <= vs.len(),
        spec_encode_many(elem, vs, i) is Ok,
        holds_at(buf, pos, spec_encode_many(elem, vs, i)->Ok_0),
    ensures
        spec_decode_many(elem, (vs.len() - i) as nat, buf, pos) == Ok::<
            (Seq<SValue>, nat),
            crate::error::PlainSerializerError,
        >((vs.subrange(i, vs.len() as int), pos + spec_encode_many(elem, vs, i)->Ok_0.len())),
    decreases elem, vs.len() - i + 1,
{
    if i == vs.len() {
        assert(vs.subrange(i, vs.len() as int) =~= Seq::<SValue>::empty());
    } else {
        let e0 = spec_encode(elem, vs[i])->Ok_0;
        let rest = spec_encode_many(elem, vs, i + 1)->Ok_0;
        lemma_split(buf, pos, e0, rest);
        lemma_decode_encoded(elem, vs[i], buf, pos);
        lemma_decode_encoded_many(elem, vs, i + 1, buf, pos + e0.len());
        assert(seq![vs[i]] + vs.subrange(i + 1, vs.len() as int) =~= vs.subrange(
            i,
            vs.len() as int,
        ));
        assert((vs.len() - i - 1) as nat == (vs.len() - (i + 1)) as nat);
    }
}

/// The field form of `lemma_decode_encoded`, for `fields[i..]`.
pub proof fn lemma_decode_encoded_fields(
    fields: Seq<FieldShape>,
    vs: Seq<SValue>,
    i: int,
    buf: Seq<u8>,
    pos: nat,
)
    requires
        0 <= i <= fields.len(),
        vs.len() == fields.len(),
        spec_encode_fields(fields, vs, i) is Ok,
        holds_at(buf, pos, spec_encode_fields(fields, vs, i)->Ok_0),
    ensures
        spec_decode_fields(fields, i, buf, pos) == Ok::<
            (Seq<SValue>, nat),
            crate::error::PlainSerializerError,
        >((vs.subrange(i, vs.len() as int), pos + spec_encode_fields(fields, vs, i)->Ok_0.len())),
    decreases fields, fields.len() - i,
{
    if i == fields.len() {
        assert(vs.subrange(i, vs.len() as int) =~= Seq::<SValue>::empty());
    } else {
        let e0 = spec_encode(fields[i].shape, vs[i])->Ok_0;
        let rest = spec_encode_fields(fields, vs, i + 1)->Ok_0;
        lemma_split(buf, pos, e0, rest);
        lemma_decode_encoded(fields[i].shape, vs[i], buf, pos);
        lemma_decode_encoded_fields(fields, vs, i + 1, buf, pos + e0.len());
        assert(seq![vs[i]] + vs.subrange(i + 1, vs.len() as int) =~= vs.subrange(
            i,
            vs.len() as int,
        ));
    }
}

/// Round trip: every value that encodes as `shape` decodes back to itself from its
/// encoding, whatever bytes follow it.
pub proof fn lemma_round_trip(shape: Shape, v: SValue, trailing: Seq<u8>)
    requires
        spec_encode(shape, v) is Ok,
    ensures
        spec_decode(shape, spec_encode(shape, v)->Ok_0 + trailing, 0) == Ok::<
            (SValue, nat),
            crate::error::PlainSerializerError,
        >((v, spec_encode(shape, v)->Ok_0.len())),
        spec_from_bytes(shape, spec_encode(shape, v)->Ok_0) == Ok::<
            SValue,
            crate::error::PlainSerializerError,
        >(v),
{
    let e = spec_encode(shape, v)->Ok_0;
    assert((e + trailing).subrange(0, e.len() as int) =~= e);
    lemma_decode_encoded(shape, v, e + trailing, 0);
    assert(e.subrange(0, e.len() as int) =~= e);
    lemma_decode_encoded(shape, v, e, 0);
}

} // verus!
