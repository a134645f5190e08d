//! Encoding a value by its shape.
use vstd::prelude::*;

use crate::de::{check_utf8, utf8_valid};
use crate::error::PlainSerializerError;
use crate::shape::{
    in_range, lemma_sv_list_index, lemma_sv_list_len, raw_of, sv_list, width, FieldShape,
    SValue, ScalarKind, Shape, Value,
};
use crate::wire::{le_bytes, write_le};

verus! {

/// The largest element count of a collection: its length prefix is a `u16`.
pub const MAX_COLLECTION_LEN: usize = 0xffff;

/// The bytes that encode `v` as `shape`, or why it cannot be encoded.
pub open spec fn spec_encode(shape: Shape, v: SValue) -> Result<Seq<u8>, PlainSerializerError>
    decreases shape, 0int,
{
    match shape {
        Shape::Scalar(k) => match v {
            SValue::Bool(b) => if k is Bool {
                Ok(seq![if b { 1u8 } else { 0u8 }])
            } else {
                Err(PlainSerializerError::ShapeMismatch)
            },
            SValue::Int(i) => if !(k is Bool) && in_range(k, i) {
                Ok(le_bytes(raw_of(k, i), width(k)))
            } else {
                Err(PlainSerializerError::ShapeMismatch)
            },
            _ => Err(PlainSerializerError::ShapeMismatch),
        },
        Shape::Struct { name, fields } => match v {
            SValue::Struct(vs) => if vs.len() == fields@.len() {
                spec_encode_fields(fields@, vs, 0)
            } else {
                Err(PlainSerializerError::ShapeMismatch)
            },
            _ => Err(PlainSerializerError::ShapeMismatch),
        },
        Shape::Opt(inner) => match v {
            SValue::Opt(None) => Ok(seq![0u8]),
            SValue::Opt(Some(b)) => match spec_encode(*inner, *b) {
                Ok(e) => Ok(seq![1u8] + e),
                Err(x) => Err(x),
            },
            _ => Err(PlainSerializerError::ShapeMismatch),
        },
        Shape::Collection(inner) => match v {
            SValue::List(vs) => if vs.len() > MAX_COLLECTION_LEN {
                Err(PlainSerializerError::TooBig(vs.len() as usize))
            } else {
                match spec_encode_many(*inner, vs, 0) {
                    Ok(e) => Ok(le_bytes(vs.len(), 2) + e),
                    Err(x) => Err(x),
                }
            },
            _ => Err(PlainSerializerError::ShapeMismatch),
        },
        Shape::FixedArray(n, inner) => match v {
            SValue::List(vs) => if vs.len() == n {
                spec_encode_many(*inner, vs, 0)
            } else {
                Err(PlainSerializerError::ShapeMismatch)
            },
            _ => Err(PlainSerializerError::ShapeMismatch),
        },
        Shape::Text => match v {
            SValue::Text(b) => if b.len() > MAX_COLLECTION_LEN {
                Err(PlainSerializerError::TooBig(b.len() as usize))
            } else if !utf8_valid(b) {
                Err(PlainSerializerError::Utf8Error)
            } else {
                Ok(le_bytes(b.len(), 2) + b)
            },
            _ => Err(PlainSerializerError::ShapeMismatch),
        },
        Shape::Enum { repr, variants } => match v {
            SValue::Int(i) => if !in_range(repr, i) {
                Err(PlainSerializerError::ShapeMismatch)
            } else if !variants@.contains(i as i128) {
                Err(PlainSerializerError::InvalidVariant(i as i128))
            } else {
                Ok(le_bytes(raw_of(repr, i), width(repr)))
            },
            _ => Err(PlainSerializerError::ShapeMismatch),
        },
    }
}

/// The encodings of `vs[i..]` as `elem`, back to back.
pub open spec fn spec_encode_many(elem: Shape, vs: Seq<SValue>, i: int) -> Result<
    Seq<u8>,
    PlainSerializerError,
>
    decreases elem, vs.len() - i + 1,
{
    if i < 0 || i >= vs.len() {
        Ok(Seq::empty())
    } else {
        match spec_encode(elem, vs[i]) {
            Ok(e) => match spec_encode_many(elem, vs, i + 1) {
                Ok(rest) => Ok(e + rest),
                Err(x) => Err(x),
            },
            Err(x) => Err(x),
        }
    }
}

/// The encodings of `vs[i..]` as the fields `fields[i..]`, back to back.
pub open spec fn spec_encode_fields(fields: Seq<FieldShape>, vs: Seq<SValue>, i: int) -> Result<
    Seq<u8>,
    PlainSerializerError,
>
    decreases fields, fields.len() - i,
{
    if i < 0 || i >= fields.len() || i >= vs.len() {
        Ok(Seq::empty())
    } else {
        match spec_encode(fields[i].shape, vs[i]) {
            Ok(e) => match spec_encode_fields(fields, vs, i + 1) {
                Ok(rest) => Ok(e + rest),
                Err(x) => Err(x),
            },
            Err(x) => Err(x),
        }
    }
}

/// `done` followed by what `r` encoded, or `r`'s failure.
pub open spec fn then_bytes(done: Seq<u8>, r: Result<Seq<u8>, PlainSerializerError>) -> Result<
    Seq<u8>,
    PlainSerializerError,
> {
    match r {
        Ok(b) => Ok(done + b),
        Err(x) => Err(x),
    }
}

/// Writes values of given shapes to a growing byte buffer.
pub struct PlainSerializer {
    writer: Vec<u8>,
}

impl PlainSerializer {
    pub closed spec fn output(&self) -> Seq<u8> {
        self.writer@
    }

    pub fn new() -> (r: Self)
        ensures
            r.output() == Seq::<u8>::empty(),
    {
        PlainSerializer { writer: Vec::new() }
    }

    /// The bytes written so far.
    pub fn into_bytes(self) -> (r: Vec<u8>)
        ensures
            r@ == self.output(),
    {
        self.writer
    }

    /// Appends the encoding of `v` as `shape`.
    pub fn serialize(&mut self, shape: &Shape, v: &Value) -> (r: Result<(), PlainSerializerError>)
        ensures
            match spec_encode(*shape, v@) {
                Ok(b) => r is Ok && final(self).output() == old(self).output() + b,
                Err(x) => r == Err::<(), _>(x),
            },
            (shape is Collection && (v@ matches SValue::List(vs) && vs.len() > MAX_COLLECTION_LEN))
                ==> final(self).output() == old(self).output(),
            (shape is Text && (v@ matches SValue::Text(b) && (b.len() > MAX_COLLECTION_LEN
                || !utf8_valid(b)))) ==> final(self).output() == old(self).output(),
        decreases shape, 0int,
    {
        match shape {
            Shape::Scalar(k) => match v {
                Value::Bool(b) => match k {
                    ScalarKind::Bool => {
                        self.writer.push(if *b { 1u8 } else { 0u8 });
                        assert(self.writer@ =~= old(self).writer@ + seq![if *b { 1u8 } else { 0u8 }]);
                        Ok(())
                    },
                    _ => Err(PlainSerializerError::ShapeMismatch),
                },
                Value::Int(i) => {
                    let is_bool = match k {
                        ScalarKind::Bool => true,
                        _ => false,
                    };
                    if is_bool || !k.fits(*i) {
                        return Err(PlainSerializerError::ShapeMismatch);
                    }
                    let raw = k.raw_from_int(*i);
                    write_le(&mut self.writer, raw, k.width());
                    Ok(())
                },
                _ => Err(PlainSerializerError::ShapeMismatch),
            },
            Shape::Struct { name, fields } => match v {
                Value::Struct(vs) => {
                    proof {
                        lemma_sv_list_len(vs@);
                    }
                    if vs.len() != fields.len() {
                        return Err(PlainSerializerError::ShapeMismatch);
                    }
                    self.write_fields(fields, vs)
                },
                _ => Err(PlainSerializerError::ShapeMismatch),
            },
            Shape::Opt(inner) => match v {
                Value::Opt(None) => {
                    self.writer.push(0u8);
                    assert(self.writer@ =~= old(self).writer@ + seq![0u8]);
                    Ok(())
                },
                Value::Opt(Some(b)) => {
                    self.writer.push(1u8);
                    let res = self.serialize(inner, b);
                    match res {
                        Ok(()) => {
                            proof {
                                let e = spec_encode(**inner, (**b)@)->Ok_0;
                                assert(self.writer@ =~= old(self).writer@ + (seq![1u8] + e));
                            }
                            Ok(())
                        },
                        Err(x) => Err(x),
                    }
                },
                _ => Err(PlainSerializerError::ShapeMismatch),
            },
            Shape::Collection(inner) => match v {
                Value::List(vs) => {
                    proof {
                        lemma_sv_list_len(vs@);
                    }
                    if vs.len() > MAX_COLLECTION_LEN {
                        return Err(PlainSerializerError::TooBig(vs.len()));
                    }
                    write_le(&mut self.writer, vs.len() as u64, 2);
                    let ghost mid = self.writer@;
                    let res = self.write_many(inner, vs);
                    proof {
                        match spec_encode_many(**inner, sv_list(vs@), 0) {
                            Ok(e) => {
                                assert(self.writer@ =~= old(self).writer@ + (le_bytes(
                                    vs@.len() as nat,
                                    2,
                                ) + e));
                            },
                            Err(x) => {},
                        }
                    }
                    res
                },
                _ => Err(PlainSerializerError::ShapeMismatch),
            },
            Shape::FixedArray(n, inner) => match v {
                Value::List(vs) => {
                    proof {
                        lemma_sv_list_len(vs@);
                    }
                    if vs.len() != *n {
                        return Err(PlainSerializerError::ShapeMismatch);
                    }
                    self.write_many(inner, vs)
                },
                _ => Err(PlainSerializerError::ShapeMismatch),
            },
            Shape::Text => match v {
                Value::Text(b) => {
                    if b.len() > MAX_COLLECTION_LEN {
                        return Err(PlainSerializerError::TooBig(b.len()));
                    }
                    if !check_utf8(b.as_slice()) {
                        return Err(PlainSerializerError::Utf8Error);
                    }
                    write_le(&mut self.writer, b.len() as u64, 2);
                    let ghost mid = self.writer@;
                    let mut i: usize = 0;
                    while i < b.len()
                        invariant
                            i <= b@.len(),
                            self.writer@ == mid + b@.subrange(0, i as int),
                        decreases b@.len() - i,
                    {
                        self.writer.push(b[i]);
                        i = i + 1;
                        assert(self.writer@ =~= mid + b@.subrange(0, i as int));
                    }
                    assert(b@.subrange(0, b@.len() as int) =~= b@);
                    assert(self.writer@ =~= old(self).writer@ + (le_bytes(b@.len() as nat, 2) + b@));
                    Ok(())
                },
                _ => Err(PlainSerializerError::ShapeMismatch),
            },
            Shape::Enum { repr, variants } => match v {
                Value::Int(i) => {
                    if !repr.fits(*i) {
                        return Err(PlainSerializerError::ShapeMismatch);
                    }
                    if !contains_value(variants, *i) {
                        return Err(PlainSerializerError::InvalidVariant(*i));
                    }
                    let raw = repr.raw_from_int(*i);
                    write_le(&mut self.writer, raw, repr.width());
                    Ok(())
                },
                _ => Err(PlainSerializerError::ShapeMismatch),
            },
        }
    }

    /// Appends the encodings of the elements `vs` as `elem`.
    fn write_many(&mut self, elem: &Shape, vs: &Vec<Value>) -> (r: Result<(), PlainSerializerError>)
        ensures
            match spec_encode_many(*elem, sv_list(vs@), 0) {
                Ok(b) => r is Ok && final(self).output() == old(self).output() + b,
                Err(x) => r == Err::<(), _>(x),
            },
        decreases elem, 1int,
    {
        let ghost svs = sv_list(vs@);
        let ghost start = self.writer@;
        proof {
            lemma_sv_list_len(vs@);
            assert(self.writer@.subrange(start.len() as int, self.writer@.len() as int) =~= Seq::<
                u8,
            >::empty());
            assert(spec_encode_many(*elem, svs, 0) =~= then_bytes(Seq::<u8>::empty(), spec_encode_many(*elem, svs, 0)));
        }
        let mut i: usize = 0;
        while i < vs.len()
            invariant
                i <= vs@.len(),
                svs == sv_list(vs@),
                svs.len() == vs@.len(),
                start == old(self).output(),
                self.writer@.len() >= start.len(),
                self.writer@.subrange(0, start.len() as int) == start,
                spec_encode_many(*elem, svs, 0) == then_bytes(
                    self.writer@.subrange(start.len() as int, self.writer@.len() as int),
                    spec_encode_many(*elem, svs, i as int),
                ),
            decreases vs@.len() - i,
        {
            let ghost done = self.writer@.subrange(start.len() as int, self.writer@.len() as int);
            proof {
                lemma_sv_list_index(vs@, i as int);
            }
            let res = self.serialize(elem, &vs[i]);
            match res {
                Ok(()) => {},
                Err(x) => {
                    return Err(x);
                },
            }
            proof {
                let e = spec_encode(*elem, svs[i as int])->Ok_0;
                assert(self.writer@.subrange(0, start.len() as int) =~= start);
                assert(self.writer@.subrange(start.len() as int, self.writer@.len() as int) =~= done
                    + e);
                match spec_encode_many(*elem, svs, i + 1) {
                    Ok(rest) => {
                        assert(done + (e + rest) =~= (done + e) + rest);
                    },
                    Err(x) => {},
                }
            }
            i = i + 1;
        }
        proof {
            let done = self.writer@.subrange(start.len() as int, self.writer@.len() as int);
            assert(done + Seq::<u8>::empty() =~= done);
            assert(self.writer@ =~= start + done);
        }
        Ok(())
    }

    /// Appends the encodings of the field values `vs` as the fields `fields`.
    fn write_fields(&mut self, fields: &Vec<FieldShape>, vs: &Vec<Value>) -> (r: Result<
        (),
        PlainSerializerError,
    >)
        requires
            vs@.len() == fields@.len(),
        ensures
            match spec_encode_fields(fields@, sv_list(vs@), 0) {
                Ok(b) => r is Ok && final(self).output() == old(self).output() + b,
                Err(x) => r == Err::<(), _>(x),
            },
        decreases fields, 1int,
    {
        let ghost svs = sv_list(vs@);
        let ghost start = self.writer@;
        proof {
            lemma_sv_list_len(vs@);
            assert(self.writer@.subrange(start.len() as int, self.writer@.len() as int) =~= Seq::<
                u8,
            >::empty());
            assert(spec_encode_fields(fields@, svs, 0) =~= then_bytes(Seq::<u8>::empty(), spec_encode_fields(fields@, svs, 0)));
        }
        let mut i: usize = 0;
        while i < fields.len()
            invariant
                i <= fields@.len(),
                vs@.len() == fields@.len(),
                svs == sv_list(vs@),
                svs.len() == vs@.len(),
                start == old(self).output(),
                self.writer@.len() >= start.len(),
                self.writer@.subrange(0, start.len() as int) == start,
                spec_encode_fields(fields@, svs, 0) == then_bytes(
                    self.writer@.subrange(start.len() as int, self.writer@.len() as int),
                    spec_encode_fields(fields@, svs, i as int),
                ),
            decreases fields@.len() - i,
        {
            let ghost done = self.writer@.subrange(start.len() as int, self.writer@.len() as int);
            proof {
                lemma_sv_list_index(vs@, i as int);
            }
            let res = self.serialize(&fields[i].shape, &vs[i]);
            match res {
                Ok(()) => {},
                Err(x) => {
                    return Err(x);
                },
            }
            proof {
                let e = spec_encode(fields@[i as int].shape, svs[i as int])->Ok_0;
                assert(self.writer@.subrange(0, start.len() as int) =~= start);
                assert(self.writer@.subrange(start.len() as int, self.writer@.len() as int) =~= done
                    + e);
                match spec_encode_fields(fields@, svs, i + 1) {
                    Ok(rest) => {
                        assert(done + (e + rest) =~= (done + e) + rest);
                    },
                    Err(x) => {},
                }
            }
            i = i + 1;
        }
        proof {
            let done = self.writer@.subrange(start.len() as int, self.writer@.len() as int);
            assert(done + Seq::<u8>::empty() =~= done);
            assert(self.writer@ =~= start + done);
        }
        Ok(())
    }
}

/// Whether `v` is one of `variants`.
fn contains_value(variants: &Vec<i128>, v: i128) -> (r: bool)
    ensures
        r == variants@.contains(v),
{
    let mut i: usize = 0;
    while i < variants.len()
        invariant
            i <= variants@.len(),
            forall|j: int| 0 <= j < i ==> variants@[j] != v,
        decreases variants@.len() - i,
    {
        if variants[i] == v {
            assert(variants@[i as int] == v);
            return true;
        }
        i = i + 1;
    }
    false
}

/// The encoding of `value` as `shape`.
pub fn to_bytes(shape: &Shape, value: &Value) -> (r: Result<Vec<u8>, PlainSerializerError>)
    ensures
        match spec_encode(*shape, value@) {
            Ok(b) => r is Ok && r->Ok_0@ == b,
            Err(x) => r == Err::<Vec<u8>, _>(x),
        },
{
    let mut serializer = PlainSerializer::new();
    match serializer.serialize(shape, value) {
        Ok(()) => {
            assert(serializer.output() =~= Seq::<u8>::empty() + spec_encode(*shape, value@)->Ok_0);
            Ok(serializer.into_bytes())
        },
        Err(x) => Err(x),
    }
}

} // verus!
