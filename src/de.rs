//! Decoding a buffer by a shape, with the offset tree built alongside.
use vstd::prelude::*;

use crate::error::PlainSerializerError;
use crate::layout::static_size;
use crate::offsets::{
    frame_kept, lemma_frame_kept_top, lemma_frame_kept_trans, lemma_packed_after_begin,
    lemma_packed_after_field, lemma_packed_after_finish, lemma_packed_after_pseudo,
    pseudo_inserted, same_below_top, stack_packed, top, tree_packed, FieldOffset,
    OffsetDeserializer, StructOffset,
};
use crate::shape::{
    in_range, int_of, lemma_pow256_width, lemma_sv_list_push, sv_list, width, FieldShape,
    SValue, ScalarKind, Shape, Value,
};
use crate::wire::{le_nat, lemma_le_nat_bound, lemma_pow256_8, lemma_pow256_mono, read_le};

verus! {

/// Whether `b` is well-formed UTF-8.
pub uninterp spec fn utf8_valid(b: Seq<u8>) -> bool;

/// Relies on `std::str::from_utf8`, which succeeds exactly on well-formed UTF-8
/// (every ASCII byte string among them).
#[verifier::external_body]
pub(crate) fn check_utf8(b: &[u8]) -> (r: bool)
    ensures
        r == utf8_valid(b@),
        (forall|i: int| 0 <= i < b@.len() ==> b@[i] < 128) ==> r,
{
    std::str::from_utf8(b).is_ok()
}

/// Reads the integer of kind `k` at `pos`.
pub open spec fn spec_read_int(k: ScalarKind, buf: Seq<u8>, pos: nat) -> Result<
    (int, nat),
    PlainSerializerError,
> {
    if pos + width(k) <= buf.len() {
        Ok((int_of(k, le_nat(buf.subrange(pos as int, (pos + width(k)) as int))), pos + width(k)))
    } else {
        Err(PlainSerializerError::UnexpectedEof)
    }
}

/// The value that `shape` decodes from `buf` at `pos`, with the position after it.
pub open spec fn spec_decode(shape: Shape, buf: Seq<u8>, pos: nat) -> Result<
    (SValue, nat),
    PlainSerializerError,
>
    decreases shape, 0int,
{
    match shape {
        Shape::Scalar(k) => {
            if k is Bool {
                if pos + 1 <= buf.len() {
                    Ok((SValue::Bool(buf[pos as int] != 0), pos + 1))
                } else {
                    Err(PlainSerializerError::UnexpectedEof)
                }
            } else {
                match spec_read_int(k, buf, pos) {
                    Ok((v, e)) => Ok((SValue::Int(v), e)),
                    Err(x) => Err(x),
                }
            }
        },
        Shape::Struct { name, fields } => match spec_decode_fields(fields@, 0, buf, pos) {
            Ok((vs, e)) => Ok((SValue::Struct(vs), e)),
            Err(x) => Err(x),
        },
        Shape::Opt(inner) => {
            if pos + 1 <= buf.len() {
                if buf[pos as int] == 0 {
                    Ok((SValue::Opt(None), pos + 1))
                } else {
                    match spec_decode(*inner, buf, pos + 1) {
                        Ok((v, e)) => Ok((SValue::Opt(Some(Box::new(v))), e)),
                        Err(x) => Err(x),
                    }
                }
            } else {
                Err(PlainSerializerError::UnexpectedEof)
            }
        },
        Shape::Collection(inner) => match spec_read_int(ScalarKind::U16, buf, pos) {
            Ok((n, p)) => match spec_decode_many(*inner, n as nat, buf, p) {
                Ok((vs, e)) => Ok((SValue::List(vs), e)),
                Err(x) => Err(x),
            },
            Err(x) => Err(x),
        },
        Shape::FixedArray(n, inner) => match spec_decode_many(*inner, n as nat, buf, pos) {
            Ok((vs, e)) => Ok((SValue::List(vs), e)),
            Err(x) => Err(x),
        },
        Shape::Text => match spec_read_int(ScalarKind::U16, buf, pos) {
            Ok((n, p)) => {
                if p + n <= buf.len() {
                    let b = buf.subrange(p as int, p + n);
                    if utf8_valid(b) {
                        Ok((SValue::Text(b), (p + n) as nat))
                    } else {
                        Err(PlainSerializerError::Utf8Error)
                    }
                } else {
                    Err(PlainSerializerError::UnexpectedEof)
                }
            },
            Err(x) => Err(x),
        },
        Shape::Enum { repr, variants } => match spec_read_int(repr, buf, pos) {
            Ok((v, e)) => {
                if variants@.contains(v as i128) {
                    Ok((SValue::Int(v), e))
                } else {
                    Err(PlainSerializerError::InvalidVariant(v as i128))
                }
            },
            Err(x) => Err(x),
        },
    }
}

/// The values of `n` elements of shape `elem`, back to back from `pos`.
pub open spec fn spec_decode_many(elem: Shape, n: nat, buf: Seq<u8>, pos: nat) -> Result<
    (Seq<SValue>, nat),
    PlainSerializerError,
>
    decreases elem, n + 1,
{
    if n == 0 {
        Ok((Seq::empty(), pos))
    } else {
        match spec_decode(elem, buf, pos) {
            Ok((v, p)) => match spec_decode_many(elem, (n - 1) as nat, buf, p) {
                Ok((vs, e)) => Ok((seq![v] + vs, e)),
                Err(x) => Err(x),
            },
            Err(x) => Err(x),
        }
    }
}

/// The values of the fields `fields[i..]`, back to back from `pos`.
pub open spec fn spec_decode_fields(fields: Seq<FieldShape>, i: int, buf: Seq<u8>, pos: nat) -> Result<
    (Seq<SValue>, nat),
    PlainSerializerError,
>
    decreases fields, fields.len() - i,
{
    if i < 0 || i >= fields.len() {
        Ok((Seq::empty(), pos))
    } else {
        match spec_decode(fields[i].shape, buf, pos) {
            Ok((v, p)) => match spec_decode_fields(fields, i + 1, buf, p) {
                Ok((vs, e)) => Ok((seq![v] + vs, e)),
                Err(x) => Err(x),
            },
            Err(x) => Err(x),
        }
    }
}

/// `acc` followed by what `r` decoded, or `r`'s failure.
pub open spec fn after(acc: Seq<SValue>, r: Result<(Seq<SValue>, nat), PlainSerializerError>) -> Result<
    (Seq<SValue>, nat),
    PlainSerializerError,
> {
    match r {
        Ok((vs, e)) => Ok((acc + vs, e)),
        Err(x) => Err(x),
    }
}

/// The value of `shape` decoded from the start of `bytes`; bytes after it are left
/// unread.
pub open spec fn spec_from_bytes(shape: Shape, bytes: Seq<u8>) -> Result<
    SValue,
    PlainSerializerError,
> {
    match spec_decode(shape, bytes, 0) {
        Ok((v, e)) => Ok(v),
        Err(x) => Err(x),
    }
}

/// Shapes whose decoding begins with a pseudo-field (a presence flag or a length).
pub open spec fn starts_with_pseudo(shape: Shape) -> bool {
    shape is Opt || shape is Collection || shape is Text
}

/// Shapes whose offset trees come out packed: no collection or fixed array holds
/// elements that begin with a pseudo-field. (Such elements split the
/// collection's field again at each element, after the first one has moved it.)
pub open spec fn tracks_packed(shape: Shape) -> bool
    decreases shape, 0int,
{
    match shape {
        Shape::Struct { name, fields } => forall|i: int|
            0 <= i < fields@.len() ==> tracks_packed(#[trigger] fields@[i].shape),
        Shape::Opt(inner) => tracks_packed(*inner),
        Shape::Collection(inner) => !starts_with_pseudo(*inner) && tracks_packed(*inner),
        Shape::FixedArray(n, inner) => !starts_with_pseudo(*inner) && tracks_packed(*inner),
        _ => true,
    }
}

/// The innermost open struct has its fields packed.
pub open spec fn fields_packed_top(structs: Seq<StructOffset>) -> bool {
    structs.len() > 0 ==> crate::offsets::fields_packed(top(structs).fields@)
}

/// Shapes without any struct inside.
pub open spec fn struct_free(shape: Shape) -> bool
    decreases shape,
{
    match shape {
        Shape::Struct { .. } => false,
        Shape::Opt(inner) => struct_free(*inner),
        Shape::Collection(inner) => struct_free(*inner),
        Shape::FixedArray(n, inner) => struct_free(*inner),
        _ => true,
    }
}

/// Shapes that the offset tracker follows without failing: no struct is repeated
/// inside one field (as the elements of a collection or a fixed array are).
pub open spec fn tracks_fully(shape: Shape) -> bool
    decreases shape, 0int,
{
    match shape {
        Shape::Struct { name, fields } => forall|i: int|
            0 <= i < fields@.len() ==> tracks_fully(#[trigger] fields@[i].shape),
        Shape::Opt(inner) => tracks_fully(*inner),
        Shape::Collection(inner) => struct_free(*inner),
        Shape::FixedArray(n, inner) => struct_free(*inner),
        _ => true,
    }
}

/// The tracker of `d` is inside a field of an open struct, ready for its value.
pub open spec fn ready(d: PlainDeserializer) -> bool {
    &&& d.tracking_ok()
    &&& d.input().len() <= usize::MAX
    &&& d.tracker().structs().len() > 0
    &&& d.tracker().pending().len() == d.tracker().structs().len()
    &&& d.tracker().top_fields().len() > 0
    &&& top(d.tracker().top_fields()).offset <= d.position()
    &&& top(d.tracker().structs()).offset <= d.position()
    &&& d.tracker().result().is_none()
}

/// Between `a` and `b` only the fields of the innermost open struct changed (and the
/// position moved on).
pub open spec fn kept_below(a: PlainDeserializer, b: PlainDeserializer) -> bool {
    let sa = a.tracker().structs();
    let sb = b.tracker().structs();
    &&& sb.len() == sa.len()
    &&& sa.len() > 0
    &&& sb.subrange(0, sb.len() - 1) == sa.subrange(0, sa.len() - 1)
    &&& top(sb).offset == top(sa).offset
    &&& top(sb).name == top(sa).name
    &&& b.tracker().pending() == a.tracker().pending()
    &&& b.position() >= a.position()
}

pub proof fn lemma_kept_below_trans(a: PlainDeserializer, b: PlainDeserializer, c: PlainDeserializer)
    requires
        kept_below(a, b),
        kept_below(b, c),
    ensures
        kept_below(a, c),
{
}

/// A shape without structs is followed by the tracker without failing.
pub proof fn lemma_struct_free_tracks_fully(shape: Shape)
    requires
        struct_free(shape),
    ensures
        tracks_fully(shape),
    decreases shape,
{
    if let Shape::Opt(inner) = shape {
        lemma_struct_free_tracks_fully(*inner);
    }
}

/// A pseudo-field inserted at or before the current position leaves the tracker
/// ready, with only the innermost struct's fields changed.
proof fn lemma_pseudo_keeps_ready(
    a: PlainDeserializer,
    b: PlainDeserializer,
    offset: usize,
    size: usize,
    suffix: Seq<char>,
    keep: bool,
)
    requires
        ready(a),
        b.tracking_ok(),
        b.input() == a.input(),
        b.position() >= a.position(),
        same_below_top(a.tracker().structs(), b.tracker().structs()),
        top(b.tracker().structs()).offset == top(a.tracker().structs()).offset,
        top(b.tracker().structs()).name == top(a.tracker().structs()).name,
        pseudo_inserted(a.tracker().top_fields(), b.tracker().top_fields(), offset, size, suffix, keep),
        b.tracker().pending() == a.tracker().pending(),
        b.tracker().result() == a.tracker().result(),
        offset <= b.position(),
        keep ==> top(a.tracker().top_fields()).offset + size <= b.position(),
    ensures
        ready(b),
        kept_below(a, b),
        keep ==> top(b.tracker().top_fields()).inner_struct == top(
            a.tracker().top_fields(),
        ).inner_struct,
        !keep ==> top(b.tracker().top_fields()).inner_struct.is_none(),
{
}


/// Shapes whose decoding reports nothing to the offset tracker.
pub open spec fn no_events(shape: Shape) -> bool
    decreases shape,
{
    match shape {
        Shape::Scalar(_) => true,
        Shape::Enum { .. } => true,
        Shape::FixedArray(n, inner) => no_events(*inner),
        _ => false,
    }
}

/// Shapes whose offset tree is fixed entry by entry by the decoded bytes: the
/// elements of collections and fixed arrays report nothing to the tracker.
pub open spec fn tracks_exactly(shape: Shape) -> bool
    decreases shape, 0int,
{
    match shape {
        Shape::Struct { name, fields } => forall|i: int|
            0 <= i < fields@.len() ==> tracks_exactly(#[trigger] fields@[i].shape),
        Shape::Opt(inner) => tracks_exactly(*inner),
        Shape::Collection(inner) => no_events(*inner),
        Shape::FixedArray(n, inner) => no_events(*inner),
        _ => true,
    }
}

/// Where decoding `shape` at `p` ends.
pub open spec fn end_of(shape: Shape, buf: Seq<u8>, p: nat) -> nat {
    spec_decode(shape, buf, p)->Ok_0.1
}

/// How many offset entries a field of `shape`, decoded at `p`, contributes.
pub open spec fn group_len(shape: Shape, buf: Seq<u8>, p: nat) -> nat
    decreases shape,
{
    match shape {
        Shape::Opt(inner) => if buf[p as int] == 0 {
            1
        } else {
            1 + group_len(*inner, buf, p + 1)
        },
        Shape::Collection(_) => 2,
        Shape::Text => 2,
        _ => 1,
    }
}

/// `f` is named `name` and starts at `offset`.
pub open spec fn entry_is(f: FieldOffset, name: Seq<char>, offset: nat) -> bool {
    f.field_name@ == name && f.offset == offset
}

/// The entries `fs[j..]` are those of the field `name` of shape `shape`, decoded
/// from `p` to `e`: a presence flag of one byte (then, when present, the inner
/// value's entries from `p + 1`); a length of two bytes then the elements from
/// `p + 2`; a nested struct laid out in turn; or one entry. Only the size of the
/// last entry is left open.
pub open spec fn group_ok(
    fs: Seq<FieldOffset>,
    j: int,
    name: Seq<char>,
    shape: Shape,
    buf: Seq<u8>,
    p: nat,
    e: nat,
) -> bool
    decreases shape, 0int,
{
    match shape {
        Shape::Opt(inner) => {
            &&& entry_is(fs[j], name + "_is_present"@, p)
            &&& fs[j].inner_struct is None
            &&& buf[p as int] == 0 ==> e == p + 1
            &&& buf[p as int] != 0 ==> fs[j].size == 1 && group_ok(fs, j + 1, name, *inner, buf, p + 1, e)
        },
        Shape::Collection(_) => {
            &&& entry_is(fs[j], name + "_len"@, p) && fs[j].size == 2 && fs[j].inner_struct is None
            &&& entry_is(fs[j + 1], name, p + 2) && fs[j + 1].inner_struct is None
        },
        Shape::Text => {
            &&& entry_is(fs[j], name + "_len"@, p) && fs[j].size == 2 && fs[j].inner_struct is None
            &&& entry_is(fs[j + 1], name, p + 2) && fs[j + 1].inner_struct is None
        },
        Shape::Struct { name: sname, fields } => {
            &&& entry_is(fs[j], name, p)
            &&& fs[j].inner_struct matches Some(b) && struct_laid(*b, sname, fields@, buf, p)
        },
        _ => entry_is(fs[j], name, p) && fs[j].inner_struct is None,
    }
}

/// Where the first `n` fields, decoded from `p`, end.
pub open spec fn pos_upto(fields: Seq<FieldShape>, n: int, buf: Seq<u8>, p: nat) -> nat
    decreases n,
{
    if n <= 0 || n > fields.len() {
        p
    } else {
        end_of(fields[n - 1].shape, buf, pos_upto(fields, n - 1, buf, p))
    }
}

/// How many entries the first `n` fields, decoded from `p`, contribute.
pub open spec fn gstart(fields: Seq<FieldShape>, n: int, buf: Seq<u8>, p: nat) -> nat
    decreases n,
{
    if n <= 0 || n > fields.len() {
        0
    } else {
        gstart(fields, n - 1, buf, p) + group_len(fields[n - 1].shape, buf, pos_upto(fields, n - 1, buf, p))
    }
}

/// `so` is the offset tree of a struct named `sname` with fields `fields`, decoded
/// from `buf` at `p`: its entries, field by field, are those `group_ok` gives, and
/// each field's last entry ends where the field's value ends.
pub open spec fn struct_laid(so: StructOffset, sname: String, fields: Seq<FieldShape>, buf: Seq<u8>, p: nat) -> bool
    decreases fields, 1int,
{
    let n = fields.len() as int;
    &&& so.name == sname
    &&& so.offset == p
    &&& so.offset + so.size == pos_upto(fields, n, buf, p)
    &&& so.fields@.len() == gstart(fields, n, buf, p)
    &&& forall|k: int|
        0 <= k < n ==> {
            let j = gstart(fields, k, buf, p) as int;
            let last = gstart(fields, k + 1, buf, p) - 1;
            &&& group_ok(
                so.fields@,
                j,
                (#[trigger] fields[k]).name@,
                fields[k].shape,
                buf,
                pos_upto(fields, k, buf, p),
                pos_upto(fields, k + 1, buf, p),
            )
            &&& so.fields@[last].offset + so.fields@[last].size == pos_upto(fields, k + 1, buf, p)
        }
}

/// `so` is the offset tree that decoding the struct shape `shape` from `buf` at
/// `base` reports.
pub open spec fn decoded_layout(so: StructOffset, shape: Shape, buf: Seq<u8>, base: nat) -> bool {
    match shape {
        Shape::Struct { name, fields } => struct_laid(so, name, fields@, buf, base),
        _ => false,
    }
}

pub proof fn lemma_group_len_pos(shape: Shape, buf: Seq<u8>, p: nat)
    ensures
        group_len(shape, buf, p) >= 1,
    decreases shape,
{
    if let Shape::Opt(inner) = shape {
        if buf[p as int] != 0 {
            lemma_group_len_pos(*inner, buf, p + 1);
        }
    }
}

/// A group's conditions only read its own entries, and not the size of its last.
pub proof fn lemma_group_frame(
    fs1: Seq<FieldOffset>,
    fs2: Seq<FieldOffset>,
    j: int,
    name: Seq<char>,
    shape: Shape,
    buf: Seq<u8>,
    p: nat,
    e: nat,
)
    requires
        group_ok(fs1, j, name, shape, buf, p, e),
        forall|x: int| j <= x < j + group_len(shape, buf, p) - 1 ==> fs2[x] == fs1[x],
        fs2[j + group_len(shape, buf, p) - 1].field_name == fs1[j + group_len(shape, buf, p) - 1].field_name,
        fs2[j + group_len(shape, buf, p) - 1].offset == fs1[j + group_len(shape, buf, p) - 1].offset,
        fs2[j + group_len(shape, buf, p) - 1].inner_struct == fs1[j + group_len(shape, buf, p) - 1].inner_struct,
    ensures
        group_ok(fs2, j, name, shape, buf, p, e),
    decreases shape,
{
    if let Shape::Opt(inner) = shape {
        if buf[p as int] != 0 {
            lemma_group_len_pos(*inner, buf, p + 1);
            assert(fs2[j] == fs1[j]);
            lemma_group_frame(fs1, fs2, j + 1, name, *inner, buf, p + 1, e);
        }
    }
    if shape is Collection || shape is Text {
        assert(fs2[j] == fs1[j]);
    }
}

/// The entries `fs` hold the groups of the first `i` fields decoded from `p`, and
/// the first `closed` of them end where their values end.
#[verifier::opaque]
pub open spec fn prefix_laid(fs: Seq<FieldOffset>, fields: Seq<FieldShape>, i: int, buf: Seq<u8>, p: nat, closed: int) -> bool {
    &&& forall|k: int|
        0 <= k < i ==> group_ok(
            fs,
            gstart(fields, k, buf, p) as int,
            (#[trigger] fields[k]).name@,
            fields[k].shape,
            buf,
            pos_upto(fields, k, buf, p),
            pos_upto(fields, k + 1, buf, p),
        )
    &&& forall|k: int|
        0 <= k < closed ==> fs[gstart(fields, k + 1, buf, p) - 1].offset + fs[gstart(
            fields,
            k + 1,
            buf,
            p,
        ) - 1].size == pos_upto(fields, #[trigger] (k + 1), buf, p)
}

pub proof fn lemma_gstart_mono(fields: Seq<FieldShape>, k: int, i: int, buf: Seq<u8>, p: nat)
    requires
        0 <= k <= i <= fields.len(),
    ensures
        gstart(fields, k, buf, p) <= gstart(fields, i, buf, p),
    decreases i - k,
{
    if k < i {
        lemma_gstart_mono(fields, k, i - 1, buf, p);
        lemma_group_len_pos(fields[i - 1].shape, buf, pos_upto(fields, i - 1, buf, p));
    }
}

/// Closing the last open group (its last entry now ends where its value ends)
/// keeps the groups laid out.
#[verifier::spinoff_prover]
pub proof fn lemma_prefix_close(
    fs: Seq<FieldOffset>,
    fs2: Seq<FieldOffset>,
    fields: Seq<FieldShape>,
    i: int,
    buf: Seq<u8>,
    p: nat,
)
    requires
        1 <= i <= fields.len(),
        prefix_laid(fs, fields, i, buf, p, i - 1),
        fs.len() == gstart(fields, i, buf, p),
        fs2.len() >= fs.len(),
        forall|x: int| 0 <= x < fs.len() - 1 ==> fs2[x] == fs[x],
        fs2[fs.len() - 1].field_name == fs[fs.len() - 1].field_name,
        fs2[fs.len() - 1].offset == fs[fs.len() - 1].offset,
        fs2[fs.len() - 1].inner_struct == fs[fs.len() - 1].inner_struct,
        fs2[fs.len() - 1].offset + fs2[fs.len() - 1].size == pos_upto(fields, i, buf, p),
    ensures
        prefix_laid(fs2, fields, i, buf, p, i),
{
    reveal(prefix_laid);
    assert forall|k: int| 0 <= k < i implies group_ok(
        fs2,
        gstart(fields, k, buf, p) as int,
        (#[trigger] fields[k]).name@,
        fields[k].shape,
        buf,
        pos_upto(fields, k, buf, p),
        pos_upto(fields, k + 1, buf, p),
    ) by {
        lemma_prefix_close_one(fs, fs2, fields, i, k, buf, p);
    }
    assert forall|k: int| 0 <= k < i implies fs2[gstart(fields, k + 1, buf, p) - 1].offset + fs2[gstart(
        fields,
        k + 1,
        buf,
        p,
    ) - 1].size == pos_upto(fields, #[trigger] (k + 1), buf, p) by {
        if k < i - 1 {
            lemma_gstart_mono(fields, k + 1, i - 1, buf, p);
            lemma_group_len_pos(fields[i - 1].shape, buf, pos_upto(fields, i - 1, buf, p));
            let x = gstart(fields, k + 1, buf, p) - 1;
            assert(fs2[x] == fs[x]);
        }
    }
}

#[verifier::spinoff_prover]
proof fn lemma_prefix_close_one(
    fs: Seq<FieldOffset>,
    fs2: Seq<FieldOffset>,
    fields: Seq<FieldShape>,
    i: int,
    k: int,
    buf: Seq<u8>,
    p: nat,
)
    requires
        0 <= k < i <= fields.len(),
        prefix_laid(fs, fields, i, buf, p, i - 1),
        fs.len() == gstart(fields, i, buf, p),
        forall|x: int| 0 <= x < fs.len() - 1 ==> fs2[x] == fs[x],
        fs2[fs.len() - 1].field_name == fs[fs.len() - 1].field_name,
        fs2[fs.len() - 1].offset == fs[fs.len() - 1].offset,
        fs2[fs.len() - 1].inner_struct == fs[fs.len() - 1].inner_struct,
    ensures
        group_ok(
            fs2,
            gstart(fields, k, buf, p) as int,
            fields[k].name@,
            fields[k].shape,
            buf,
            pos_upto(fields, k, buf, p),
            pos_upto(fields, k + 1, buf, p),
        ),
{
    reveal(prefix_laid);
    lemma_gstart_mono(fields, k + 1, i, buf, p);
    let gk = gstart(fields, k, buf, p) as int;
    let gl = group_len(fields[k].shape, buf, pos_upto(fields, k, buf, p)) as int;
    assert(gk + gl == gstart(fields, k + 1, buf, p));
    lemma_group_len_pos(fields[k].shape, buf, pos_upto(fields, k, buf, p));
    if gk + gl - 1 < fs.len() - 1 {
        assert(fs2[gk + gl - 1] == fs[gk + gl - 1]);
    }
    assert(group_ok(
        fs,
        gk,
        fields[k].name@,
        fields[k].shape,
        buf,
        pos_upto(fields, k, buf, p),
        pos_upto(fields, k + 1, buf, p),
    ));
    lemma_group_frame(
        fs,
        fs2,
        gk,
        fields[k].name@,
        fields[k].shape,
        buf,
        pos_upto(fields, k, buf, p),
        pos_upto(fields, k + 1, buf, p),
    );
}

/// Adding the group of field `i` behind the laid-out groups keeps them laid out.
#[verifier::spinoff_prover]
pub proof fn lemma_prefix_extend(
    fs: Seq<FieldOffset>,
    fs2: Seq<FieldOffset>,
    fields: Seq<FieldShape>,
    i: int,
    buf: Seq<u8>,
    p: nat,
)
    requires
        0 <= i < fields.len(),
        prefix_laid(fs, fields, i, buf, p, i),
        fs.len() >= gstart(fields, i, buf, p),
        fs2.len() >= gstart(fields, i, buf, p),
        fs2.subrange(0, gstart(fields, i, buf, p) as int) == fs.subrange(0, gstart(fields, i, buf, p) as int),
        group_ok(
            fs2,
            gstart(fields, i, buf, p) as int,
            fields[i].name@,
            fields[i].shape,
            buf,
            pos_upto(fields, i, buf, p),
            pos_upto(fields, i + 1, buf, p),
        ),
    ensures
        prefix_laid(fs2, fields, i + 1, buf, p, i),
{
    reveal(prefix_laid);
    let g = gstart(fields, i, buf, p) as int;
    assert forall|x: int| 0 <= x < g implies fs2[x] == fs[x] by {
        assert(fs2[x] == fs2.subrange(0, g)[x]);
        assert(fs[x] == fs.subrange(0, g)[x]);
    }
    assert forall|k: int| 0 <= k < i + 1 implies group_ok(
        fs2,
        gstart(fields, k, buf, p) as int,
        (#[trigger] fields[k]).name@,
        fields[k].shape,
        buf,
        pos_upto(fields, k, buf, p),
        pos_upto(fields, k + 1, buf, p),
    ) by {
        if k < i {
            lemma_prefix_extend_one(fs, fs2, fields, i, k, buf, p);
        }
    }
    assert forall|k: int| 0 <= k < i implies fs2[gstart(fields, k + 1, buf, p) - 1].offset + fs2[gstart(
        fields,
        k + 1,
        buf,
        p,
    ) - 1].size == pos_upto(fields, #[trigger] (k + 1), buf, p) by {
        lemma_gstart_mono(fields, k + 1, i, buf, p);
        lemma_group_len_pos(fields[k].shape, buf, pos_upto(fields, k, buf, p));
    }
}

proof fn lemma_prefix_extend_one(
    fs: Seq<FieldOffset>,
    fs2: Seq<FieldOffset>,
    fields: Seq<FieldShape>,
    i: int,
    k: int,
    buf: Seq<u8>,
    p: nat,
)
    requires
        0 <= k < i < fields.len(),
        prefix_laid(fs, fields, i, buf, p, i),
        forall|x: int| 0 <= x < gstart(fields, i, buf, p) ==> fs2[x] == fs[x],
    ensures
        group_ok(
            fs2,
            gstart(fields, k, buf, p) as int,
            fields[k].name@,
            fields[k].shape,
            buf,
            pos_upto(fields, k, buf, p),
            pos_upto(fields, k + 1, buf, p),
        ),
{
    reveal(prefix_laid);
    lemma_gstart_mono(fields, k + 1, i, buf, p);
    let gk = gstart(fields, k, buf, p) as int;
    lemma_group_len_pos(fields[k].shape, buf, pos_upto(fields, k, buf, p));
    assert(group_ok(
        fs,
        gk,
        fields[k].name@,
        fields[k].shape,
        buf,
        pos_upto(fields, k, buf, p),
        pos_upto(fields, k + 1, buf, p),
    ));
    lemma_group_frame(
        fs,
        fs2,
        gk,
        fields[k].name@,
        fields[k].shape,
        buf,
        pos_upto(fields, k, buf, p),
        pos_upto(fields, k + 1, buf, p),
    );
}

/// A struct whose closed groups cover all its fields is laid out.
pub proof fn lemma_struct_laid_from_prefix(
    f: StructOffset,
    sname: String,
    fields: Seq<FieldShape>,
    buf: Seq<u8>,
    p: nat,
)
    requires
        prefix_laid(f.fields@, fields, fields.len() as int, buf, p, fields.len() as int),
        f.fields@.len() == gstart(fields, fields.len() as int, buf, p),
        f.name == sname,
        f.offset == p,
        f.offset + f.size == pos_upto(fields, fields.len() as int, buf, p),
    ensures
        struct_laid(f, sname, fields, buf, p),
{
    reveal(prefix_laid);
    let nf = fields.len() as int;
    assert forall|k: int| 0 <= k < nf implies {
        let j = gstart(fields, k, buf, p) as int;
        let last = gstart(fields, k + 1, buf, p) - 1;
        &&& group_ok(
            f.fields@,
            j,
            (#[trigger] fields[k]).name@,
            fields[k].shape,
            buf,
            pos_upto(fields, k, buf, p),
            pos_upto(fields, k + 1, buf, p),
        )
        &&& f.fields@[last].offset + f.fields@[last].size == pos_upto(fields, k + 1, buf, p)
    } by {
        assert(pos_upto(fields, k + 1, buf, p) == pos_upto(fields, k + 1, buf, p));
    }
}

/// The empty prefix is laid out.
pub proof fn lemma_prefix_empty(fs: Seq<FieldOffset>, fields: Seq<FieldShape>, buf: Seq<u8>, p: nat)
    ensures
        prefix_laid(fs, fields, 0, buf, p, 0),
        prefix_laid(fs, fields, 0, buf, p, -1),
{
    reveal(prefix_laid);
}

/// Decoding a value of `shape` from `a` to `b` replaced the last entry of the
/// innermost struct (the field being decoded) by the field's group of entries.
#[verifier::opaque]
pub open spec fn grouped(a: PlainDeserializer, b: PlainDeserializer, shape: Shape) -> bool {
    let fa = a.tracker().top_fields();
    let fb = b.tracker().top_fields();
    let j = fa.len() - 1;
    &&& fb.len() == j + group_len(shape, a.input(), a.position())
    &&& fb.subrange(0, j) == fa.subrange(0, j)
    &&& group_ok(fb, j, top(fa).field_name@, shape, a.input(), a.position(), b.position())
}

pub proof fn lemma_no_events_fixed(shape: Shape)
    requires
        no_events(shape),
    ensures
        static_size(shape) is Some,
        struct_free(shape),
    decreases shape,
{
    if let Shape::FixedArray(n, inner) = shape {
        lemma_no_events_fixed(*inner);
    }
}

pub proof fn lemma_exactly_fully(shape: Shape)
    requires
        tracks_exactly(shape),
    ensures
        tracks_fully(shape),
    decreases shape, 0int,
{
    match shape {
        Shape::Struct { name, fields } => {
            assert forall|i: int| 0 <= i < fields@.len() implies tracks_fully(
                #[trigger] fields@[i].shape,
            ) by {
                lemma_exactly_fully(fields@[i].shape);
            }
        },
        Shape::Opt(inner) => lemma_exactly_fully(*inner),
        Shape::Collection(inner) => lemma_no_events_fixed(*inner),
        Shape::FixedArray(n, inner) => lemma_no_events_fixed(*inner),
        _ => {},
    }
}

/// The tracker of `d` keeps every struct packed.
pub open spec fn packed_state(d: PlainDeserializer) -> bool {
    stack_packed(d.tracker().structs(), d.tracker().result())
}

/// The field being decoded in `d` starts at the current position.
pub open spec fn aligned(d: PlainDeserializer) -> bool {
    d.tracker().structs().len() > 0 && d.tracker().top_fields().len() > 0 ==> top(
        d.tracker().top_fields(),
    ).offset == d.position()
}

/// While the tracker of `b` has not failed, it had not failed in `a` either, and the
/// structs open in `a` are still open in `b`, at the same offsets, with the same
/// finished tree (if any).
pub open spec fn tracking_kept(a: PlainDeserializer, b: PlainDeserializer) -> bool {
    b.tracking_ok() ==> {
        &&& a.tracking_ok()
        &&& a.tracker().structs().len() > 0 ==> {
            &&& frame_kept(a.tracker().structs(), b.tracker().structs())
            &&& b.tracker().result() == a.tracker().result()
        }
    }
}

pub proof fn lemma_tracking_kept_trans(a: PlainDeserializer, b: PlainDeserializer, c: PlainDeserializer)
    requires
        tracking_kept(a, b),
        tracking_kept(b, c),
    ensures
        tracking_kept(a, c),
{
    if c.tracking_ok() && a.tracker().structs().len() > 0 {
        lemma_frame_kept_trans(a.tracker().structs(), b.tracker().structs(), c.tracker().structs());
    }
}

/// While the tracker of `b` has not failed, decoding from `a` to `b` opened and
/// closed one outermost struct, which covers exactly the bytes consumed.
pub open spec fn finished_root(a: PlainDeserializer, b: PlainDeserializer) -> bool {
    b.tracking_ok() && a.tracker().structs().len() == 0 ==> {
        &&& b.tracker().structs().len() == 0
        &&& b.tracker().result() matches Some(f) && f.offset == a.position() && f.size
            == b.position() - a.position()
    }
}

/// Reads values of given shapes from a byte buffer, reporting each field boundary
/// to an offset tracker.
pub struct PlainDeserializer<'a> {
    reader: &'a [u8],
    offsets_deserializer: OffsetDeserializer,
    offsets_error: Option<PlainSerializerError>,
    current_offset: usize,
}

impl<'a> PlainDeserializer<'a> {
    pub closed spec fn input(&self) -> Seq<u8> {
        self.reader@
    }

    /// How many bytes have been consumed.
    pub closed spec fn position(&self) -> nat {
        self.current_offset as nat
    }

    /// Whether the offset tracker has followed every event without failing.
    pub closed spec fn tracking_ok(&self) -> bool {
        self.offsets_error.is_none()
    }

    pub closed spec fn tracker(&self) -> OffsetDeserializer {
        self.offsets_deserializer
    }

    /// The first failure of the offset tracker, if any.
    pub closed spec fn tracking_failure(&self) -> Option<PlainSerializerError> {
        self.offsets_error
    }

    pub fn new(reader: &'a [u8]) -> (r: Self)
        ensures
            r.input() == reader@,
            r.position() == 0,
            r.tracking_ok(),
            r.tracker().structs().len() == 0,
            r.tracker().pending().len() == 0,
            r.tracker().result().is_none(),
            r.input().len() <= usize::MAX,
    {
        let _len = reader.len();
        PlainDeserializer {
            reader,
            offsets_deserializer: OffsetDeserializer::new(),
            offsets_error: None,
            current_offset: 0,
        }
    }

    /// Keeps the first failure of the offset tracker.
    fn track(&mut self, r: Result<(), PlainSerializerError>)
        ensures
            final(self).reader == old(self).reader,
            final(self).current_offset == old(self).current_offset,
            final(self).offsets_deserializer == old(self).offsets_deserializer,
            final(self).tracking_ok() == (old(self).tracking_ok() && r is Ok),
    {
        if self.offsets_error.is_none() {
            if let Err(e) = r {
                self.offsets_error = Some(e);
            }
        }
    }

    fn advance_offset(&mut self, n: usize)
        requires
            old(self).current_offset + n <= old(self).reader@.len(),
        ensures
            final(self).reader == old(self).reader,
            final(self).current_offset == old(self).current_offset + n,
            final(self).offsets_deserializer == old(self).offsets_deserializer,
            final(self).offsets_error == old(self).offsets_error,
    {
        let _len = self.reader.len();
        self.current_offset = self.current_offset + n;
    }

    fn read_int(&mut self, k: ScalarKind) -> (r: Result<i128, PlainSerializerError>)
        requires
            old(self).current_offset <= old(self).reader@.len(),
        ensures
            final(self).offsets_deserializer == old(self).offsets_deserializer,
            final(self).offsets_error == old(self).offsets_error,
            final(self).reader == old(self).reader,
            final(self).current_offset <= final(self).reader@.len(),
            match spec_read_int(k, old(self).reader@, old(self).current_offset as nat) {
                Ok((v, e)) => r == Ok::<i128, PlainSerializerError>(v as i128) && v == r->Ok_0
                    && final(self).current_offset == e && in_range(k, v),
                Err(x) => r == Err::<i128, _>(x),
            },
    {
        let w = k.width();
        match read_le(self.reader, self.current_offset, w) {
            Some(raw) => {
                proof {
                    let sub = old(self).reader@.subrange(
                        old(self).current_offset as int,
                        old(self).current_offset + w,
                    );
                    lemma_le_nat_bound(sub);
                    lemma_pow256_mono(w as nat, 8);
                    lemma_pow256_8();
                }
                self.advance_offset(w);
                Ok(k.int_from_raw(raw))
            },
            None => Err(PlainSerializerError::UnexpectedEof),
        }
    }

    fn read_byte(&mut self) -> (r: Result<u8, PlainSerializerError>)
        requires
            old(self).current_offset <= old(self).reader@.len(),
        ensures
            final(self).offsets_deserializer == old(self).offsets_deserializer,
            final(self).offsets_error == old(self).offsets_error,
            final(self).reader == old(self).reader,
            final(self).current_offset <= final(self).reader@.len(),
            old(self).current_offset < old(self).reader@.len() ==> r == Ok::<u8, PlainSerializerError>(
                old(self).reader@[old(self).current_offset as int],
            ) && final(self).current_offset == old(self).current_offset + 1,
            old(self).current_offset >= old(self).reader@.len() ==> r == Err::<u8, _>(
                PlainSerializerError::UnexpectedEof,
            ),
    {
        if self.current_offset < self.reader.len() {
            let b = self.reader[self.current_offset];
            self.advance_offset(1);
            Ok(b)
        } else {
            Err(PlainSerializerError::UnexpectedEof)
        }
    }

    /// Decodes one value of `shape` at the current position.
    pub fn deserialize(&mut self, shape: &Shape) -> (r: Result<Value, PlainSerializerError>)
        requires
            old(self).position() <= old(self).input().len(),
        ensures
            r is Ok ==> tracking_kept(*old(self), *final(self)),
            r is Ok && shape is Struct ==> finished_root(*old(self), *final(self)),
            r is Ok && final(self).tracking_ok() && tracks_packed(*shape) && packed_state(
                *old(self),
            ) && (starts_with_pseudo(*shape) ==> aligned(*old(self))) ==> packed_state(*final(self)),
            r is Ok && tracks_fully(*shape) && ready(*old(self)) && (!struct_free(*shape) ==> top(
                old(self).tracker().top_fields(),
            ).inner_struct.is_none()) ==> ready(*final(self)) && kept_below(*old(self), *final(self)),
            r is Ok && shape is Struct && tracks_fully(*shape) && old(self).tracking_ok()
                && old(self).tracker().structs().len() == 0
                && old(self).tracker().pending().len() == 0
                && old(self).tracker().result().is_none()
                && old(self).input().len() <= usize::MAX
                ==> final(self).tracking_ok() && final(self).tracker().taken() is Ok,
            r is Ok && static_size(*shape) is Some && struct_free(*shape) ==> final(self).tracker()
                == old(self).tracker() && final(self).tracking_ok() == old(self).tracking_ok(),
            r is Ok && starts_with_pseudo(*shape) && old(self).tracker().structs().len() == 0
                ==> !final(self).tracking_ok(),
            r is Ok && tracks_exactly(*shape) && ready(*old(self)) && top(
                old(self).tracker().top_fields(),
            ).inner_struct.is_none() && top(old(self).tracker().top_fields()).offset == old(
                self,
            ).position() ==> grouped(*old(self), *final(self), *shape),
            r is Ok && shape is Struct && tracks_exactly(*shape) && old(self).tracking_ok()
                && old(self).tracker().structs().len() == 0
                && old(self).tracker().pending().len() == 0
                && old(self).tracker().result().is_none()
                && old(self).input().len() <= usize::MAX
                ==> (final(self).tracker().result() matches Some(f) && decoded_layout(
                    f,
                    *shape,
                    old(self).input(),
                    old(self).position(),
                )),
            final(self).input() == old(self).input(),
            final(self).position() <= final(self).input().len(),
            match spec_decode(*shape, old(self).input(), old(self).position()) {
                Ok((v, e)) => r is Ok && r->Ok_0@ == v && final(self).position() == e,
                Err(x) => r == Err::<Value, _>(x),
            },
        decreases shape, 0int,
    {
        proof {
            lemma_pow256_width(ScalarKind::U16);
        }
        proof {
            reveal(grouped);
        }
        let ghost exact_pre = tracks_exactly(*shape) && ready(*old(self)) && top(
            old(self).tracker().top_fields(),
        ).inner_struct.is_none() && top(old(self).tracker().top_fields()).offset == old(
            self,
        ).position();
        match shape {
            Shape::Scalar(k) => {
                match k {
                    ScalarKind::Bool => match self.read_byte() {
                        Ok(b) => Ok(Value::Bool(b != 0)),
                        Err(e) => Err(e),
                    },
                    _ => match self.read_int(*k) {
                        Ok(v) => Ok(Value::Int(v)),
                        Err(e) => Err(e),
                    },
                }
            },
            Shape::Struct { name, fields } => {
                let vs = match self.read_struct(name, fields) {
                    Ok(x) => x,
                    Err(e) => return Err(e),
                };
                proof {
                    if exact_pre {
                        let fa = old(self).tracker().top_fields();
                        let fb = self.tracker().top_fields();
                        assert(fb[fa.len() - 1] == top(fb));
                    }
                }
                Ok(Value::Struct(vs))
            },
            Shape::Opt(inner) => {
                let start = self.current_offset;
                let flag = match self.read_byte() {
                    Ok(x) => x,
                    Err(e) => return Err(e),
                };
                let is_some = flag != 0;
                let t = self.offsets_deserializer.add_option(start, 1, is_some);
                self.track(t);
                proof {
                    if self.tracking_ok() {
                        lemma_frame_kept_top(old(self).tracker().structs(), self.tracker().structs());
                        if packed_state(*old(self)) && aligned(*old(self)) {
                            let a = old(self).tracker().structs();
                            assert(fields_packed_top(a));
                            lemma_packed_after_pseudo(
                                a,
                                self.tracker().structs(),
                                self.tracker().result(),
                                start,
                                1,
                                "_is_present"@,
                                is_some,
                            );
                        }
                    }
                }
                if is_some {
                    let ghost mid = *self;
                    proof {
                        if exact_pre {
                            lemma_pseudo_keeps_ready(*old(self), mid, start, 1, "_is_present"@, true);
                        }
                    }
                    let v = match self.deserialize(inner) {
                        Ok(x) => x,
                        Err(e) => return Err(e),
                    };
                    proof {
                        lemma_tracking_kept_trans(*old(self), mid, *self);
                        if tracks_fully(**inner) && ready(*old(self)) && (!struct_free(*shape)
                            ==> top(old(self).tracker().top_fields()).inner_struct.is_none()) {
                            lemma_pseudo_keeps_ready(
                                *old(self),
                                mid,
                                start,
                                1,
                                "_is_present"@,
                                true,
                            );
                            lemma_kept_below_trans(*old(self), mid, *self);
                        }
                        if exact_pre {
                            let fa = old(self).tracker().top_fields();
                            let fm = mid.tracker().top_fields();
                            let fb = self.tracker().top_fields();
                            let j = fa.len() - 1;
                            assert(fm.subrange(0, j) == fa.subrange(0, j));
                            assert(fb[j] == fb.subrange(0, j + 1)[j]);
                            assert(fm[j] == fm.subrange(0, j + 1)[j]);
                            assert(fb.subrange(0, j) =~= fb.subrange(0, j + 1).subrange(0, j));
                            assert(fm.subrange(0, j) =~= fm.subrange(0, j + 1).subrange(0, j));
                        }
                    }
                    Ok(Value::Opt(Some(Box::new(v))))
                } else {
                    proof {
                        if ready(*old(self)) {
                            lemma_pseudo_keeps_ready(
                                *old(self),
                                *self,
                                start,
                                1,
                                "_is_present"@,
                                false,
                            );
                        }
                    }
                    Ok(Value::Opt(None))
                }
            },
            Shape::Collection(inner) => {
                let t = self.offsets_deserializer.add_len(self.current_offset, 2);
                self.track(t);
                proof {
                    if self.tracking_ok() {
                        lemma_frame_kept_top(old(self).tracker().structs(), self.tracker().structs());
                        if packed_state(*old(self)) && aligned(*old(self)) {
                            let a = old(self).tracker().structs();
                            assert(fields_packed_top(a));
                            lemma_packed_after_pseudo(
                                a,
                                self.tracker().structs(),
                                self.tracker().result(),
                                old(self).current_offset,
                                2,
                                "_len"@,
                                true,
                            );
                        }
                    }
                }
                let n = match self.read_int(ScalarKind::U16) {
                    Ok(x) => x,
                    Err(e) => return Err(e),
                };
                let ghost mid = *self;
                proof {
                    if ready(*old(self)) {
                        lemma_pseudo_keeps_ready(*old(self), mid, old(self).current_offset, 2, "_len"@, true);
                    }
                }
                proof {
                    if exact_pre {
                        lemma_no_events_fixed(**inner);
                    }
                }
                let vs = match self.read_many(inner, n as usize) {
                    Ok(x) => x,
                    Err(e) => return Err(e),
                };
                proof {
                    if exact_pre {
                        let fa = old(self).tracker().top_fields();
                        let fb = self.tracker().top_fields();
                        assert(fb.subrange(0, fa.len() - 1) =~= fa.subrange(0, fa.len() - 1));
                    }
                    lemma_tracking_kept_trans(*old(self), mid, *self);
                    if tracks_fully(*shape) && ready(*old(self)) {
                        lemma_kept_below_trans(*old(self), mid, *self);
                    }
                }
                Ok(Value::List(vs))
            },
            Shape::FixedArray(n, inner) => {
                proof {
                    if exact_pre {
                        lemma_no_events_fixed(**inner);
                    }
                }
                let vs = match self.read_many(inner, *n) {
                    Ok(x) => x,
                    Err(e) => return Err(e),
                };
                Ok(Value::List(vs))
            },
            Shape::Text => {
                let t = self.offsets_deserializer.add_len(self.current_offset, 2);
                self.track(t);
                proof {
                    if self.tracking_ok() {
                        lemma_frame_kept_top(old(self).tracker().structs(), self.tracker().structs());
                        if packed_state(*old(self)) && aligned(*old(self)) {
                            let a = old(self).tracker().structs();
                            assert(fields_packed_top(a));
                            lemma_packed_after_pseudo(
                                a,
                                self.tracker().structs(),
                                self.tracker().result(),
                                old(self).current_offset,
                                2,
                                "_len"@,
                                true,
                            );
                        }
                    }
                }
                let n = match self.read_int(ScalarKind::U16) {
                    Ok(x) => x as usize,
                    Err(e) => return Err(e),
                };
                proof {
                    if ready(*old(self)) {
                        lemma_pseudo_keeps_ready(*old(self), *self, old(self).current_offset, 2, "_len"@, true);
                    }
                }
                let ghost mid = *self;
                let b = match self.read_bytes(n) {
                    Ok(x) => x,
                    Err(e) => return Err(e),
                };
                proof {
                    if ready(*old(self)) {
                        lemma_kept_below_trans(*old(self), mid, *self);
                    }
                    if exact_pre {
                        let fa = old(self).tracker().top_fields();
                        let fb = self.tracker().top_fields();
                        assert(fb.subrange(0, fa.len() - 1) =~= fa.subrange(0, fa.len() - 1));
                    }
                }
                if check_utf8(b.as_slice()) {
                    Ok(Value::Text(b))
                } else {
                    Err(PlainSerializerError::Utf8Error)
                }
            },
            Shape::Enum { repr, variants } => {
                let v = match self.read_int(*repr) {
                    Ok(x) => x,
                    Err(e) => return Err(e),
                };
                if contains_variant(variants, v) {
                    Ok(Value::Int(v))
                } else {
                    Err(PlainSerializerError::InvalidVariant(v))
                }
            },
        }
    }

    /// The next `n` bytes, raw.
    fn read_bytes(&mut self, n: usize) -> (r: Result<Vec<u8>, PlainSerializerError>)
        requires
            old(self).current_offset <= old(self).reader@.len(),
        ensures
            final(self).offsets_deserializer == old(self).offsets_deserializer,
            final(self).offsets_error == old(self).offsets_error,
            final(self).reader == old(self).reader,
            final(self).current_offset <= final(self).reader@.len(),
            old(self).current_offset + n <= old(self).reader@.len() ==> r is Ok && r->Ok_0@
                == old(self).reader@.subrange(
                old(self).current_offset as int,
                old(self).current_offset + n,
            ) && final(self).current_offset == old(self).current_offset + n,
            old(self).current_offset + n > old(self).reader@.len() ==> r == Err::<Vec<u8>, _>(
                PlainSerializerError::UnexpectedEof,
            ),
    {
        if self.reader.len() - self.current_offset < n {
            return Err(PlainSerializerError::UnexpectedEof);
        }
        let start = self.current_offset;
        let _len = self.reader.len();
        let mut out: Vec<u8> = Vec::new();
        let mut i: usize = 0;
        while i < n
            invariant
                i <= n,
                start + n <= self.reader@.len(),
                self.reader@.len() == _len,
                out@ == self.reader@.subrange(start as int, start + i),
            decreases n - i,
        {
            out.push(self.reader[start + i]);
            i = i + 1;
            assert(out@ =~= self.reader@.subrange(start as int, start + i));
        }
        self.advance_offset(n);
        Ok(out)
    }

    /// Decodes `n` elements of shape `elem`, back to back.
    fn read_many(&mut self, elem: &Shape, n: usize) -> (r: Result<Vec<Value>, PlainSerializerError>)
        requires
            old(self).position() <= old(self).input().len(),
        ensures
            r is Ok && static_size(*elem) is Some && struct_free(*elem) ==> final(self).tracker()
                == old(self).tracker() && final(self).tracking_ok() == old(self).tracking_ok(),
            r is Ok && struct_free(*elem) && ready(*old(self)) ==> ready(*final(self)) && kept_below(
                *old(self),
                *final(self),
            ),
            r is Ok && final(self).tracking_ok() && tracks_packed(*elem) && !starts_with_pseudo(*elem)
                && packed_state(*old(self)) ==> packed_state(*final(self)),
            r is Ok ==> tracking_kept(*old(self), *final(self)),
            final(self).input() == old(self).input(),
            final(self).position() <= final(self).input().len(),
            match spec_decode_many(*elem, n as nat, old(self).input(), old(self).position()) {
                Ok((vs, e)) => r is Ok && sv_list(r->Ok_0@) == vs && final(self).position() == e,
                Err(x) => r == Err::<Vec<Value>, _>(x),
            },
        decreases elem, 1int,
    {
        let mut out: Vec<Value> = Vec::new();
        let mut i: usize = 0;
        let ghost buf = self.input();
        proof {
            assert(sv_list(out@) =~= Seq::<SValue>::empty());
            assert(spec_decode_many(*elem, n as nat, buf, self.position()) =~= after(
                sv_list(out@),
                spec_decode_many(*elem, (n - i) as nat, buf, self.position()),
            ));
        }
        let ghost total = spec_decode_many(*elem, n as nat, buf, old(self).position());
        proof {
            if struct_free(*elem) {
                lemma_struct_free_tracks_fully(*elem);
            }
        }
        while i < n
            invariant
                i <= n,
                buf == old(self).input(),
                total == spec_decode_many(*elem, n as nat, old(self).input(), old(self).position()),
                self.input() == buf,
                self.position() <= buf.len(),
                total == after(
                    sv_list(out@),
                    spec_decode_many(*elem, (n - i) as nat, buf, self.position()),
                ),
                tracking_kept(*old(self), *self),
                self.tracking_ok() && tracks_packed(*elem) && !starts_with_pseudo(*elem)
                    && packed_state(*old(self)) ==> packed_state(*self),
                struct_free(*elem) ==> tracks_fully(*elem),
                struct_free(*elem) && ready(*old(self)) ==> ready(*self) && kept_below(*old(self), *self),
                static_size(*elem) is Some && struct_free(*elem) ==> self.tracker() == old(self).tracker()
                    && self.tracking_ok() == old(self).tracking_ok(),
            decreases n - i,
        {
            let ghost acc = sv_list(out@);
            let ghost mid = *self;
            let v = match self.deserialize(elem) {
                Ok(x) => x,
                Err(e) => return Err(e),
            };
            proof {
                lemma_tracking_kept_trans(*old(self), mid, *self);
                if struct_free(*elem) && ready(*old(self)) {
                    lemma_kept_below_trans(*old(self), mid, *self);
                }
                lemma_sv_list_push(out@, v);
                let rest = spec_decode_many(*elem, (n - i - 1) as nat, buf, self.position());
                match rest {
                    Ok((vs, e)) => {
                        assert(acc.push(v@) + vs =~= acc + (seq![v@] + vs));
                    },
                    Err(x) => {},
                }
            }
            out.push(v);
            i = i + 1;
        }
        proof {
            assert(sv_list(out@) + Seq::<SValue>::empty() =~= sv_list(out@));
        }
        Ok(out)
    }

    /// Decodes the fields of a struct, reporting the struct and each field to the
    /// offset tracker.
    #[verifier::rlimit(100)]
    #[verifier::spinoff_prover]
    fn read_struct(&mut self, name: &String, fields: &Vec<FieldShape>) -> (r: Result<
        Vec<Value>,
        PlainSerializerError,
    >)
        requires
            old(self).position() <= old(self).input().len(),
        ensures
            r is Ok && (forall|i: int| 0 <= i < fields@.len() ==> tracks_exactly(#[trigger] fields@[i].shape))
                && ready(*old(self)) && top(old(self).tracker().top_fields()).inner_struct.is_none()
                ==> ({
                    let fa = old(self).tracker().top_fields();
                    let fb = final(self).tracker().top_fields();
                    &&& fb.len() == fa.len()
                    &&& fb.subrange(0, fb.len() - 1) == fa.subrange(0, fa.len() - 1)
                    &&& top(fb).field_name == top(fa).field_name
                    &&& top(fb).offset == top(fa).offset
                    &&& top(fb).inner_struct matches Some(x) && struct_laid(
                        *x,
                        *name,
                        fields@,
                        old(self).input(),
                        old(self).position(),
                    )
                }),
            r is Ok && (forall|i: int| 0 <= i < fields@.len() ==> tracks_exactly(#[trigger] fields@[i].shape))
                && old(self).tracking_ok()
                && old(self).tracker().structs().len() == 0
                && old(self).tracker().pending().len() == 0
                && old(self).tracker().result().is_none()
                && old(self).input().len() <= usize::MAX
                ==> (final(self).tracker().result() matches Some(f) && struct_laid(
                    f,
                    *name,
                    fields@,
                    old(self).input(),
                    old(self).position(),
                )),
            r is Ok && (forall|i: int|
                0 <= i < fields@.len() ==> tracks_fully(#[trigger] fields@[i].shape)) && ready(*old(self))
                && top(old(self).tracker().top_fields()).inner_struct.is_none() ==> ready(*final(self))
                && kept_below(*old(self), *final(self)),
            r is Ok && (forall|i: int|
                0 <= i < fields@.len() ==> tracks_fully(#[trigger] fields@[i].shape))
                && old(self).tracking_ok()
                && old(self).tracker().structs().len() == 0
                && old(self).tracker().pending().len() == 0
                && old(self).tracker().result().is_none()
                && old(self).input().len() <= usize::MAX
                ==> final(self).tracking_ok() && final(self).tracker().taken() is Ok,
            r is Ok && final(self).tracking_ok() && (forall|i: int|
                0 <= i < fields@.len() ==> tracks_packed(#[trigger] fields@[i].shape)) && packed_state(
                *old(self),
            ) ==> packed_state(*final(self)),
            r is Ok ==> tracking_kept(*old(self), *final(self)),
            r is Ok ==> finished_root(*old(self), *final(self)),
            final(self).input() == old(self).input(),
            final(self).position() <= final(self).input().len(),
            match spec_decode_fields(fields@, 0, old(self).input(), old(self).position()) {
                Ok((vs, e)) => r is Ok && sv_list(r->Ok_0@) == vs && final(self).position() == e,
                Err(x) => r == Err::<Vec<Value>, _>(x),
            },
        decreases fields, 1int,
    {
        let names = field_names(fields);
        let ghost names_seq = names@;
        let t = self.offsets_deserializer.begin_struct(name.clone(), names, self.current_offset);
        self.track(t);
        let ghost s1 = *self;
        let ghost n0 = old(self).tracker().structs().len();
        let ghost in_order = forall|i: int|
            0 <= i < fields@.len() ==> tracks_packed(#[trigger] fields@[i].shape);
        let ghost fully = forall|i: int|
            0 <= i < fields@.len() ==> tracks_fully(#[trigger] fields@[i].shape);
        let ghost nested = fully && ready(*old(self)) && top(old(self).tracker().top_fields()).inner_struct.is_none();
        let ghost rooted = fully && old(self).tracking_ok() && old(self).tracker().structs().len() == 0
            && old(self).tracker().pending().len() == 0 && old(self).tracker().result().is_none()
            && old(self).input().len() <= usize::MAX;
        let ghost exact = forall|i: int|
            0 <= i < fields@.len() ==> tracks_exactly(#[trigger] fields@[i].shape);
        proof {
            if exact {
                assert forall|i: int| 0 <= i < fields@.len() implies tracks_fully(
                    #[trigger] fields@[i].shape,
                ) by {
                    lemma_exactly_fully(fields@[i].shape);
                }
                assert(fully);
            }
        }
        let ghost start = old(self).position();
        proof {
            if nested || rooted {
                assert(s1.tracking_ok());
                assert(s1.tracker().pending() == old(self).tracker().pending().push(names_seq));
                assert(s1.tracker().pending().subrange(0, n0 as int) =~= old(self).tracker().pending());
                assert(names_seq.subrange(0, names_seq.len() as int) =~= names_seq);
            }
        }
        proof {
            if s1.tracking_ok() {
                assert(top(s1.tracker().structs()).offset == old(self).position());
                if packed_state(*old(self)) {
                    lemma_packed_after_begin(
                        old(self).tracker().structs(),
                        s1.tracker().structs(),
                        s1.tracker().result(),
                    );
                }
            }
        }
        let mut out: Vec<Value> = Vec::new();
        let mut i: usize = 0;
        let ghost buf = self.input();
        proof {
            assert(sv_list(out@) =~= Seq::<SValue>::empty());
            assert(spec_decode_fields(fields@, 0, buf, self.position()) =~= after(
                sv_list(out@),
                spec_decode_fields(fields@, 0, buf, self.position()),
            ));
        }
        let ghost total = spec_decode_fields(fields@, 0, buf, old(self).position());
        proof {
            lemma_prefix_empty(self.tracker().top_fields(), fields@, buf, start);
        }
        while i < fields.len()
            invariant
                i <= fields@.len(),
                buf == old(self).input(),
                total == spec_decode_fields(fields@, 0, old(self).input(), old(self).position()),
                self.input() == buf,
                self.position() <= buf.len(),
                total == after(sv_list(out@), spec_decode_fields(fields@, i as int, buf, self.position())),
                n0 == old(self).tracker().structs().len(),
                s1.tracking_ok() ==> {
                    &&& old(self).tracking_ok()
                    &&& old(self).tracker().result().is_none()
                    &&& s1.tracker().result().is_none()
                    &&& s1.tracker().structs().len() == n0 + 1
                    &&& s1.tracker().structs().subrange(0, n0 as int) == old(self).tracker().structs()
                    &&& top(s1.tracker().structs()).offset == old(self).position()
                },
                tracking_kept(s1, *self),
                in_order == forall|i: int|
                    0 <= i < fields@.len() ==> tracks_packed(#[trigger] fields@[i].shape),
                self.tracking_ok() && in_order && packed_state(*old(self)) ==> packed_state(*self),
                fully == forall|i: int|
                    0 <= i < fields@.len() ==> tracks_fully(#[trigger] fields@[i].shape),
                nested == (fully && ready(*old(self)) && top(old(self).tracker().top_fields()).inner_struct.is_none()),
                rooted == (fully && old(self).tracking_ok() && old(self).tracker().structs().len() == 0
                    && old(self).tracker().pending().len() == 0 && old(self).tracker().result().is_none()
                    && old(self).input().len() <= usize::MAX),
                names_seq.len() == fields@.len(),
                start == old(self).position(),
                forall|k: int| 0 <= k < names_seq.len() ==> #[trigger] names_seq[k] == fields@[k].name,
                exact == forall|i: int|
                    0 <= i < fields@.len() ==> tracks_exactly(#[trigger] fields@[i].shape),
                (nested || rooted) && exact ==> {
                    &&& self.position() == pos_upto(fields@, i as int, buf, start)
                    &&& self.tracker().top_fields().len() == gstart(fields@, i as int, buf, start)
                    &&& prefix_laid(self.tracker().top_fields(), fields@, i as int, buf, start, i - 1)
                },
                nested || rooted ==> {
                    &&& self.tracking_ok()
                    &&& self.input().len() <= usize::MAX
                    &&& self.tracker().structs().len() == n0 + 1
                    &&& self.tracker().structs().subrange(0, n0 as int) == old(self).tracker().structs()
                    &&& top(self.tracker().structs()).offset == old(self).position()
                    &&& top(self.tracker().structs()).name == *name
                    &&& self.tracker().pending().len() == n0 + 1
                    &&& self.tracker().pending().subrange(0, n0 as int) == old(self).tracker().pending()
                    &&& top(self.tracker().pending()) == names_seq.subrange(i as int, names_seq.len() as int)
                    &&& i > 0 ==> self.tracker().top_fields().len() > 0 && top(self.tracker().top_fields()).offset <= self.position()
                    &&& i == 0 ==> self.tracker().top_fields().len() == 0
                    &&& self.tracker().result().is_none()
                    &&& self.position() >= old(self).position()
                },
            decreases fields@.len() - i,
        {
            let ghost acc = sv_list(out@);
            let ghost before = *self;
            let t = self.offsets_deserializer.add_field(self.current_offset);
            self.track(t);
            proof {
                if self.tracking_ok() {
                    lemma_frame_kept_top(before.tracker().structs(), self.tracker().structs());
                    if in_order && packed_state(*old(self)) {
                        let a = before.tracker().structs();
                        assert(fields_packed_top(a));
                        let names = top(before.tracker().pending());
                        lemma_packed_after_field(
                            a,
                            self.tracker().structs(),
                            self.tracker().result(),
                            before.current_offset,
                            FieldOffset {
                                field_name: names[0],
                                offset: before.current_offset,
                                size: 0,
                                inner_struct: None,
                            },
                        );
                    }
                }
            }
            proof {
                if nested || rooted {
                    assert(self.tracking_ok());
                    let sb = before.tracker().structs();
                    let sa = self.tracker().structs();
                    assert(sa.subrange(0, n0 as int) =~= sb.subrange(0, n0 as int));
                    let pb = before.tracker().pending();
                    let pa = self.tracker().pending();
                    assert(pa.subrange(0, n0 as int) =~= pb.subrange(0, n0 as int));
                    assert(top(pa) =~= names_seq.subrange(i + 1, names_seq.len() as int));
                    if exact {
                        let tf = before.tracker().top_fields();
                        let tf1 = self.tracker().top_fields();
                        assert(names_seq.subrange(i as int, names_seq.len() as int)[0] == names_seq[i as int]);
                        if i > 0 {
                            lemma_prefix_close(tf, tf1, fields@, i as int, buf, start);
                        } else {
                            lemma_prefix_empty(tf1, fields@, buf, start);
                        }
                        assert(tf1[tf.len() as int] == top(tf1));
                    }
                }
            }
            let ghost mid = *self;
            let v = match self.deserialize(&fields[i].shape) {
                Ok(x) => x,
                Err(e) => return Err(e),
            };
            proof {
                lemma_tracking_kept_trans(before, mid, *self);
                lemma_tracking_kept_trans(s1, before, *self);
                if nested || rooted {
                    assert(tracks_fully(fields@[i as int].shape));
                    assert(ready(mid));
                    let sm = mid.tracker().structs();
                    let sn = self.tracker().structs();
                    assert(sn.subrange(0, n0 as int) =~= sm.subrange(0, n0 as int));
                    if exact {
                        let tf1 = mid.tracker().top_fields();
                        let tf2 = self.tracker().top_fields();
                        assert(tracks_exactly(fields@[i as int].shape));
                        assert(grouped(mid, *self, fields@[i as int].shape));
                        reveal(grouped);
                        assert(tf2.subrange(0, tf1.len() - 1) == tf1.subrange(0, tf1.len() - 1));
                        lemma_prefix_extend(tf1, tf2, fields@, i as int, buf, start);
                    }
                }
                lemma_sv_list_push(out@, v);
                let rest = spec_decode_fields(fields@, i + 1, buf, self.position());
                match rest {
                    Ok((vs, e)) => {
                        assert(acc.push(v@) + vs =~= acc + (seq![v@] + vs));
                    },
                    Err(x) => {},
                }
            }
            out.push(v);
            i = i + 1;
        }
        let ghost pre = *self;
        let t = self.offsets_deserializer.finish_struct(self.current_offset);
        self.track(t);
        proof {
            if nested || rooted {
                let a = pre.tracker().structs();
                assert(top(pre.tracker().pending()) =~= Seq::<String>::empty());
                if n0 > 0 {
                    assert(a[n0 - 1] == a.subrange(0, n0 as int)[n0 - 1]);
                }
                assert(self.tracking_ok());
                if n0 > 0 {
                    let f = self.tracker().structs();
                    assert(f.subrange(0, n0 - 1) =~= old(self).tracker().structs().subrange(0, n0 - 1)) by {
                        assert(a.subrange(0, n0 - 1) =~= a.subrange(0, n0 as int).subrange(0, n0 - 1));
                    }
                    assert(self.tracker().pending() =~= old(self).tracker().pending()) by {
                        assert(pre.tracker().pending().drop_last() =~= pre.tracker().pending().subrange(0, n0 as int));
                    }
                } else {
                    assert(self.tracker().pending().len() == 0);
                }
                if exact {
                    let sp = top(a);
                    let fp = sp.fields@;
                    let nf = fields@.len() as int;
                    assert(fp == pre.tracker().top_fields());
                    let f = if n0 > 0 {
                        *top(self.tracker().top_fields()).inner_struct->Some_0
                    } else {
                        self.tracker().result()->Some_0
                    };
                    assert(f.fields@ == crate::offsets::backfill(fp, pre.current_offset));
                    if nf > 0 {
                        lemma_prefix_close(fp, f.fields@, fields@, nf, buf, start);
                    } else {
                        lemma_prefix_empty(f.fields@, fields@, buf, start);
                    }
                    lemma_struct_laid_from_prefix(f, *name, fields@, buf, start);
                    assert(struct_laid(f, *name, fields@, buf, start));
                }
            }
            if self.tracking_ok() && in_order && packed_state(*old(self)) {
                let a = pre.tracker().structs();
                if a.len() > 1 {
                    assert(stack_packed(a, pre.tracker().result()));
                    assert(crate::offsets::fields_packed(a[a.len() - 2].fields@));
                }
                lemma_packed_after_finish(
                    a,
                    self.tracker().structs(),
                    pre.tracker().result(),
                    self.tracker().result(),
                    pre.current_offset,
                );
            }
            assert(sv_list(out@) + Seq::<SValue>::empty() =~= sv_list(out@));
            if self.tracking_ok() {
                let a = old(self).tracker().structs();
                let b1 = s1.tracker().structs();
                let p = pre.tracker().structs();
                let f = self.tracker().structs();
                assert(p.len() == n0 + 1);
                if n0 > 0 {
                    assert forall|j: int| 0 <= j < n0 implies #[trigger] f[j].offset == a[j].offset by {
                        assert(b1[j] == b1.subrange(0, n0 as int)[j]);
                        assert(p[j].offset == b1[j].offset);
                        if j < n0 - 1 {
                            assert(f[j] == f.subrange(0, n0 - 1)[j]);
                            assert(p[j] == p.subrange(0, n0 - 1)[j]);
                        }
                    }
                } else {
                    assert(p[0].offset == b1[0].offset);
                }
            }
        }
        Ok(out)
    }

    /// The offset tree of what was decoded, or the first failure of the tracker.
    pub fn take_offsets(self) -> (r: Result<StructOffset, PlainSerializerError>)
        ensures
            r == match self.tracking_failure() {
                Some(e) => Err(e),
                None => self.tracker().taken(),
            },
            self.tracking_ok() == self.tracking_failure().is_none(),
    {
        match self.offsets_error {
            Some(e) => Err(e),
            None => self.offsets_deserializer.take(),
        }
    }
}

/// The declared field names, in order.
fn field_names(fields: &Vec<FieldShape>) -> (r: Vec<String>)
    ensures
        r@.len() == fields@.len(),
        forall|i: int| 0 <= i < fields@.len() ==> #[trigger] r@[i] == fields@[i].name,
{
    let mut out: Vec<String> = Vec::new();
    let mut i: usize = 0;
    while i < fields.len()
        invariant
            i <= fields@.len(),
            out@.len() == i,
            forall|j: int| 0 <= j < i ==> #[trigger] out@[j] == fields@[j].name,
        decreases fields@.len() - i,
    {
        out.push(fields[i].name.clone());
        i = i + 1;
    }
    out
}

/// Whether `v` is one of `variants`.
fn contains_variant(variants: &Vec<i128>, v: i128) -> (r: bool)
    ensures
        r == variants@.contains(v),
{
    let mut i: usize = 0;
    while i < variants.len()
        invariant
            i <= variants@.len(),
            forall|j: int| 0 <= j < i ==> variants@[j] != v,
        decreases variants@.len() - i,
    {
        if variants[i] == v {
            assert(variants@[i as int] == v);
            return true;
        }
        i = i + 1;
    }
    false
}

/// Decodes a value of `shape` from the start of `bytes`.
pub fn from_bytes(shape: &Shape, bytes: &[u8]) -> (r: Result<Value, PlainSerializerError>)
    ensures
        match spec_from_bytes(*shape, bytes@) {
            Ok(v) => r is Ok && r->Ok_0@ == v,
            Err(x) => r == Err::<Value, _>(x),
        },
{
    let mut des = PlainDeserializer::new(bytes);
    des.deserialize(shape)
}

/// Decodes a value of `shape` from the start of `bytes`, with the offset tree of the
/// decode. The tree can fail on its own while the value decodes: the outermost
/// value is not a struct, or a struct repeats inside one field (the elements of a
/// collection or a fixed array). In the latter case the second nested struct finds
/// the field already holding one and the tree fails with `DoubleInnerStruct`
/// (`OffsetDeserializer::finish_struct`), rather than keeping only the last one. For a struct shape, a tree that comes back starts
/// at 0 and spans exactly the bytes consumed; without repeated pseudo-fields inside
/// collections its fields are packed at every level; and when the elements of its
/// collections and fixed arrays report nothing to the tracker (`tracks_exactly`),
/// it is exactly `decoded_layout`: presence flags, lengths, fields and nested
/// structs, entry by entry.
pub fn from_bytes_with_offsets(shape: &Shape, bytes: &[u8]) -> (r: Result<
    (Value, Result<StructOffset, PlainSerializerError>),
    PlainSerializerError,
>)
    ensures
        match spec_decode(*shape, bytes@, 0) {
            Ok((v, e)) => {
                &&& r is Ok
                &&& r->Ok_0.0@ == v
                &&& shape is Struct ==> (r->Ok_0.1 matches Ok(so) ==> so.offset == 0 && so.size == e)
                &&& tracks_packed(*shape) ==> (r->Ok_0.1 matches Ok(so) ==> tree_packed(so))
                &&& shape is Struct && tracks_fully(*shape) ==> r->Ok_0.1 is Ok
                &&& no_events(*shape) ==> r->Ok_0.1 == Err::<StructOffset, _>(
                    PlainSerializerError::NoResult,
                )
                &&& starts_with_pseudo(*shape) ==> r->Ok_0.1 is Err
                &&& shape is Struct && tracks_exactly(*shape) ==> (r->Ok_0.1 matches Ok(so)
                    && decoded_layout(so, *shape, bytes@, 0))
            },
            Err(x) => r == Err::<(Value, Result<StructOffset, PlainSerializerError>), _>(x),
        },
{
    let mut des = PlainDeserializer::new(bytes);
    proof {
        if tracks_exactly(*shape) {
            lemma_exactly_fully(*shape);
        }
        if no_events(*shape) {
            lemma_no_events_fixed(*shape);
        }
    }
    match des.deserialize(shape) {
        Ok(v) => Ok((v, des.take_offsets())),
        Err(x) => Err(x),
    }
}

/// Decoding `n` elements yields `n` values; scalar elements of kind `k` take
/// exactly `n * width(k)` bytes.
pub proof fn lemma_decode_many_count(elem: Shape, n: nat, buf: Seq<u8>, pos: nat)
    requires
        spec_decode_many(elem, n, buf, pos) is Ok,
    ensures
        spec_decode_many(elem, n, buf, pos)->Ok_0.0.len() == n,
        elem matches Shape::Scalar(k) ==> spec_decode_many(elem, n, buf, pos)->Ok_0.1 == pos + n
            * width(k),
    decreases n,
{
    if n > 0 {
        let p = spec_decode(elem, buf, pos)->Ok_0.1;
        lemma_decode_many_count(elem, (n - 1) as nat, buf, p);
        if let Shape::Scalar(k) = elem {
            assert(p == pos + width(k));
            assert(pos + width(k) + (n - 1) * width(k) == pos + n * width(k)) by (nonlinear_arith);
        }
    }
}

/// Collections: the `u16` prefix is the element count; exactly that many elements
/// are decoded after it, and scalar elements fill exactly `count * width` bytes.
pub proof fn lemma_collection_count(inner: Shape, buf: Seq<u8>, pos: nat)
    requires
        spec_decode(Shape::Collection(Box::new(inner)), buf, pos) is Ok,
    ensures
        pos + 2 <= buf.len(),
        ({
            let count = le_nat(buf.subrange(pos as int, (pos + 2) as int));
            let (v, e) = spec_decode(Shape::Collection(Box::new(inner)), buf, pos)->Ok_0;
            &&& v matches SValue::List(vs) && vs.len() == count
            &&& inner matches Shape::Scalar(k) ==> e == pos + 2 + count * width(k)
        }),
{
    let count = le_nat(buf.subrange(pos as int, (pos + 2) as int));
    lemma_decode_many_count(inner, count, buf, pos + 2);
}

/// Presence flags: a zero flag decodes as an absent value and consumes only the
/// flag; any other flag decodes the inner value right after it.
pub proof fn lemma_presence_flag_decode(inner: Shape, buf: Seq<u8>, pos: nat)
    requires
        pos < buf.len(),
    ensures
        buf[pos as int] == 0 ==> spec_decode(Shape::Opt(Box::new(inner)), buf, pos) == Ok::<
            (SValue, nat),
            PlainSerializerError,
        >((SValue::Opt(None), pos + 1)),
        buf[pos as int] != 0 ==> match spec_decode(inner, buf, pos + 1) {
            Ok((v, e)) => spec_decode(Shape::Opt(Box::new(inner)), buf, pos) == Ok::<
                (SValue, nat),
                PlainSerializerError,
            >((SValue::Opt(Some(Box::new(v))), e)),
            Err(x) => spec_decode(Shape::Opt(Box::new(inner)), buf, pos) == Err::<
                (SValue, nat),
                PlainSerializerError,
            >(x),
        },
{
}

} // verus!
