//! The offset tree and the stack machine that builds it alongside a decode.
use vstd::prelude::*;

use crate::error::PlainSerializerError;
use vstd::string::StringExecFns;

verus! {

/// Where one field (or pseudo-field) of a struct lies in the decoded buffer.
#[derive(Debug)]
pub struct FieldOffset {
    pub field_name: String,
    pub offset: usize,
    pub size: usize,
    pub inner_struct: Option<Box<StructOffset>>,
}

/// Where a struct lies in the decoded buffer, with its fields in wire order.
#[derive(Debug)]
pub struct StructOffset {
    pub name: String,
    pub offset: usize,
    pub size: usize,
    pub fields: Vec<FieldOffset>,
}

pub open spec fn top<T>(s: Seq<T>) -> T {
    s[s.len() - 1]
}

/// `b` equals `a` but for its top element (the two have the same length).
pub open spec fn same_below_top<T>(a: Seq<T>, b: Seq<T>) -> bool {
    &&& a.len() == b.len()
    &&& a.len() > 0
    &&& a.subrange(0, a.len() - 1) == b.subrange(0, b.len() - 1)
}

pub open spec fn field_with(f: FieldOffset, offset: usize, size: usize) -> FieldOffset {
    FieldOffset { field_name: f.field_name, offset, size, inner_struct: f.inner_struct }
}

/// The fields with the size of the last one set so that it ends at `end`.
pub open spec fn backfill(fs: Seq<FieldOffset>, end: usize) -> Seq<FieldOffset> {
    if fs.len() == 0 {
        fs
    } else {
        fs.update(fs.len() - 1, field_with(top(fs), top(fs).offset, (end - top(fs).offset) as usize))
    }
}

/// Each field ends where the next one starts:
/// `fields[i].offset + fields[i].size == fields[i + 1].offset`, so no two overlap.
pub open spec fn fields_packed(fs: Seq<FieldOffset>) -> bool {
    forall|i: int| 0 <= i < fs.len() - 1 ==> fs[i].offset + fs[i].size == #[trigger] fs[i + 1].offset
}

/// Every struct of the tree has its fields packed, and its last field ends where
/// the struct ends.
pub open spec fn tree_packed(s: StructOffset) -> bool
    decreases s,
{
    &&& fields_packed(s.fields@)
    &&& s.fields@.len() > 0 ==> top(s.fields@).offset + top(s.fields@).size == s.offset + s.size
    &&& forall|i: int|
        0 <= i < s.fields@.len() ==> match (#[trigger] s.fields@[i]).inner_struct {
            Some(b) => tree_packed(*b),
            None => true,
        }
}

/// Every nested struct under the fields `fs` has its fields packed.
pub open spec fn inners_packed(fs: Seq<FieldOffset>) -> bool {
    forall|i: int|
        0 <= i < fs.len() ==> match (#[trigger] fs[i]).inner_struct {
            Some(b) => tree_packed(*b),
            None => true,
        }
}

/// Every open struct, and the finished tree if any, has its fields packed.
pub open spec fn stack_packed(structs: Seq<StructOffset>, result: Option<StructOffset>) -> bool {
    &&& forall|j: int|
        0 <= j < structs.len() ==> fields_packed((#[trigger] structs[j]).fields@) && inners_packed(
            structs[j].fields@,
        )
    &&& result matches Some(f) ==> tree_packed(f)
}

/// What a pseudo-field insertion into the innermost open struct did, on success:
/// the last field is replaced by a field named after it with `suffix`, at `offset`
/// with `size` bytes, followed (when `keep`) by the replaced field moved `size`
/// bytes forward.
pub open spec fn pseudo_inserted(
    old_fs: Seq<FieldOffset>,
    new_fs: Seq<FieldOffset>,
    offset: usize,
    size: usize,
    suffix: Seq<char>,
    keep: bool,
) -> bool {
    let prev = top(old_fs);
    let n = old_fs.len() - 1;
    &&& new_fs.len() == old_fs.len() + if keep { 1int } else { 0int }
    &&& new_fs.subrange(0, n) == old_fs.subrange(0, n)
    &&& new_fs[n].field_name@ == prev.field_name@ + suffix
    &&& new_fs[n].offset == offset
    &&& new_fs[n].size == size
    &&& new_fs[n].inner_struct.is_none()
    &&& keep ==> prev.offset + size <= usize::MAX
    &&& keep ==> new_fs[n + 1] == field_with(prev, (prev.offset + size) as usize, prev.size)
}

/// `b` holds as many open structs as `a`, each starting where it did in `a`.
pub open spec fn frame_kept(a: Seq<StructOffset>, b: Seq<StructOffset>) -> bool {
    &&& a.len() == b.len()
    &&& forall|j: int| 0 <= j < a.len() ==> #[trigger] b[j].offset == a[j].offset
}

pub proof fn lemma_frame_kept_top(a: Seq<StructOffset>, b: Seq<StructOffset>)
    requires
        same_below_top(a, b),
        top(a).offset == top(b).offset,
    ensures
        frame_kept(a, b),
{
    assert forall|j: int| 0 <= j < a.len() implies #[trigger] b[j].offset == a[j].offset by {
        if j < a.len() - 1 {
            assert(b[j] == b.subrange(0, b.len() - 1)[j]);
            assert(a[j] == a.subrange(0, a.len() - 1)[j]);
        }
    }
}

pub proof fn lemma_frame_kept_trans(a: Seq<StructOffset>, b: Seq<StructOffset>, c: Seq<StructOffset>)
    requires
        frame_kept(a, b),
        frame_kept(b, c),
    ensures
        frame_kept(a, c),
{
    assert forall|j: int| 0 <= j < a.len() implies #[trigger] c[j].offset == a[j].offset by {
        assert(b[j].offset == a[j].offset);
    }
}

/// `f` is the struct `s` closed at `end`: its last field and its own size now
/// reach `end`.
pub open spec fn finished_as(f: StructOffset, s: StructOffset, end: usize) -> bool {
    &&& f.name == s.name
    &&& f.offset == s.offset
    &&& f.size == end - s.offset
    &&& f.fields@ == backfill(s.fields@, end)
}

/// Builds the offset tree from the events of one decode: structs opened and
/// closed, fields started, and the pseudo-fields of lengths and presence flags.
pub struct OffsetDeserializer {
    structs_stack: Vec<StructOffset>,
    fields_stack: Vec<Vec<String>>,
    result: Option<StructOffset>,
}

impl OffsetDeserializer {
    pub closed spec fn structs(&self) -> Seq<StructOffset> {
        self.structs_stack@
    }

    /// For each open struct, the names of its fields not yet started.
    pub closed spec fn pending(&self) -> Seq<Seq<String>> {
        self.fields_stack@.map_values(|v: Vec<String>| v@)
    }

    pub closed spec fn result(&self) -> Option<StructOffset> {
        self.result
    }

    /// The fields of the innermost open struct.
    pub open spec fn top_fields(&self) -> Seq<FieldOffset> {
        top(self.structs()).fields@
    }

    pub fn new() -> (r: Self)
        ensures
            r.structs().len() == 0,
            r.pending().len() == 0,
            r.result().is_none(),
    {
        OffsetDeserializer { structs_stack: Vec::new(), fields_stack: Vec::new(), result: None }
    }

    /// Opens a struct named `name` whose fields, in order, are `fields`, at `offset`.
    pub fn begin_struct(&mut self, name: String, fields: Vec<String>, offset: usize) -> (r: Result<
        (),
        PlainSerializerError,
    >)
        ensures
            old(self).result().is_some() ==> r == Err::<(), _>(PlainSerializerError::TooManyStructs)
                && *final(self) == *old(self),
            old(self).result().is_none() ==> {
                &&& r is Ok
                &&& final(self).result().is_none()
                &&& final(self).structs().len() == old(self).structs().len() + 1
                &&& final(self).structs().subrange(0, old(self).structs().len() as int)
                    == old(self).structs()
                &&& top(final(self).structs()).name == name
                &&& top(final(self).structs()).offset == offset
                &&& top(final(self).structs()).size == 0
                &&& final(self).top_fields().len() == 0
                &&& final(self).pending() == old(self).pending().push(fields@)
            },
    {
        if self.result.is_some() {
            return Err(PlainSerializerError::TooManyStructs);
        }
        self.structs_stack.push(StructOffset { name, offset, size: 0, fields: Vec::new() });
        let ghost before = self.fields_stack@;
        self.fields_stack.push(fields);
        proof {
            assert(self.fields_stack@ == before.push(fields));
            assert(self.pending() =~= old(self).pending().push(fields@));
        }
        Ok(())
    }

    /// Starts the next declared field of the innermost open struct at `offset`; the
    /// previous field, if any, now ends there.
    pub fn add_field(&mut self, offset: usize) -> (r: Result<(), PlainSerializerError>)
        ensures
            old(self).structs().len() == 0 ==> r == Err::<(), _>(
                PlainSerializerError::EmptyStructStack,
            ),
            old(self).structs().len() > 0 && old(self).pending().len() == 0 ==> r == Err::<(), _>(
                PlainSerializerError::EmptyFieldsStack,
            ),
            old(self).structs().len() > 0 && old(self).pending().len() > 0 && top(
                old(self).pending(),
            ).len() == 0 ==> r == Err::<(), _>(PlainSerializerError::TooManyFields),
            old(self).structs().len() > 0 && old(self).pending().len() > 0 && top(
                old(self).pending(),
            ).len() > 0 && old(self).top_fields().len() > 0 && offset < top(
                old(self).top_fields(),
            ).offset ==> r == Err::<(), _>(PlainSerializerError::BackwardsOffset),
            old(self).structs().len() > 0 && old(self).pending().len() > 0 && top(
                old(self).pending(),
            ).len() > 0 && (old(self).top_fields().len() > 0 ==> offset >= top(
                old(self).top_fields(),
            ).offset) ==> r is Ok,
            r is Err ==> *final(self) == *old(self),
            r is Ok ==> {
                let s = top(old(self).structs());
                let names = top(old(self).pending());
                &&& same_below_top(old(self).structs(), final(self).structs())
                &&& top(final(self).structs()).name == s.name
                &&& top(final(self).structs()).offset == s.offset
                &&& top(final(self).structs()).size == s.size
                &&& final(self).top_fields() == backfill(s.fields@, offset).push(
                    FieldOffset {
                        field_name: names[0],
                        offset,
                        size: 0,
                        inner_struct: None,
                    },
                )
                &&& same_below_top(old(self).pending(), final(self).pending())
                &&& top(final(self).pending()) == names.drop_first()
                &&& final(self).result() == old(self).result()
            },
            r is Ok && fields_packed(old(self).top_fields()) ==> fields_packed(
                final(self).top_fields(),
            ),
    {
        if self.structs_stack.len() == 0 {
            return Err(PlainSerializerError::EmptyStructStack);
        }
        if self.fields_stack.len() == 0 {
            return Err(PlainSerializerError::EmptyFieldsStack);
        }
        let nlast = self.fields_stack.len() - 1;
        if self.fields_stack[nlast].len() == 0 {
            return Err(PlainSerializerError::TooManyFields);
        }
        let slast = self.structs_stack.len() - 1;
        let nf = self.structs_stack[slast].fields.len();
        if nf > 0 && offset < self.structs_stack[slast].fields[nf - 1].offset {
            return Err(PlainSerializerError::BackwardsOffset);
        }
        let ghost old_structs = self.structs_stack@;
        let ghost old_fields = self.fields_stack@;
        let mut names = self.fields_stack.pop().unwrap();
        let field_name = names.remove(0);
        self.fields_stack.push(names);
        let mut s = self.structs_stack.pop().unwrap();
        let ghost old_fs = s.fields@;
        if nf > 0 {
            let mut prev = s.fields.pop().unwrap();
            prev.size = offset - prev.offset;
            s.fields.push(prev);
        }
        assert(s.fields@ =~= backfill(old_fs, offset));
        s.fields.push(FieldOffset { field_name, offset, size: 0, inner_struct: None });
        self.structs_stack.push(s);
        proof {
            assert(old_structs.subrange(0, old_structs.len() - 1) =~= self.structs_stack@.subrange(
                0,
                self.structs_stack@.len() - 1,
            ));
            assert(old(self).pending().subrange(0, old_fields.len() - 1) =~= self.pending().subrange(
                0,
                self.pending().len() - 1,
            ));
            assert(top(self.pending()) =~= top(old(self).pending()).drop_first());
            let nfs = self.top_fields();
            if fields_packed(old_fs) {
                assert forall|i: int| 0 <= i < nfs.len() - 1 implies nfs[i].offset + nfs[i].size
                    == #[trigger] nfs[i + 1].offset by {
                    if i + 1 < old_fs.len() {
                        assert(nfs[i] == old_fs[i]);
                        assert(nfs[i + 1].offset == old_fs[i + 1].offset);
                    }
                }
            }
        }
        Ok(())
    }

    /// Replaces the last field of the innermost open struct by a pseudo-field named
    /// after it with `suffix`, and puts the field back behind it when `keep`.
    fn add_psuedo(&mut self, offset: usize, size: usize, suffix: &str, keep: bool) -> (r: Result<
        (),
        PlainSerializerError,
    >)
        ensures
            old(self).structs().len() == 0 ==> r == Err::<(), _>(
                PlainSerializerError::EmptyStructStack,
            ),
            old(self).structs().len() > 0 && old(self).top_fields().len() == 0 ==> r == Err::<
                (),
                _,
            >(PlainSerializerError::TooManyFields),
            old(self).structs().len() > 0 && old(self).top_fields().len() > 0 && keep && top(
                old(self).top_fields(),
            ).offset + size > usize::MAX ==> r == Err::<(), _>(PlainSerializerError::OffsetOverflow),
            old(self).structs().len() > 0 && old(self).top_fields().len() > 0 && (keep ==> top(
                old(self).top_fields(),
            ).offset + size <= usize::MAX) ==> r is Ok,
            r is Err ==> *final(self) == *old(self),
            r is Ok ==> {
                let s = top(old(self).structs());
                &&& same_below_top(old(self).structs(), final(self).structs())
                &&& top(final(self).structs()).name == s.name
                &&& top(final(self).structs()).offset == s.offset
                &&& top(final(self).structs()).size == s.size
                &&& pseudo_inserted(s.fields@, final(self).top_fields(), offset, size, suffix@, keep)
                &&& final(self).pending() == old(self).pending()
                &&& final(self).result() == old(self).result()
            },
            r is Ok && fields_packed(old(self).top_fields()) && offset == top(
                old(self).top_fields(),
            ).offset ==> fields_packed(final(self).top_fields()),
    {
        if self.structs_stack.len() == 0 {
            return Err(PlainSerializerError::EmptyStructStack);
        }
        let slast = self.structs_stack.len() - 1;
        let nf = self.structs_stack[slast].fields.len();
        if nf == 0 {
            return Err(PlainSerializerError::TooManyFields);
        }
        if keep && self.structs_stack[slast].fields[nf - 1].offset > usize::MAX - size {
            return Err(PlainSerializerError::OffsetOverflow);
        }
        let ghost old_structs = self.structs_stack@;
        let mut s = self.structs_stack.pop().unwrap();
        let ghost old_fs = s.fields@;
        let mut prev = s.fields.pop().unwrap();
        let field_name = prev.field_name.clone().concat(suffix);
        s.fields.push(FieldOffset { field_name, offset, size, inner_struct: None });
        if keep {
            prev.offset = prev.offset + size;
            s.fields.push(prev);
        }
        self.structs_stack.push(s);
        proof {
            assert(old_structs.subrange(0, old_structs.len() - 1) =~= self.structs_stack@.subrange(
                0,
                self.structs_stack@.len() - 1,
            ));
            let nfs = self.top_fields();
            let n = old_fs.len() - 1;
            assert(nfs.subrange(0, n) =~= old_fs.subrange(0, n));
            if fields_packed(old_fs) && offset == top(old_fs).offset {
                assert forall|i: int| 0 <= i < nfs.len() - 1 implies nfs[i].offset + nfs[i].size
                    == #[trigger] nfs[i + 1].offset by {
                    if i + 1 < n {
                        assert(nfs[i] == old_fs[i]);
                        assert(nfs[i + 1] == old_fs[i + 1]);
                    } else if i + 1 == n {
                        assert(nfs[i] == old_fs[i]);
                    }
                }
            }
        }
        Ok(())
    }

    /// Records the presence flag of an option field: `size` bytes at `offset`,
    /// named `<field>_is_present`. When absent, the field itself is dropped.
    pub fn add_option(&mut self, offset: usize, size: usize, is_some: bool) -> (r: Result<
        (),
        PlainSerializerError,
    >)
        ensures
            old(self).structs().len() == 0 ==> r == Err::<(), _>(
                PlainSerializerError::EmptyStructStack,
            ),
            old(self).structs().len() > 0 && old(self).top_fields().len() == 0 ==> r == Err::<
                (),
                _,
            >(PlainSerializerError::TooManyFields),
            old(self).structs().len() > 0 && old(self).top_fields().len() > 0 && is_some && top(
                old(self).top_fields(),
            ).offset + size > usize::MAX ==> r == Err::<(), _>(PlainSerializerError::OffsetOverflow),
            old(self).structs().len() > 0 && old(self).top_fields().len() > 0 && (is_some ==> top(
                old(self).top_fields(),
            ).offset + size <= usize::MAX) ==> r is Ok,
            r is Err ==> *final(self) == *old(self),
            r is Ok ==> {
                let s = top(old(self).structs());
                &&& same_below_top(old(self).structs(), final(self).structs())
                &&& top(final(self).structs()).name == s.name
                &&& top(final(self).structs()).offset == s.offset
                &&& top(final(self).structs()).size == s.size
                &&& pseudo_inserted(
                    s.fields@,
                    final(self).top_fields(),
                    offset,
                    size,
                    "_is_present"@,
                    is_some,
                )
                &&& final(self).pending() == old(self).pending()
                &&& final(self).result() == old(self).result()
            },
            r is Ok && fields_packed(old(self).top_fields()) && offset == top(
                old(self).top_fields(),
            ).offset ==> fields_packed(final(self).top_fields()),
    {
        self.add_psuedo(offset, size, "_is_present", is_some)
    }

    /// Records the length prefix of a collection field: `size` bytes at `offset`,
    /// named `<field>_len`, followed by the field itself.
    pub fn add_len(&mut self, offset: usize, size: usize) -> (r: Result<(), PlainSerializerError>)
        ensures
            old(self).structs().len() == 0 ==> r == Err::<(), _>(
                PlainSerializerError::EmptyStructStack,
            ),
            old(self).structs().len() > 0 && old(self).top_fields().len() == 0 ==> r == Err::<
                (),
                _,
            >(PlainSerializerError::TooManyFields),
            old(self).structs().len() > 0 && old(self).top_fields().len() > 0 && top(
                old(self).top_fields(),
            ).offset + size > usize::MAX ==> r == Err::<(), _>(PlainSerializerError::OffsetOverflow),
            old(self).structs().len() > 0 && old(self).top_fields().len() > 0 && (true ==> top(
                old(self).top_fields(),
            ).offset + size <= usize::MAX) ==> r is Ok,
            r is Err ==> *final(self) == *old(self),
            r is Ok ==> {
                let s = top(old(self).structs());
                &&& same_below_top(old(self).structs(), final(self).structs())
                &&& top(final(self).structs()).name == s.name
                &&& top(final(self).structs()).offset == s.offset
                &&& top(final(self).structs()).size == s.size
                &&& pseudo_inserted(s.fields@, final(self).top_fields(), offset, size, "_len"@, true)
                &&& final(self).pending() == old(self).pending()
                &&& final(self).result() == old(self).result()
            },
            r is Ok && fields_packed(old(self).top_fields()) && offset == top(
                old(self).top_fields(),
            ).offset ==> fields_packed(final(self).top_fields()),
    {
        self.add_psuedo(offset, size, "_len", true)
    }

    /// Closes the innermost open struct at `offset`. It becomes the nested struct of
    /// the last field of the struct around it, or the finished tree when it is the
    /// outermost one.
    pub fn finish_struct(&mut self, offset: usize) -> (r: Result<(), PlainSerializerError>)
        ensures
            old(self).structs().len() == 0 || old(self).pending().len() == 0 ==> r == Err::<(), _>(
                PlainSerializerError::EmptyStructStack,
            ),
            old(self).structs().len() > 0 && old(self).pending().len() > 0 && top(
                old(self).pending(),
            ).len() > 0 ==> r == Err::<(), _>(PlainSerializerError::TooLittleFields),
            ({
                let n = old(self).structs().len();
                let s = top(old(self).structs());
                &&& n > 0
                &&& old(self).pending().len() > 0
                &&& top(old(self).pending()).len() == 0
                &&& offset >= s.offset
                &&& s.fields@.len() > 0 ==> offset >= top(s.fields@).offset
                &&& n > 1 ==> old(self).structs()[n - 2].fields@.len() > 0 && top(
                    old(self).structs()[n - 2].fields@,
                ).inner_struct.is_none()
            }) ==> r is Ok,
            r is Err ==> *final(self) == *old(self),
            r is Ok ==> {
                let s = top(old(self).structs());
                let n = old(self).structs().len();
                &&& n > 0
                &&& old(self).pending().len() > 0
                &&& top(old(self).pending()).len() == 0
                &&& offset >= s.offset
                &&& s.fields@.len() > 0 ==> offset >= top(s.fields@).offset
                &&& final(self).pending() == old(self).pending().drop_last()
                &&& n == 1 ==> {
                    &&& final(self).structs().len() == 0
                    &&& final(self).result() matches Some(f) && finished_as(f, s, offset)
                }
                &&& n > 1 ==> {
                    let p = old(self).structs()[n - 2];
                    let q = top(final(self).structs());
                    let m = p.fields@.len();
                    &&& final(self).result() == old(self).result()
                    &&& final(self).structs().len() == n - 1
                    &&& final(self).structs().subrange(0, n - 2) == old(self).structs().subrange(
                        0,
                        n - 2,
                    )
                    &&& q.name == p.name && q.offset == p.offset && q.size == p.size
                    &&& m > 0 && top(p.fields@).inner_struct.is_none()
                    &&& q.fields@.len() == m
                    &&& q.fields@.subrange(0, m - 1) == p.fields@.subrange(0, m - 1)
                    &&& top(q.fields@).field_name == top(p.fields@).field_name
                    &&& top(q.fields@).offset == top(p.fields@).offset
                    &&& top(q.fields@).size == top(p.fields@).size
                    &&& top(q.fields@).inner_struct matches Some(f) && finished_as(*f, s, offset)
                }
            },
            r is Ok && old(self).structs().len() > 1 ==> {
                let p = old(self).structs()[old(self).structs().len() - 2];
                fields_packed(p.fields@) ==> fields_packed(final(self).top_fields())
            },
            r is Err && old(self).structs().len() > 0 && old(self).pending().len() > 0 && top(
                old(self).pending(),
            ).len() == 0 ==> {
                let s = top(old(self).structs());
                let n = old(self).structs().len();
                ||| r == Err::<(), _>(PlainSerializerError::BackwardsOffset) && (offset < s.offset
                    || (s.fields@.len() > 0 && offset < top(s.fields@).offset))
                ||| r == Err::<(), _>(PlainSerializerError::NoFields) && n > 1
                    && old(self).structs()[n - 2].fields@.len() == 0
                ||| r == Err::<(), _>(PlainSerializerError::DoubleInnerStruct) && n > 1
                    && top(old(self).structs()[n - 2].fields@).inner_struct.is_some()
            },
    {
        if self.structs_stack.len() == 0 || self.fields_stack.len() == 0 {
            return Err(PlainSerializerError::EmptyStructStack);
        }
        if self.fields_stack[self.fields_stack.len() - 1].len() != 0 {
            return Err(PlainSerializerError::TooLittleFields);
        }
        let n = self.structs_stack.len();
        let nf = self.structs_stack[n - 1].fields.len();
        if offset < self.structs_stack[n - 1].offset || (nf > 0 && offset
            < self.structs_stack[n - 1].fields[nf - 1].offset) {
            return Err(PlainSerializerError::BackwardsOffset);
        }
        if n > 1 {
            let m = self.structs_stack[n - 2].fields.len();
            if m == 0 {
                return Err(PlainSerializerError::NoFields);
            }
            if self.structs_stack[n - 2].fields[m - 1].inner_struct.is_some() {
                return Err(PlainSerializerError::DoubleInnerStruct);
            }
        }
        let ghost old_structs = self.structs_stack@;
        let ghost old_fields = self.fields_stack@;
        let mut s = self.structs_stack.pop().unwrap();
        let _ = self.fields_stack.pop();
        let ghost old_fs = s.fields@;
        if nf > 0 {
            let mut last = s.fields.pop().unwrap();
            last.size = offset - last.offset;
            s.fields.push(last);
        }
        assert(s.fields@ =~= backfill(old_fs, offset));
        s.size = offset - s.offset;
        proof {
            assert(self.pending() =~= old(self).pending().drop_last());
        }
        if n > 1 {
            let mut p = self.structs_stack.pop().unwrap();
            let ghost old_pfs = p.fields@;
            let mut lf = p.fields.pop().unwrap();
            lf.inner_struct = Some(Box::new(s));
            p.fields.push(lf);
            self.structs_stack.push(p);
            proof {
                assert(self.structs_stack@.subrange(0, n - 2) =~= old_structs.subrange(0, n - 2));
                let qfs = self.top_fields();
                assert(qfs.subrange(0, old_pfs.len() - 1) =~= old_pfs.subrange(
                    0,
                    old_pfs.len() - 1,
                ));
                if fields_packed(old_pfs) {
                    assert forall|i: int| 0 <= i < qfs.len() - 1 implies qfs[i].offset + qfs[i].size
                        == #[trigger] qfs[i + 1].offset by {
                        assert(qfs[i] == old_pfs[i]);
                        assert(qfs[i + 1].offset == old_pfs[i + 1].offset);
                    }
                }
            }
        } else {
            self.result = Some(s);
        }
        Ok(())
    }

    /// What `take` hands out.
    pub open spec fn taken(&self) -> Result<StructOffset, PlainSerializerError> {
        if self.pending().len() > 0 {
            Err(PlainSerializerError::UnexpectedFields)
        } else if self.structs().len() > 0 {
            Err(PlainSerializerError::UnexpectedStruct)
        } else {
            match self.result() {
                Some(s) => Ok(s),
                None => Err(PlainSerializerError::NoResult),
            }
        }
    }

    /// The finished offset tree, once every opened struct has been closed.
    pub fn take(self) -> (r: Result<StructOffset, PlainSerializerError>)
        ensures
            r == self.taken(),
    {
        if self.fields_stack.len() != 0 {
            return Err(PlainSerializerError::UnexpectedFields);
        }
        if self.structs_stack.len() != 0 {
            return Err(PlainSerializerError::UnexpectedStruct);
        }
        match self.result {
            Some(s) => Ok(s),
            None => Err(PlainSerializerError::NoResult),
        }
    }
}

/// A closed struct keeps its fields packed when they were packed while it was open,
/// and its last field then ends where the struct ends.
pub proof fn lemma_finished_struct_layout(f: StructOffset, s: StructOffset, end: usize)
    requires
        finished_as(f, s, end),
        fields_packed(s.fields@),
        end >= s.offset,
        s.fields@.len() > 0 ==> end >= top(s.fields@).offset,
    ensures
        fields_packed(f.fields@),
        f.size == end - f.offset,
        f.fields@.len() > 0 ==> top(f.fields@).offset + top(f.fields@).size == f.offset + f.size,
{
    let fs = f.fields@;
    assert forall|i: int| 0 <= i < fs.len() - 1 implies fs[i].offset + fs[i].size
        == #[trigger] fs[i + 1].offset by {
        assert(fs[i] == s.fields@[i]);
        assert(fs[i + 1].offset == s.fields@[i + 1].offset);
    }
}

/// Presence flags: the `_is_present` pseudo-field takes one byte and holds no nested
/// struct; an absent value leaves no field behind it, a present one is the next
/// field and starts one byte later.
pub proof fn lemma_presence_flag_layout(
    old_fs: Seq<FieldOffset>,
    new_fs: Seq<FieldOffset>,
    offset: usize,
    is_some: bool,
)
    requires
        old_fs.len() > 0,
        pseudo_inserted(old_fs, new_fs, offset, 1, "_is_present"@, is_some),
    ensures
        new_fs[old_fs.len() - 1].offset == offset,
        new_fs[old_fs.len() - 1].size == 1,
        new_fs[old_fs.len() - 1].inner_struct.is_none(),
        !is_some ==> new_fs.len() == old_fs.len(),
        is_some ==> new_fs.len() == old_fs.len() + 1,
        is_some && offset == top(old_fs).offset ==> {
            &&& new_fs[old_fs.len() as int].offset == new_fs[old_fs.len() - 1].offset + 1
            &&& new_fs[old_fs.len() as int].field_name == top(old_fs).field_name
        },
{
}

/// Length prefixes: the `_len` pseudo-field takes two bytes, and the collection's
/// own field follows it, starting right after it, even when the collection is empty.
pub proof fn lemma_length_prefix_layout(old_fs: Seq<FieldOffset>, new_fs: Seq<FieldOffset>, offset: usize)
    requires
        old_fs.len() > 0,
        offset == top(old_fs).offset,
        pseudo_inserted(old_fs, new_fs, offset, 2, "_len"@, true),
    ensures
        new_fs.len() == old_fs.len() + 1,
        new_fs[old_fs.len() - 1].offset == offset,
        new_fs[old_fs.len() - 1].size == 2,
        new_fs[old_fs.len() as int].offset == offset + 2,
        new_fs[old_fs.len() as int].field_name == top(old_fs).field_name,
{
}

proof fn lemma_below_top_packed(a: Seq<StructOffset>, b: Seq<StructOffset>, j: int)
    requires
        same_below_top(a, b),
        0 <= j < a.len() - 1,
        fields_packed(a[j].fields@) && inners_packed(a[j].fields@),
    ensures
        fields_packed(b[j].fields@) && inners_packed(b[j].fields@),
{
    assert(a[j] == a.subrange(0, a.len() - 1)[j]);
    assert(b[j] == b.subrange(0, b.len() - 1)[j]);
}

/// Starting a field keeps every struct packed.
pub proof fn lemma_packed_after_field(
    a: Seq<StructOffset>,
    b: Seq<StructOffset>,
    result: Option<StructOffset>,
    offset: usize,
    f: FieldOffset,
)
    requires
        stack_packed(a, result),
        same_below_top(a, b),
        f.inner_struct.is_none(),
        top(b).fields@ == backfill(top(a).fields@, offset).push(f),
        fields_packed(top(b).fields@),
    ensures
        stack_packed(b, result),
{
    let fa = top(a).fields@;
    let fb = top(b).fields@;
    assert(fields_packed(a[a.len() - 1].fields@) && inners_packed(a[a.len() - 1].fields@));
    assert forall|i: int| 0 <= i < fb.len() implies match (#[trigger] fb[i]).inner_struct {
        Some(x) => tree_packed(*x),
        None => true,
    } by {
        if i < fa.len() {
            assert(fb[i].inner_struct == fa[i].inner_struct);
        }
    }
    assert forall|j: int| 0 <= j < b.len() implies fields_packed((#[trigger] b[j]).fields@)
        && inners_packed(b[j].fields@) by {
        if j < b.len() - 1 {
            lemma_below_top_packed(a, b, j);
        }
    }
}

/// Inserting a pseudo-field where the field it splits starts keeps every struct packed.
pub proof fn lemma_packed_after_pseudo(
    a: Seq<StructOffset>,
    b: Seq<StructOffset>,
    result: Option<StructOffset>,
    offset: usize,
    size: usize,
    suffix: Seq<char>,
    keep: bool,
)
    requires
        stack_packed(a, result),
        same_below_top(a, b),
        top(a).fields@.len() > 0,
        pseudo_inserted(top(a).fields@, top(b).fields@, offset, size, suffix, keep),
        fields_packed(top(b).fields@),
    ensures
        stack_packed(b, result),
{
    let fa = top(a).fields@;
    let fb = top(b).fields@;
    let n = fa.len() - 1;
    assert(fields_packed(a[a.len() - 1].fields@) && inners_packed(a[a.len() - 1].fields@));
    assert forall|i: int| 0 <= i < fb.len() implies match (#[trigger] fb[i]).inner_struct {
        Some(x) => tree_packed(*x),
        None => true,
    } by {
        if i < n {
            assert(fb[i] == fb.subrange(0, n)[i]);
            assert(fa[i] == fa.subrange(0, n)[i]);
        } else if i == n + 1 {
            assert(fb[i].inner_struct == fa[n].inner_struct);
        }
    }
    assert forall|j: int| 0 <= j < b.len() implies fields_packed((#[trigger] b[j]).fields@)
        && inners_packed(b[j].fields@) by {
        if j < b.len() - 1 {
            lemma_below_top_packed(a, b, j);
        }
    }
}

/// Opening a struct keeps every struct packed.
pub proof fn lemma_packed_after_begin(a: Seq<StructOffset>, b: Seq<StructOffset>, result: Option<StructOffset>)
    requires
        stack_packed(a, result),
        b.len() == a.len() + 1,
        b.subrange(0, a.len() as int) == a,
        top(b).fields@.len() == 0,
    ensures
        stack_packed(b, result),
{
    assert forall|j: int| 0 <= j < b.len() implies fields_packed((#[trigger] b[j]).fields@)
        && inners_packed(b[j].fields@) by {
        if j < a.len() {
            assert(b[j] == b.subrange(0, a.len() as int)[j]);
        }
    }
}

/// Closing the innermost struct keeps every struct packed, and the closed one
/// (attached to its parent or finished) is packed through and through.
pub proof fn lemma_packed_after_finish(
    a: Seq<StructOffset>,
    b: Seq<StructOffset>,
    ra: Option<StructOffset>,
    rb: Option<StructOffset>,
    end: usize,
)
    requires
        stack_packed(a, ra),
        a.len() > 0,
        end >= top(a).offset,
        top(a).fields@.len() > 0 ==> end >= top(top(a).fields@).offset,
        a.len() == 1 ==> (b.len() == 0 && (rb matches Some(f) && finished_as(f, top(a), end))),
        a.len() > 1 ==> {
            let p = a[a.len() - 2];
            let q = top(b);
            let m = p.fields@.len();
            &&& rb == ra
            &&& b.len() == a.len() - 1
            &&& b.subrange(0, a.len() - 2) == a.subrange(0, a.len() - 2)
            &&& m > 0
            &&& q.fields@.len() == m
            &&& q.fields@.subrange(0, m - 1) == p.fields@.subrange(0, m - 1)
            &&& top(q.fields@).inner_struct matches Some(f) && finished_as(*f, top(a), end)
            &&& fields_packed(q.fields@)
        },
    ensures
        stack_packed(b, rb),
{
    let s = top(a);
    assert(fields_packed(a[a.len() - 1].fields@) && inners_packed(a[a.len() - 1].fields@));
    assert forall|f: StructOffset| finished_as(f, s, end) implies tree_packed(f) by {
        lemma_finished_struct_layout(f, s, end);
        assert forall|i: int| 0 <= i < f.fields@.len() implies match (#[trigger] f.fields@[i]).inner_struct {
            Some(x) => tree_packed(*x),
            None => true,
        } by {
            assert(f.fields@[i].inner_struct == s.fields@[i].inner_struct);
        }
    }
    if a.len() > 1 {
        let p = a[a.len() - 2];
        let q = top(b);
        let m = p.fields@.len();
        assert(fields_packed(p.fields@) && inners_packed(p.fields@));
        assert forall|i: int| 0 <= i < q.fields@.len() implies match (#[trigger] q.fields@[i]).inner_struct {
            Some(x) => tree_packed(*x),
            None => true,
        } by {
            if i < m - 1 {
                assert(q.fields@[i] == q.fields@.subrange(0, m - 1)[i]);
                assert(p.fields@[i] == p.fields@.subrange(0, m - 1)[i]);
            }
        }
        assert forall|j: int| 0 <= j < b.len() implies fields_packed((#[trigger] b[j]).fields@)
            && inners_packed(b[j].fields@) by {
            if j < b.len() - 1 {
                assert(b[j] == b.subrange(0, a.len() - 2)[j]);
                assert(a[j] == a.subrange(0, a.len() - 2)[j]);
            }
        }
    }
}

} // verus!
