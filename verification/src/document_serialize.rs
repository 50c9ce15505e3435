//! The archive binary serialization of documents.
//!
//! Wire shape per document: `[schema id: u64 BE]`, then a sequence of
//! `[field id: u16 BE][value]` pairs until the buffer is exhausted; a
//! nested document omits the schema-id prefix. Per-type value
//! encoding, all big-endian and fixed width: `Int`/`UInt` 4 bytes;
//! `Long`/`ULong`/`DateTime`/`Float` 8 bytes; `Bool` 1 byte;
//! `String`/`ByteArray`/`Array`/`Object` a `u32` byte length followed
//! by that many payload bytes; `Enum` a `u16` case identifier followed
//! by the associated value, if the case declares one.
//!
//! `ser_value` and friends are the specification of that format;
//! the executable serializers are proved to produce exactly those
//! bytes.
use crate::bytes::{push_u16_be, push_u32_be, push_u64_be, spec_u16_be, spec_u32_be, spec_u64_be};
use crate::schema::{
    enum_assoc_view, instance_view, instance_views, lemma_instance_views_index,
    lemma_instance_views_len, lemma_value_views_index, lemma_value_views_len, value_view,
    value_views, Document, FieldValue, SpecDocument, SpecFieldInstance, SpecValue,
};
use vstd::prelude::*;

verus! {

broadcast use vstd::std_specs::vec::group_vec_axioms;

/// The greatest byte length a length-prefixed value may carry: the
/// prefix is a `u32`.
pub open spec fn max_prefixed_len() -> int {
    0x1_0000_0000
}

/// The bytes of one value in the archive format.
pub open spec fn ser_value(v: SpecValue) -> Seq<u8>
    decreases v,
{
    match v {
        SpecValue::Int(x) => spec_u32_be(x as u32),
        SpecValue::UInt(x) => spec_u32_be(x),
        SpecValue::Long(x) => spec_u64_be(x as u64),
        SpecValue::ULong(x) => spec_u64_be(x),
        SpecValue::Float(x) => spec_u64_be(x),
        SpecValue::Bool(b) => seq![if b { 1u8 } else { 0u8 }],
        SpecValue::DateTime(x) => spec_u64_be(x as u64),
        SpecValue::String(cs) => {
            let bs = vstd::utf8::encode_utf8(cs);
            spec_u32_be(bs.len() as u32) + bs
        },
        SpecValue::ByteArray(bs) => spec_u32_be(bs.len() as u32) + bs,
        SpecValue::Array(vs) => {
            let payload = ser_values(vs);
            spec_u32_be(payload.len() as u32) + payload
        },
        SpecValue::Object(d) => {
            let payload = ser_instances(d.fields);
            spec_u32_be(payload.len() as u32) + payload
        },
        SpecValue::Enum(case_id, av) => spec_u16_be(case_id) + if av.len() == 1 {
            ser_value(av[0])
        } else {
            seq![]
        },
    }
}

/// The bytes of a list of array elements, back to back.
pub open spec fn ser_values(vs: Seq<SpecValue>) -> Seq<u8>
    decreases vs,
{
    if vs.len() == 0 {
        seq![]
    } else {
        ser_value(vs[0]) + ser_values(vs.drop_first())
    }
}

/// The bytes of a list of field instances: `[field id][value]` pairs.
pub open spec fn ser_instances(fields: Seq<SpecFieldInstance>) -> Seq<u8>
    decreases fields,
{
    if fields.len() == 0 {
        seq![]
    } else {
        spec_u16_be(fields[0].id) + ser_value(fields[0].value) + ser_instances(
            fields.drop_first(),
        )
    }
}

/// The bytes of a whole document: schema-id prefix, then the fields.
pub open spec fn ser_document(d: SpecDocument) -> Seq<u8> {
    spec_u64_be(d.schema.id) + ser_instances(d.fields)
}

/// Whether a value fits the format: every length-prefixed payload
/// must fit its `u32` prefix.
pub open spec fn encodable(v: SpecValue) -> bool
    decreases v,
{
    match v {
        SpecValue::String(cs) => vstd::utf8::encode_utf8(cs).len() < max_prefixed_len(),
        SpecValue::ByteArray(bs) => bs.len() < max_prefixed_len(),
        SpecValue::Array(vs) => ser_values(vs).len() < max_prefixed_len() && values_encodable(vs),
        SpecValue::Object(d) => ser_instances(d.fields).len() < max_prefixed_len()
            && instances_encodable(d.fields),
        SpecValue::Enum(_, av) => av.len() == 1 ==> encodable(av[0]),
        _ => true,
    }
}

pub open spec fn values_encodable(vs: Seq<SpecValue>) -> bool
    decreases vs,
{
    vs.len() == 0 || (encodable(vs[0]) && values_encodable(vs.drop_first()))
}

pub open spec fn instances_encodable(fields: Seq<SpecFieldInstance>) -> bool
    decreases fields,
{
    fields.len() == 0 || (encodable(fields[0].value) && instances_encodable(fields.drop_first()))
}

/// Whether a whole document fits the format on this machine.
pub open spec fn doc_encodable(d: SpecDocument) -> bool {
    instances_encodable(d.fields) && 8 + ser_instances(d.fields).len() <= usize::MAX
}

// ---------------------------------------------------------------------
// Decomposition lemmas
// ---------------------------------------------------------------------
pub proof fn lemma_ser_values_split(vs: Seq<SpecValue>, j: int)
    requires
        0 <= j <= vs.len(),
    ensures
        ser_values(vs) == ser_values(vs.take(j)) + ser_values(vs.skip(j)),
    decreases j,
{
    if j == 0 {
        assert(vs.take(0) =~= Seq::<SpecValue>::empty());
        assert(vs.skip(0) =~= vs);
        assert(ser_values(vs) =~= ser_values(vs.take(0)) + ser_values(vs.skip(0)));
    } else {
        lemma_ser_values_split(vs.drop_first(), j - 1);
        assert(vs.take(j).drop_first() =~= vs.drop_first().take(j - 1));
        assert(vs.drop_first().skip(j - 1) =~= vs.skip(j));
        assert(vs.take(j)[0] == vs[0]);
        assert(ser_values(vs) =~= ser_values(vs.take(j)) + ser_values(vs.skip(j)));
    }
}

pub proof fn lemma_ser_instances_split(fields: Seq<SpecFieldInstance>, j: int)
    requires
        0 <= j <= fields.len(),
    ensures
        ser_instances(fields) == ser_instances(fields.take(j)) + ser_instances(fields.skip(j)),
    decreases j,
{
    if j == 0 {
        assert(fields.take(0) =~= Seq::<SpecFieldInstance>::empty());
        assert(fields.skip(0) =~= fields);
        assert(ser_instances(fields) =~= ser_instances(fields.take(0)) + ser_instances(
            fields.skip(0),
        ));
    } else {
        lemma_ser_instances_split(fields.drop_first(), j - 1);
        assert(fields.take(j).drop_first() =~= fields.drop_first().take(j - 1));
        assert(fields.drop_first().skip(j - 1) =~= fields.skip(j));
        assert(fields.take(j)[0] == fields[0]);
        assert(ser_instances(fields) =~= ser_instances(fields.take(j)) + ser_instances(
            fields.skip(j),
        ));
    }
}

/// One step of `ser_values` along a prefix.
pub proof fn lemma_ser_values_take_succ(vs: Seq<SpecValue>, k: int)
    requires
        0 <= k < vs.len(),
    ensures
        ser_values(vs.take(k + 1)) == ser_values(vs.take(k)) + ser_value(vs[k]),
{
    lemma_ser_values_split(vs.take(k + 1), k);
    assert(vs.take(k + 1).take(k) =~= vs.take(k));
    assert(vs.take(k + 1).skip(k) =~= seq![vs[k]]);
    assert(seq![vs[k]].drop_first() =~= Seq::<SpecValue>::empty());
    assert(ser_values(Seq::<SpecValue>::empty()) == Seq::<u8>::empty());
    assert(ser_values(seq![vs[k]]) =~= ser_value(vs[k]));
}

/// One step of `ser_instances` along a prefix.
pub proof fn lemma_ser_instances_take_succ(fields: Seq<SpecFieldInstance>, k: int)
    requires
        0 <= k < fields.len(),
    ensures
        ser_instances(fields.take(k + 1)) == ser_instances(fields.take(k)) + spec_u16_be(
            fields[k].id,
        ) + ser_value(fields[k].value),
{
    lemma_ser_instances_split(fields.take(k + 1), k);
    assert(fields.take(k + 1).take(k) =~= fields.take(k));
    assert(fields.take(k + 1).skip(k) =~= seq![fields[k]]);
    assert(seq![fields[k]].drop_first() =~= Seq::<SpecFieldInstance>::empty());
    assert(ser_instances(Seq::<SpecFieldInstance>::empty()) == Seq::<u8>::empty());
    assert(ser_instances(seq![fields[k]]) =~= spec_u16_be(fields[k].id) + ser_value(
        fields[k].value,
    ));
}

pub broadcast proof fn lemma_values_encodable_index(vs: Seq<SpecValue>, i: int)
    requires
        values_encodable(vs),
        0 <= i < vs.len(),
    ensures
        #[trigger] encodable(vs[i]),
    decreases vs,
{
    if i > 0 {
        lemma_values_encodable_index(vs.drop_first(), i - 1);
    }
}

pub broadcast proof fn lemma_instances_encodable_index(fields: Seq<SpecFieldInstance>, i: int)
    requires
        instances_encodable(fields),
        0 <= i < fields.len(),
    ensures
        #[trigger] encodable(fields[i].value),
    decreases fields,
{
    if i > 0 {
        lemma_instances_encodable_index(fields.drop_first(), i - 1);
    }
}


// ---------------------------------------------------------------------
// Executable serializers
// ---------------------------------------------------------------------
impl FieldValue {
    /// Appends this value's archive bytes to `out`.
    #[verifier::loop_isolation(false)]
    pub fn serialize_into(&self, out: &mut Vec<u8>)
        requires
            encodable(self@),
            old(out)@.len() + ser_value(self@).len() <= usize::MAX,
        ensures
            final(out)@ == old(out)@ + ser_value(self@),
        decreases self,
    {
        broadcast use lemma_values_encodable_index, lemma_value_views_index;

        match self {
            FieldValue::Int(x) => {
                push_u32_be(out, #[verifier::truncate] (*x as u32));
            },
            FieldValue::UInt(x) => {
                push_u32_be(out, *x);
            },
            FieldValue::Long(x) => {
                push_u64_be(out, #[verifier::truncate] (*x as u64));
            },
            FieldValue::ULong(x) => {
                push_u64_be(out, *x);
            },
            FieldValue::Float(x) => {
                push_u64_be(out, *x);
            },
            FieldValue::Bool(b) => {
                out.push(if *b {
                    1u8
                } else {
                    0u8
                });
                assert(out@ =~= old(out)@ + ser_value(self@));
            },
            FieldValue::DateTime(x) => {
                push_u64_be(out, #[verifier::truncate] (*x as u64));
            },
            FieldValue::String(s) => {
                let bs = s.as_str().as_bytes();
                let n = bs.len();
                push_u32_be(out, n as u32);
                extend_bytes(out, bs);
                assert(out@ =~= old(out)@ + ser_value(self@));
            },
            FieldValue::ByteArray(b) => {
                let n = b.len();
                push_u32_be(out, n as u32);
                extend_bytes(out, b.as_slice());
                assert(out@ =~= old(out)@ + ser_value(self@));
            },
            FieldValue::Array(vs) => {
                let ghost views = value_views(vs@);
                let mut payload: Vec<u8> = Vec::new();
                let n = vs.len();
                let mut k: usize = 0;
                proof {
                    lemma_value_views_len(vs@);
                    assert(views.take(0) =~= Seq::<SpecValue>::empty());
                    assert(payload@ =~= ser_values(views.take(0)));
                }
                while k < n
                    invariant
                        n == vs@.len(),
                        views == value_views(vs@),
                        views.len() == n,
                        values_encodable(views),
                        ser_values(views).len() < max_prefixed_len(),
                        0 <= k <= n,
                        payload@ == ser_values(views.take(k as int)),
                    decreases n - k,
                {
                    proof {
                        lemma_value_views_index(vs@, k as int);
                        lemma_values_encodable_index(views, k as int);
                        lemma_ser_values_split(views, k as int);
                        assert(views.skip(k as int)[0] == views[k as int]);
                        assert(ser_values(views.skip(k as int)) == ser_value(views[k as int])
                            + ser_values(views.skip(k as int).drop_first()));
                        assert(ser_values(views.take(k as int)).len() + ser_value(
                            views[k as int],
                        ).len() <= ser_values(views).len());
                    }
                    vs[k].serialize_into(&mut payload);
                    proof {
                        lemma_ser_values_take_succ(views, k as int);
                    }
                    k = k + 1;
                }
                proof {
                    assert(views.take(n as int) =~= views);
                }
                let m = payload.len();
                push_u32_be(out, m as u32);
                out.append(&mut payload);
                assert(out@ =~= old(out)@ + ser_value(self@));
            },
            FieldValue::Object(d) => {
                let mut payload: Vec<u8> = Vec::new();
                d.serialize_fields(&mut payload);
                let m = payload.len();
                push_u32_be(out, m as u32);
                out.append(&mut payload);
                assert(out@ =~= old(out)@ + ser_value(self@));
            },
            FieldValue::Enum(e) => {
                push_u16_be(out, e.case_id);
                match &e.associated_value {
                    Option::None => {
                        assert(out@ =~= old(out)@ + ser_value(self@));
                    },
                    Option::Some(av) => {
                        assert(enum_assoc_view(**e) == seq![value_view(*av)]);
                        av.serialize_into(out);
                        assert(out@ =~= old(out)@ + ser_value(self@));
                    },
                }
            },
        }
    }
}

/// Appends all of `bs` to `out`.
fn extend_bytes(out: &mut Vec<u8>, bs: &[u8])
    requires
        old(out)@.len() + bs@.len() <= usize::MAX,
    ensures
        final(out)@ == old(out)@ + bs@,
{
    let n = bs.len();
    let mut k: usize = 0;
    proof {
        assert(out@ =~= old(out)@ + bs@.take(0));
    }
    while k < n
        invariant
            n == bs@.len(),
            0 <= k <= n,
            out@ == old(out)@ + bs@.take(k as int),
        decreases n - k,
    {
        out.push(bs[k]);
        proof {
            assert((old(out)@ + bs@.take(k as int)).push(bs@[k as int]) =~= old(out)@ + bs@.take(
                k + 1,
            ));
        }
        k = k + 1;
    }
    proof {
        assert(bs@.take(n as int) =~= bs@);
    }
}

impl Document {
    /// The archive bytes of this document, with its schema-id prefix.
    pub fn serialize(&self) -> (r: Vec<u8>)
        requires
            doc_encodable(self@),
        ensures
            r@ == ser_document(self@),
    {
        let mut vector = Vec::<u8>::new();
        push_u64_be(&mut vector, self.schema.id);
        self.serialize_fields(&mut vector);
        proof {
            assert(vector@ =~= ser_document(self@));
        }
        vector
    }

    /// The archive bytes of this document without a schema-id prefix,
    /// as stored when the document is the value of an `Object` field.
    pub fn serialize_subdocument(&self) -> (r: Vec<u8>)
        requires
            instances_encodable(self@.fields),
            ser_instances(self@.fields).len() <= usize::MAX,
        ensures
            r@ == ser_instances(self@.fields),
    {
        let mut vector = Vec::<u8>::new();
        self.serialize_fields(&mut vector);
        proof {
            assert(vector@ =~= ser_instances(self@.fields));
        }
        vector
    }

    /// Appends the `[field id][value]` pairs of this document to
    /// `vector`.
    pub fn serialize_fields(&self, vector: &mut Vec<u8>)
        requires
            instances_encodable(self@.fields),
            old(vector)@.len() + ser_instances(self@.fields).len() <= usize::MAX,
        ensures
            final(vector)@ == old(vector)@ + ser_instances(self@.fields),
        decreases self,
    {
        let ghost views = instance_views(self.fields@);
        let n = self.fields.len();
        let mut k: usize = 0;
        proof {
            lemma_instance_views_len(self.fields@);
            assert(views.take(0) =~= Seq::<SpecFieldInstance>::empty());
            assert(vector@ =~= old(vector)@ + ser_instances(views.take(0)));
        }
        while k < n
            invariant
                n == self.fields@.len(),
                views == instance_views(self.fields@),
                views.len() == n,
                instances_encodable(views),
                old(vector)@.len() + ser_instances(views).len() <= usize::MAX,
                0 <= k <= n,
                vector@ == old(vector)@ + ser_instances(views.take(k as int)),
            decreases n - k,
        {
            proof {
                lemma_instance_views_index(self.fields@, k as int);
                lemma_instances_encodable_index(views, k as int);
                lemma_ser_instances_split(views, k as int);
                assert(views.skip(k as int)[0] == views[k as int]);
                assert(ser_instances(views.skip(k as int)) == spec_u16_be(views[k as int].id)
                    + ser_value(views[k as int].value) + ser_instances(
                    views.skip(k as int).drop_first(),
                ));
                assert(ser_instances(views.take(k as int)).len() + 2 + ser_value(
                    views[k as int].value,
                ).len() <= ser_instances(views).len());
            }
            push_u16_be(vector, self.fields[k].id);
            self.fields[k].value.serialize_into(vector);
            proof {
                lemma_ser_instances_take_succ(views, k as int);
                assert(vector@ =~= old(vector)@ + ser_instances(views.take(k + 1)));
            }
            k = k + 1;
        }
        proof {
            assert(views.take(n as int) =~= views);
        }
    }
}

} // verus!
