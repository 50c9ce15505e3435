//! The codec's round-trip laws.
//!
//! A document whose values conform to its schema decodes, from its own
//! serialization, back to itself — and decoding with a subset of the
//! field identifiers yields exactly the instances of that subset, with
//! the same values a full decode produces.
use crate::archive_parser::{
    spec_parse_elements, spec_parse_fields, spec_parse_value, spec_read_document, spec_skip_value,
    ParseError,
};
use crate::bytes::{
    lemma_i32_cast_round_trip, lemma_i64_cast_round_trip, lemma_u16_be_round_trip,
    lemma_u32_be_round_trip, lemma_u64_be_round_trip, spec_be_u16, spec_be_u32, spec_be_u64,
    spec_u16_be, spec_u32_be, spec_u64_be,
};
use crate::document_serialize::{
    encodable, instances_encodable, max_prefixed_len, ser_document, ser_instances, ser_value,
    ser_values, values_encodable,
};
use crate::schema::{
    case_wf, cases_wf, spec_find_case, spec_find_field, type_wf, SpecDocument,
    SpecEnumCase, SpecField, SpecFieldInstance, SpecFieldType, SpecValue,
};
use vstd::prelude::*;

verus! {

// ---------------------------------------------------------------------
// Conformance of a value to a type
// ---------------------------------------------------------------------
/// Whether `v` is an instance of `t`.
pub open spec fn value_matches_type(v: SpecValue, t: SpecFieldType) -> bool
    decreases v,
{
    match (v, t) {
        (SpecValue::Int(_), SpecFieldType::Int) => true,
        (SpecValue::UInt(_), SpecFieldType::UInt) => true,
        (SpecValue::Long(_), SpecFieldType::Long) => true,
        (SpecValue::ULong(_), SpecFieldType::ULong) => true,
        (SpecValue::Float(_), SpecFieldType::Float) => true,
        (SpecValue::Bool(_), SpecFieldType::Bool) => true,
        (SpecValue::DateTime(_), SpecFieldType::DateTime) => true,
        (SpecValue::String(_), SpecFieldType::String) => true,
        (SpecValue::ByteArray(_), SpecFieldType::ByteArray) => true,
        (SpecValue::Array(vs), SpecFieldType::Array(ts)) => ts.len() == 1 && values_match_type(
            vs,
            ts[0],
        ),
        (SpecValue::Object(d), SpecFieldType::Object(s)) => d.schema == s && doc_matches_schema(d),
        (SpecValue::Enum(case_id, av), SpecFieldType::Enum(cases)) => match spec_find_case(
            cases,
            case_id,
        ) {
            Option::None => false,
            Option::Some(c) => av.len() == c.associated_value.len() && (av.len() == 1
                ==> value_matches_type(av[0], c.associated_value[0])),
        },
        _ => false,
    }
}

pub open spec fn values_match_type(vs: Seq<SpecValue>, t: SpecFieldType) -> bool
    decreases vs,
{
    vs.len() == 0 || (value_matches_type(vs[0], t) && values_match_type(vs.drop_first(), t))
}

/// Whether every field instance of `d` conforms to a field definition
/// of its schema.
pub open spec fn doc_matches_schema(d: SpecDocument) -> bool
    decreases d,
{
    instances_match_fields(d.fields, d.schema.fields)
}

pub open spec fn instances_match_fields(
    instances: Seq<SpecFieldInstance>,
    fields: Seq<SpecField>,
) -> bool
    decreases instances,
{
    instances.len() == 0 || ((match spec_find_field(fields, instances[0].id) {
        Option::None => false,
        Option::Some(f) => value_matches_type(instances[0].value, f.field_type),
    }) && instances_match_fields(instances.drop_first(), fields))
}

/// The field instances whose identifiers are of interest, in order.
pub open spec fn filter_instances(
    instances: Seq<SpecFieldInstance>,
    interest: Seq<u16>,
) -> Seq<SpecFieldInstance>
    decreases instances,
{
    if instances.len() == 0 {
        seq![]
    } else {
        (if interest.contains(instances[0].id) {
            seq![instances[0]]
        } else {
            seq![]
        }) + filter_instances(instances.drop_first(), interest)
    }
}

// ---------------------------------------------------------------------
// Small facts about serialized sizes
// ---------------------------------------------------------------------
/// Every value occupies at least one byte.
pub proof fn lemma_ser_value_min_len(v: SpecValue)
    ensures
        ser_value(v).len() >= 1,
{
}

/// A prefix equation carries down to sub-ranges.
pub proof fn lemma_subrange_of_prefix(data: Seq<u8>, i: int, bytes: Seq<u8>, a: int, b: int)
    requires
        0 <= i,
        i + bytes.len() <= data.len(),
        data.subrange(i, i + bytes.len()) == bytes,
        i <= a <= b <= i + bytes.len(),
    ensures
        data.subrange(a, b) == bytes.subrange(a - i, b - i),
{
    assert forall|k: int| 0 <= k < b - a implies data.subrange(a, b)[k] == bytes.subrange(
        a - i,
        b - i,
    )[k] by {
        assert(data.subrange(i, i + bytes.len())[a - i + k] == bytes[a - i + k]);
    }
    assert(data.subrange(a, b) =~= bytes.subrange(a - i, b - i));
}

// ---------------------------------------------------------------------
// Round trip of a single value
// ---------------------------------------------------------------------
#[verifier::rlimit(100)]
pub proof fn lemma_parse_value_round_trip(t: SpecFieldType, v: SpecValue, data: Seq<u8>, i: int)
    requires
        type_wf(t),
        value_matches_type(v, t),
        encodable(v),
        0 <= i,
        i + ser_value(v).len() <= data.len(),
        data.subrange(i, i + ser_value(v).len()) == ser_value(v),
    ensures
        spec_parse_value(t, data, i) is Ok,
        spec_parse_value(t, data, i)->Ok_0.0 == v,
        spec_parse_value(t, data, i)->Ok_0.1 == i + ser_value(v).len(),
    decreases v,
{
    broadcast use lemma_u16_be_round_trip, lemma_u32_be_round_trip, lemma_u64_be_round_trip,
        lemma_i32_cast_round_trip, lemma_i64_cast_round_trip;

    let bytes = ser_value(v);
    let n = bytes.len() as int;
    match v {
        SpecValue::Int(x) => {
            assert(data.subrange(i, i + 4) =~= spec_u32_be(x as u32));
            assert(spec_be_u32(data.subrange(i, i + 4)) == (x as u32));
            assert(((x as u32) as i32) == x);
        },
        SpecValue::UInt(x) => {
            assert(data.subrange(i, i + 4) =~= spec_u32_be(x));
        },
        SpecValue::Long(x) => {
            assert(data.subrange(i, i + 8) =~= spec_u64_be(x as u64));
            assert(spec_be_u64(data.subrange(i, i + 8)) == (x as u64));
            assert(((x as u64) as i64) == x);
        },
        SpecValue::ULong(x) => {
            assert(data.subrange(i, i + 8) =~= spec_u64_be(x));
        },
        SpecValue::Float(x) => {
            assert(data.subrange(i, i + 8) =~= spec_u64_be(x));
        },
        SpecValue::Bool(b) => {
            assert(data[i] == bytes[0]);
        },
        SpecValue::DateTime(x) => {
            assert(data.subrange(i, i + 8) =~= spec_u64_be(x as u64));
            assert(spec_be_u64(data.subrange(i, i + 8)) == (x as u64));
            assert(((x as u64) as i64) == x);
        },
        SpecValue::String(cs) => {
            let payload = vstd::utf8::encode_utf8(cs);
            let m = payload.len() as int;
            lemma_subrange_of_prefix(data, i, bytes, i, i + 4);
            assert(bytes.subrange(0, 4) =~= spec_u32_be(m as u32));
            assert(spec_be_u32(data.subrange(i, i + 4)) == m as u32);
            lemma_subrange_of_prefix(data, i, bytes, i + 4, i + 4 + m);
            assert(bytes.subrange(4, 4 + m) =~= payload);
            vstd::utf8::encode_utf8_valid_utf8(cs);
            vstd::utf8::encode_utf8_decode_utf8(cs);
        },
        SpecValue::ByteArray(bs) => {
            let m = bs.len() as int;
            lemma_subrange_of_prefix(data, i, bytes, i, i + 4);
            assert(bytes.subrange(0, 4) =~= spec_u32_be(m as u32));
            assert(spec_be_u32(data.subrange(i, i + 4)) == m as u32);
            lemma_subrange_of_prefix(data, i, bytes, i + 4, i + 4 + m);
            assert(bytes.subrange(4, 4 + m) =~= bs);
        },
        SpecValue::Array(vs) => {
            let ts = t->Array_0;
            let payload = ser_values(vs);
            let m = payload.len() as int;
            lemma_subrange_of_prefix(data, i, bytes, i, i + 4);
            assert(bytes.subrange(0, 4) =~= spec_u32_be(m as u32));
            assert(spec_be_u32(data.subrange(i, i + 4)) == m as u32);
            lemma_subrange_of_prefix(data, i, bytes, i + 4, i + 4 + m);
            assert(bytes.subrange(4, 4 + m) =~= payload);
            lemma_parse_elements_round_trip(ts[0], vs, data, i + 4);
        },
        SpecValue::Object(d) => {
            let payload = ser_instances(d.fields);
            let m = payload.len() as int;
            lemma_subrange_of_prefix(data, i, bytes, i, i + 4);
            assert(bytes.subrange(0, 4) =~= spec_u32_be(m as u32));
            assert(spec_be_u32(data.subrange(i, i + 4)) == m as u32);
            lemma_subrange_of_prefix(data, i, bytes, i + 4, i + 4 + m);
            let sub = data.subrange(i + 4, i + 4 + m);
            assert(sub =~= payload);
            assert(sub.subrange(0, sub.len() as int) =~= sub);
            let s = t->Object_0;
            assert(crate::schema::schema_wf(s));
            assert(crate::schema::fields_wf(d.schema.fields));
            assert(doc_matches_schema(d));
            assert(instances_match_fields(d.fields, d.schema.fields));
            lemma_parse_fields_round_trip(
                d.schema.fields,
                crate::archive_parser::field_ids(d.schema.fields),
                d.fields,
                sub,
                0,
            );
            lemma_matching_filter_all(d.fields, d.schema.fields);
        },
        SpecValue::Enum(case_id, av) => {
            let cases = t->Enum_0;
            lemma_subrange_of_prefix(data, i, bytes, i, i + 2);
            assert(bytes.subrange(0, 2) =~= spec_u16_be(case_id));
            assert(spec_be_u16(data.subrange(i, i + 2)) == case_id);
            let c = spec_find_case(cases, case_id)->Some_0;
            lemma_find_case_type_wf(cases, case_id);
            assert(c.associated_value.len() <= 1);
            if av.len() == 1 {
                lemma_subrange_of_prefix(data, i, bytes, i + 2, i + 2 + ser_value(av[0]).len());
                assert(bytes.subrange(2, 2 + ser_value(av[0]).len() as int) =~= ser_value(av[0]));
                lemma_parse_value_round_trip(c.associated_value[0], av[0], data, i + 2);
                assert(seq![av[0]] =~= av);
            } else {
                assert(av.len() == 0);
                assert(av =~= Seq::<SpecValue>::empty());
            }        },
    }
}

/// A found enum case of a well-formed type is itself well-formed.
pub proof fn lemma_find_case_type_wf(cases: Seq<SpecEnumCase>, id: u16)
    requires
        cases_wf(cases),
        spec_find_case(cases, id) is Some,
    ensures
        case_wf(spec_find_case(cases, id)->Some_0),
    decreases cases,
{
    if cases.len() > 0 && cases[0].id != id {
        lemma_find_case_type_wf(cases.drop_first(), id);
    }
}

/// A found field of a well-formed schema has a well-formed type.
pub proof fn lemma_find_field_type_wf(fields: Seq<SpecField>, id: u16)
    requires
        crate::schema::fields_wf(fields),
        spec_find_field(fields, id) is Some,
    ensures
        type_wf(spec_find_field(fields, id)->Some_0.field_type),
    decreases fields,
{
    if fields.len() > 0 && fields[0].id != id {
        lemma_find_field_type_wf(fields.drop_first(), id);
    }
}

/// A found identifier is among the schema's field identifiers.
pub proof fn lemma_find_field_in_ids(fields: Seq<SpecField>, id: u16)
    requires
        spec_find_field(fields, id) is Some,
    ensures
        crate::archive_parser::field_ids(fields).contains(id),
    decreases fields,
{
    if fields.len() > 0 {
        if fields[0].id == id {
            assert(crate::archive_parser::field_ids(fields)[0] == id);
        } else {
            lemma_find_field_in_ids(fields.drop_first(), id);
            let k = choose|k: int|
                0 <= k < crate::archive_parser::field_ids(fields.drop_first()).len()
                    && crate::archive_parser::field_ids(fields.drop_first())[k] == id;
            assert(crate::archive_parser::field_ids(fields)[k + 1] == id);
        }
    }
}

/// Filtering by all of the schema's field identifiers keeps every
/// conforming instance.
pub proof fn lemma_matching_filter_all(
    instances: Seq<SpecFieldInstance>,
    fields: Seq<SpecField>,
)
    requires
        instances_match_fields(instances, fields),
    ensures
        filter_instances(instances, crate::archive_parser::field_ids(fields)) == instances,
    decreases instances,
{
    if instances.len() > 0 {
        lemma_find_field_in_ids(fields, instances[0].id);
        lemma_matching_filter_all(instances.drop_first(), fields);
        assert(seq![instances[0]] + instances.drop_first() =~= instances);
    }
}

// ---------------------------------------------------------------------
// Round trip of the skip pass
// ---------------------------------------------------------------------
pub proof fn lemma_skip_value_round_trip(t: SpecFieldType, v: SpecValue, data: Seq<u8>, i: int)
    requires
        type_wf(t),
        value_matches_type(v, t),
        encodable(v),
        0 <= i,
        i + ser_value(v).len() <= data.len(),
        data.subrange(i, i + ser_value(v).len()) == ser_value(v),
    ensures
        spec_skip_value(t, data, i) == Ok::<int, ParseError>(i + ser_value(v).len()),
    decreases v,
{
    broadcast use lemma_u16_be_round_trip, lemma_u32_be_round_trip, lemma_u64_be_round_trip;

    let bytes = ser_value(v);
    match v {
        SpecValue::String(cs) => {
            let m = vstd::utf8::encode_utf8(cs).len() as int;
            lemma_subrange_of_prefix(data, i, bytes, i, i + 4);
            assert(bytes.subrange(0, 4) =~= spec_u32_be(m as u32));
            assert(spec_be_u32(data.subrange(i, i + 4)) == m as u32);
        },
        SpecValue::ByteArray(bs) => {
            let m = bs.len() as int;
            lemma_subrange_of_prefix(data, i, bytes, i, i + 4);
            assert(bytes.subrange(0, 4) =~= spec_u32_be(m as u32));
            assert(spec_be_u32(data.subrange(i, i + 4)) == m as u32);
        },
        SpecValue::Array(vs) => {
            let m = ser_values(vs).len() as int;
            lemma_subrange_of_prefix(data, i, bytes, i, i + 4);
            assert(bytes.subrange(0, 4) =~= spec_u32_be(m as u32));
            assert(spec_be_u32(data.subrange(i, i + 4)) == m as u32);
        },
        SpecValue::Object(d) => {
            let m = ser_instances(d.fields).len() as int;
            lemma_subrange_of_prefix(data, i, bytes, i, i + 4);
            assert(bytes.subrange(0, 4) =~= spec_u32_be(m as u32));
            assert(spec_be_u32(data.subrange(i, i + 4)) == m as u32);
        },
        SpecValue::Enum(case_id, av) => {
            let cases = t->Enum_0;
            lemma_subrange_of_prefix(data, i, bytes, i, i + 2);
            assert(bytes.subrange(0, 2) =~= spec_u16_be(case_id));
            assert(spec_be_u16(data.subrange(i, i + 2)) == case_id);
            let c = spec_find_case(cases, case_id)->Some_0;
            if av.len() == 1 {
                lemma_subrange_of_prefix(data, i, bytes, i + 2, i + 2 + ser_value(av[0]).len());
                assert(bytes.subrange(2, 2 + ser_value(av[0]).len() as int) =~= ser_value(av[0]));
                lemma_find_case_type_wf(cases, case_id);
                lemma_skip_value_round_trip(c.associated_value[0], av[0], data, i + 2);
            }
        },
        _ => {},
    }
}

// ---------------------------------------------------------------------
// Round trip of element lists and field lists
// ---------------------------------------------------------------------
pub proof fn lemma_parse_elements_round_trip(
    et: SpecFieldType,
    vs: Seq<SpecValue>,
    data: Seq<u8>,
    cur: int,
)
    requires
        type_wf(et),
        values_match_type(vs, et),
        values_encodable(vs),
        0 <= cur,
        cur + ser_values(vs).len() <= data.len(),
        data.subrange(cur, cur + ser_values(vs).len()) == ser_values(vs),
    ensures
        spec_parse_elements(et, data, cur, cur + ser_values(vs).len()) == Ok::<_, ParseError>(
            (vs, cur + ser_values(vs).len()),
        ),
    decreases vs,
{
    let bytes = ser_values(vs);
    let end = cur + bytes.len();
    if vs.len() == 0 {
        assert(spec_parse_elements(et, data, cur, end) == Ok::<_, ParseError>((
            Seq::<SpecValue>::empty(),
            cur,
        )));
        assert(vs =~= Seq::<SpecValue>::empty());
    } else {
        let v0 = vs[0];
        let b0 = ser_value(v0);
        let rest = ser_values(vs.drop_first());
        assert(bytes == b0 + rest);
        lemma_subrange_of_prefix(data, cur, bytes, cur, cur + b0.len());
        assert(bytes.subrange(0, b0.len() as int) =~= b0);
        lemma_parse_value_round_trip(et, v0, data, cur);
        lemma_ser_value_min_len(v0);
        lemma_subrange_of_prefix(data, cur, bytes, cur + b0.len(), end);
        assert(bytes.subrange(b0.len() as int, bytes.len() as int) =~= rest);
        lemma_parse_elements_round_trip(et, vs.drop_first(), data, cur + b0.len());
        assert(seq![v0] + vs.drop_first() =~= vs);
    }
}

pub proof fn lemma_parse_fields_round_trip(
    fields: Seq<SpecField>,
    interest: Seq<u16>,
    instances: Seq<SpecFieldInstance>,
    data: Seq<u8>,
    cur: int,
)
    requires
        crate::schema::fields_wf(fields),
        instances_match_fields(instances, fields),
        instances_encodable(instances),
        0 <= cur,
        data.len() == cur + ser_instances(instances).len(),
        data.subrange(cur, data.len() as int) == ser_instances(instances),
    ensures
        spec_parse_fields(fields, interest, data, cur) == Ok::<_, ParseError>(
            (filter_instances(instances, interest), data.len() as int),
        ),
    decreases instances,
{
    broadcast use lemma_u16_be_round_trip;

    let bytes = ser_instances(instances);
    if instances.len() == 0 {
        assert(filter_instances(instances, interest) =~= Seq::<SpecFieldInstance>::empty());
    } else {
        let inst = instances[0];
        let vb = ser_value(inst.value);
        let rest = ser_instances(instances.drop_first());
        assert(bytes == spec_u16_be(inst.id) + vb + rest);
        lemma_ser_value_min_len(inst.value);
        lemma_subrange_of_prefix(data, cur, bytes, cur, cur + 2);
        assert(bytes.subrange(0, 2) =~= spec_u16_be(inst.id));
        assert(spec_be_u16(data.subrange(cur, cur + 2)) == inst.id);
        let f = spec_find_field(fields, inst.id)->Some_0;
        lemma_find_field_type_wf(fields, inst.id);
        lemma_subrange_of_prefix(data, cur, bytes, cur + 2, cur + 2 + vb.len());
        assert(bytes.subrange(2, 2 + vb.len() as int) =~= vb);
        let nc = cur + 2 + vb.len();
        lemma_subrange_of_prefix(data, cur, bytes, nc, data.len() as int);
        assert(bytes.subrange(2 + vb.len() as int, bytes.len() as int) =~= rest);
        lemma_parse_fields_round_trip(fields, interest, instances.drop_first(), data, nc);
        if interest.contains(inst.id) {
            lemma_parse_value_round_trip(f.field_type, inst.value, data, cur + 2);
            assert(seq![inst] + filter_instances(instances.drop_first(), interest)
                =~= filter_instances(instances, interest));
        } else {
            lemma_skip_value_round_trip(f.field_type, inst.value, data, cur + 2);
            assert(filter_instances(instances.drop_first(), interest) =~= filter_instances(
                instances,
                interest,
            ));
        }
    }
}

// ---------------------------------------------------------------------
// The laws
// ---------------------------------------------------------------------
/// Selective decode: decoding a document's own serialization with any
/// set of field identifiers of interest succeeds and yields exactly
/// the instances whose identifiers are of interest, in order, each
/// with the very value that was encoded.
pub proof fn lemma_selective_decode(doc: SpecDocument, interest: Seq<u16>)
    requires
        crate::schema::schema_wf(doc.schema),
        doc_matches_schema(doc),
        instances_encodable(doc.fields),
    ensures
        spec_read_document(doc.schema, interest, ser_document(doc)) == Ok::<_, ParseError>(
            SpecDocument { schema: doc.schema, fields: filter_instances(doc.fields, interest) },
        ),
{
    broadcast use lemma_u64_be_round_trip;

    let data = ser_document(doc);
    assert(data == spec_u64_be(doc.schema.id) + ser_instances(doc.fields));
    assert(data.subrange(0, 8) =~= spec_u64_be(doc.schema.id));
    assert(spec_be_u64(data.subrange(0, 8)) == doc.schema.id);
    assert(data.subrange(8, data.len() as int) =~= ser_instances(doc.fields));
    lemma_parse_fields_round_trip(doc.schema.fields, interest, doc.fields, data, 8);
}

/// Codec round trip: when every field identifier of the document is of
/// interest, decoding its own serialization returns the document
/// itself.
pub proof fn lemma_codec_round_trip(doc: SpecDocument, interest: Seq<u16>)
    requires
        crate::schema::schema_wf(doc.schema),
        doc_matches_schema(doc),
        instances_encodable(doc.fields),
        forall|i: int| 0 <= i < doc.fields.len() ==> interest.contains(#[trigger] doc.fields[i].id),
    ensures
        spec_read_document(doc.schema, interest, ser_document(doc)) == Ok::<_, ParseError>(doc),
{
    lemma_selective_decode(doc, interest);
    lemma_filter_all(doc.fields, interest);
    assert(SpecDocument { schema: doc.schema, fields: filter_instances(doc.fields, interest) }
        =~= doc);
}

/// Filtering keeps everything when every identifier is of interest.
pub proof fn lemma_filter_all(instances: Seq<SpecFieldInstance>, interest: Seq<u16>)
    requires
        forall|i: int|
            0 <= i < instances.len() ==> interest.contains(#[trigger] instances[i].id),
    ensures
        filter_instances(instances, interest) == instances,
    decreases instances,
{
    if instances.len() > 0 {
        assert(instances[0].id == instances[0].id);
        lemma_filter_all(instances.drop_first(), interest);
        assert(forall|i: int|
            0 <= i < instances.drop_first().len() ==> instances.drop_first()[i] == instances[i
                + 1]);
        assert(seq![instances[0]] + instances.drop_first() =~= instances);
    }
}

} // verus!
