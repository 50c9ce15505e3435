//! Decoding of the archive binary serialization format.
//!
//! `spec_parse_value` and friends are a total mathematical decoder for
//! the format produced by `ser_value`; the executable `ArchiveParser`
//! is proved to return exactly what they describe. A field whose
//! identifier is not among the fields of interest is skipped: the
//! cursor advances over its bytes (`spec_skip_value`) and no value is
//! materialized.
use crate::bytes::{read_u16_be, read_u32_be, read_u64_be, spec_be_u16, spec_be_u32, spec_be_u64};
use crate::schema::{
    case_view, doc_view, enum_assoc_view, find_case, instance_view, instance_views,
    lemma_field_views_index, lemma_field_views_len, lemma_instance_views_push,
    lemma_value_views_push, spec_find_case, spec_find_field, type_view, value_view, value_views,
    Document, EnumCase, EnumValue, Field, FieldInstance, FieldType, FieldValue, Schema, SpecDocument,
    SpecEnumCase, SpecField, SpecFieldInstance, SpecFieldType, SpecSchema, SpecValue,
};
use vstd::prelude::*;

verus! {

/// An error raised while decoding archive bytes.
///
/// Always recoverable per operation, never fatal to the engine.
#[derive(Clone, Copy, Debug, PartialEq, Eq, Structural)]
pub enum ParseError {
    /// The leading schema identifier disagrees with the expected
    /// schema.
    SchemaMismatch,
    /// A field identifier in the byte stream is absent from the
    /// schema.
    UnknownFieldIdentifier,
    /// An enum case identifier in the byte stream is absent from the
    /// case list of its field's type.
    UnknownCaseIdentifier,
    /// The bytes of a `String` value are not valid UTF-8.
    InvalidString,
    /// The buffer ends in the middle of a value.
    UnexpectedEnd,
}

// ---------------------------------------------------------------------
// Heights, for termination of the mutually recursive decoders
// ---------------------------------------------------------------------
pub open spec fn type_height(t: SpecFieldType) -> nat
    decreases t,
{
    match t {
        SpecFieldType::Array(ts) => 1 + types_height(ts),
        SpecFieldType::Object(s) => 1 + schema_fields_height(s.fields),
        SpecFieldType::Enum(cases) => 1 + cases_height(cases),
        _ => 1,
    }
}

pub open spec fn types_height(ts: Seq<SpecFieldType>) -> nat
    decreases ts,
{
    if ts.len() == 0 {
        0
    } else if type_height(ts[0]) > types_height(ts.drop_first()) {
        type_height(ts[0])
    } else {
        types_height(ts.drop_first())
    }
}

pub open spec fn cases_height(cases: Seq<SpecEnumCase>) -> nat
    decreases cases,
{
    if cases.len() == 0 {
        0
    } else if types_height(cases[0].associated_value) > cases_height(cases.drop_first()) {
        types_height(cases[0].associated_value)
    } else {
        cases_height(cases.drop_first())
    }
}

pub open spec fn schema_fields_height(fields: Seq<SpecField>) -> nat
    decreases fields,
{
    if fields.len() == 0 {
        0
    } else if type_height(fields[0].field_type) > schema_fields_height(fields.drop_first()) {
        type_height(fields[0].field_type)
    } else {
        schema_fields_height(fields.drop_first())
    }
}

pub proof fn lemma_types_height_index(ts: Seq<SpecFieldType>, i: int)
    requires
        0 <= i < ts.len(),
    ensures
        type_height(ts[i]) <= types_height(ts),
    decreases ts,
{
    if i > 0 {
        lemma_types_height_index(ts.drop_first(), i - 1);
    }
}

pub proof fn lemma_find_field_height(fields: Seq<SpecField>, id: u16)
    requires
        spec_find_field(fields, id) is Some,
    ensures
        type_height(spec_find_field(fields, id)->Some_0.field_type) <= schema_fields_height(
            fields,
        ),
    decreases fields,
{
    if fields.len() > 0 && fields[0].id != id {
        lemma_find_field_height(fields.drop_first(), id);
    }
}

pub proof fn lemma_find_case_height(cases: Seq<SpecEnumCase>, id: u16)
    requires
        spec_find_case(cases, id) is Some,
    ensures
        types_height(spec_find_case(cases, id)->Some_0.associated_value) <= cases_height(cases),
    decreases cases,
{
    if cases.len() > 0 && cases[0].id != id {
        lemma_find_case_height(cases.drop_first(), id);
    }
}

// ---------------------------------------------------------------------
// The mathematical decoder
// ---------------------------------------------------------------------
/// `max(end - cur, 0)`: the bytes still ahead of the cursor.
pub open spec fn remaining(end: int, cur: int) -> int {
    if end >= cur {
        end - cur
    } else {
        0
    }
}

/// The field identifiers of a schema's field list, in order: the
/// fields of interest of a nested document are all of its schema's
/// fields.
pub open spec fn field_ids(fields: Seq<SpecField>) -> Seq<u16>
    decreases fields,
{
    if fields.len() == 0 {
        seq![]
    } else {
        seq![fields[0].id] + field_ids(fields.drop_first())
    }
}

/// Decodes one value of type `t` at offset `i` of `data`.
///
/// Returns the value and the offset just past its bytes.
pub open spec fn spec_parse_value(t: SpecFieldType, data: Seq<u8>, i: int) -> Result<
    (SpecValue, int),
    ParseError,
>
    decreases type_height(t), 0int, 0int,
        via check_parse_value_decreases
{
    match t {
        SpecFieldType::Int => if i + 4 <= data.len() {
            Ok((SpecValue::Int(spec_be_u32(data.subrange(i, i + 4)) as i32), i + 4))
        } else {
            Err(ParseError::UnexpectedEnd)
        },
        SpecFieldType::UInt => if i + 4 <= data.len() {
            Ok((SpecValue::UInt(spec_be_u32(data.subrange(i, i + 4))), i + 4))
        } else {
            Err(ParseError::UnexpectedEnd)
        },
        SpecFieldType::Long => if i + 8 <= data.len() {
            Ok((SpecValue::Long(spec_be_u64(data.subrange(i, i + 8)) as i64), i + 8))
        } else {
            Err(ParseError::UnexpectedEnd)
        },
        SpecFieldType::ULong => if i + 8 <= data.len() {
            Ok((SpecValue::ULong(spec_be_u64(data.subrange(i, i + 8))), i + 8))
        } else {
            Err(ParseError::UnexpectedEnd)
        },
        SpecFieldType::Float => if i + 8 <= data.len() {
            Ok((SpecValue::Float(spec_be_u64(data.subrange(i, i + 8))), i + 8))
        } else {
            Err(ParseError::UnexpectedEnd)
        },
        SpecFieldType::Bool => if i + 1 <= data.len() {
            Ok((SpecValue::Bool(data[i] != 0), i + 1))
        } else {
            Err(ParseError::UnexpectedEnd)
        },
        SpecFieldType::DateTime => if i + 8 <= data.len() {
            Ok((SpecValue::DateTime(spec_be_u64(data.subrange(i, i + 8)) as i64), i + 8))
        } else {
            Err(ParseError::UnexpectedEnd)
        },
        SpecFieldType::String => if i + 4 <= data.len() {
            let n = spec_be_u32(data.subrange(i, i + 4)) as int;
            if n <= data.len() - (i + 4) {
                let bs = data.subrange(i + 4, i + 4 + n);
                if vstd::utf8::valid_utf8(bs) {
                    Ok((SpecValue::String(vstd::utf8::decode_utf8(bs)), i + 4 + n))
                } else {
                    Err(ParseError::InvalidString)
                }
            } else {
                Err(ParseError::UnexpectedEnd)
            }
        } else {
            Err(ParseError::UnexpectedEnd)
        },
        SpecFieldType::ByteArray => if i + 4 <= data.len() {
            let n = spec_be_u32(data.subrange(i, i + 4)) as int;
            if n <= data.len() - (i + 4) {
                Ok((SpecValue::ByteArray(data.subrange(i + 4, i + 4 + n)), i + 4 + n))
            } else {
                Err(ParseError::UnexpectedEnd)
            }
        } else {
            Err(ParseError::UnexpectedEnd)
        },
        SpecFieldType::Array(ts) => if ts.len() != 1 {
            Err(ParseError::UnexpectedEnd)
        } else if i + 4 <= data.len() {
            let n = spec_be_u32(data.subrange(i, i + 4)) as int;
            if n <= data.len() - (i + 4) {
                match spec_parse_elements(ts[0], data, i + 4, i + 4 + n) {
                    Ok((vs, nc)) => Ok((SpecValue::Array(vs), nc)),
                    Err(e) => Err(e),
                }
            } else {
                Err(ParseError::UnexpectedEnd)
            }
        } else {
            Err(ParseError::UnexpectedEnd)
        },
        SpecFieldType::Object(s) => if i + 4 <= data.len() {
            let n = spec_be_u32(data.subrange(i, i + 4)) as int;
            if n <= data.len() - (i + 4) {
                let bs = data.subrange(i + 4, i + 4 + n);
                match spec_parse_fields(s.fields, field_ids(s.fields), bs, 0) {
                    Ok((fields, _)) => Ok(
                        (SpecValue::Object(SpecDocument { schema: s, fields }), i + 4
                            + n),
                    ),
                    Err(e) => Err(e),
                }
            } else {
                Err(ParseError::UnexpectedEnd)
            }
        } else {
            Err(ParseError::UnexpectedEnd)
        },
        SpecFieldType::Enum(cases) => if i + 2 <= data.len() {
            let case_id = spec_be_u16(data.subrange(i, i + 2));
            match spec_find_case(cases, case_id) {
                Option::None => Err(ParseError::UnknownCaseIdentifier),
                Option::Some(c) => if c.associated_value.len() == 1 {
                    match spec_parse_value(c.associated_value[0], data, i + 2) {
                        Ok((v, nc)) => Ok((SpecValue::Enum(case_id, seq![v]), nc)),
                        Err(e) => Err(e),
                    }
                } else {
                    Ok((SpecValue::Enum(case_id, seq![]), i + 2))
                },
            }
        } else {
            Err(ParseError::UnexpectedEnd)
        },
    }
}

#[via_fn]
proof fn check_parse_value_decreases(t: SpecFieldType, data: Seq<u8>, i: int) {
    match t {
        SpecFieldType::Array(ts) => {
            if ts.len() == 1 {
                lemma_types_height_index(ts, 0);
            }
        },
        SpecFieldType::Enum(cases) => {
            if i + 2 <= data.len() {
                let case_id = spec_be_u16(data.subrange(i, i + 2));
                if spec_find_case(cases, case_id) is Some {
                    lemma_find_case_height(cases, case_id);
                    let c = spec_find_case(cases, case_id)->Some_0;
                    if c.associated_value.len() == 1 {
                        lemma_types_height_index(c.associated_value, 0);
                    }
                }
            }
        },
        _ => {},
    }
}

/// Decodes elements of type `et` back to back, starting at `cur`,
/// until the cursor reaches `end` (the declared end of the array
/// payload).
pub open spec fn spec_parse_elements(et: SpecFieldType, data: Seq<u8>, cur: int, end: int) -> Result<
    (Seq<SpecValue>, int),
    ParseError,
>
    decreases type_height(et), remaining(end, cur), 1int,
{
    if cur >= end {
        Ok((seq![], cur))
    } else {
        match spec_parse_value(et, data, cur) {
            Err(e) => Err(e),
            Ok((v, nc)) => if nc <= cur {
                Err(ParseError::UnexpectedEnd)
            } else {
                match spec_parse_elements(et, data, nc, end) {
                    Err(e) => Err(e),
                    Ok((rest, fin)) => Ok((seq![v] + rest, fin)),
                }
            },
        }
    }
}

/// Decodes `[field id][value]` pairs from `cur` to the end of `data`,
/// materializing only the fields of interest.
pub open spec fn spec_parse_fields(
    fields: Seq<SpecField>,
    interest: Seq<u16>,
    data: Seq<u8>,
    cur: int,
) -> Result<(Seq<SpecFieldInstance>, int), ParseError>
    decreases schema_fields_height(fields), remaining(data.len() as int, cur), 1int,
        via check_parse_fields_decreases
{
    if cur >= data.len() {
        Ok((seq![], cur))
    } else if cur + 2 > data.len() {
        Err(ParseError::UnexpectedEnd)
    } else {
        let fid = spec_be_u16(data.subrange(cur, cur + 2));
        match spec_find_field(fields, fid) {
            Option::None => Err(ParseError::UnknownFieldIdentifier),
            Option::Some(f) => if interest.contains(fid) {
                match spec_parse_value(f.field_type, data, cur + 2) {
                    Err(e) => Err(e),
                    Ok((v, nc)) => if nc <= cur {
                        Err(ParseError::UnexpectedEnd)
                    } else {
                        match spec_parse_fields(fields, interest, data, nc) {
                            Err(e) => Err(e),
                            Ok((rest, fin)) => Ok(
                                (seq![SpecFieldInstance { id: fid, value: v }] + rest, fin),
                            ),
                        }
                    },
                }
            } else {
                match spec_skip_value(f.field_type, data, cur + 2) {
                    Err(e) => Err(e),
                    Ok(nc) => if nc <= cur {
                        Err(ParseError::UnexpectedEnd)
                    } else {
                        spec_parse_fields(fields, interest, data, nc)
                    },
                }
            },
        }
    }
}

#[via_fn]
proof fn check_parse_fields_decreases(
    fields: Seq<SpecField>,
    interest: Seq<u16>,
    data: Seq<u8>,
    cur: int,
) {
    if cur < data.len() && cur + 2 <= data.len() {
        let fid = spec_be_u16(data.subrange(cur, cur + 2));
        if spec_find_field(fields, fid) is Some {
            lemma_find_field_height(fields, fid);
        }
    }
}

/// Advances the cursor over one value of type `t` without
/// materializing it.
pub open spec fn spec_skip_value(t: SpecFieldType, data: Seq<u8>, i: int) -> Result<
    int,
    ParseError,
>
    decreases type_height(t),
        via check_skip_value_decreases
{
    match t {
        SpecFieldType::Int | SpecFieldType::UInt => if i + 4 <= data.len() {
            Ok(i + 4)
        } else {
            Err(ParseError::UnexpectedEnd)
        },
        SpecFieldType::Long | SpecFieldType::ULong | SpecFieldType::Float
            | SpecFieldType::DateTime => if i + 8 <= data.len() {
            Ok(i + 8)
        } else {
            Err(ParseError::UnexpectedEnd)
        },
        SpecFieldType::Bool => if i + 1 <= data.len() {
            Ok(i + 1)
        } else {
            Err(ParseError::UnexpectedEnd)
        },
        SpecFieldType::String | SpecFieldType::ByteArray | SpecFieldType::Array(_)
            | SpecFieldType::Object(_) => if i + 4 <= data.len() {
            let n = spec_be_u32(data.subrange(i, i + 4)) as int;
            if n <= data.len() - (i + 4) {
                Ok(i + 4 + n)
            } else {
                Err(ParseError::UnexpectedEnd)
            }
        } else {
            Err(ParseError::UnexpectedEnd)
        },
        SpecFieldType::Enum(cases) => if i + 2 <= data.len() {
            let case_id = spec_be_u16(data.subrange(i, i + 2));
            match spec_find_case(cases, case_id) {
                Option::None => Err(ParseError::UnknownCaseIdentifier),
                Option::Some(c) => if c.associated_value.len() == 1 {
                    spec_skip_value(c.associated_value[0], data, i + 2)
                } else {
                    Ok(i + 2)
                },
            }
        } else {
            Err(ParseError::UnexpectedEnd)
        },
    }
}

#[via_fn]
proof fn check_skip_value_decreases(t: SpecFieldType, data: Seq<u8>, i: int) {
    match t {
        SpecFieldType::Enum(cases) => {
            if i + 2 <= data.len() {
                let case_id = spec_be_u16(data.subrange(i, i + 2));
                if spec_find_case(cases, case_id) is Some {
                    lemma_find_case_height(cases, case_id);
                    let c = spec_find_case(cases, case_id)->Some_0;
                    if c.associated_value.len() == 1 {
                        lemma_types_height_index(c.associated_value, 0);
                    }
                }
            }
        },
        _ => {},
    }
}

/// Decodes a whole document: checks the schema-id prefix against the
/// expected schema, then decodes the field pairs to the end of the
/// buffer.
pub open spec fn spec_read_document(
    schema: SpecSchema,
    interest: Seq<u16>,
    data: Seq<u8>,
) -> Result<SpecDocument, ParseError> {
    if data.len() < 8 {
        Err(ParseError::UnexpectedEnd)
    } else if spec_be_u64(data.subrange(0, 8)) != schema.id {
        Err(ParseError::SchemaMismatch)
    } else {
        match spec_parse_fields(schema.fields, interest, data, 8) {
            Err(e) => Err(e),
            Ok((fields, _)) => Ok(SpecDocument { schema, fields }),
        }
    }
}

// ---------------------------------------------------------------------
// The decoder's cursor always lands inside the buffer
// ---------------------------------------------------------------------
pub proof fn lemma_parse_value_advances(t: SpecFieldType, data: Seq<u8>, i: int)
    requires
        0 <= i,
    ensures
        spec_parse_value(t, data, i) matches Ok((v, nc)) ==> i < nc <= data.len(),
    decreases type_height(t), 0int, 0int,
{
    match t {
        SpecFieldType::Array(ts) => {
            if ts.len() == 1 && i + 4 <= data.len() {
                let n = spec_be_u32(data.subrange(i, i + 4)) as int;
                if n <= data.len() - (i + 4) {
                    lemma_types_height_index(ts, 0);
                    lemma_parse_elements_advances(ts[0], data, i + 4, i + 4 + n);
                }
            }
        },
        SpecFieldType::Enum(cases) => {
            if i + 2 <= data.len() {
                let case_id = spec_be_u16(data.subrange(i, i + 2));
                if spec_find_case(cases, case_id) is Some {
                    let c = spec_find_case(cases, case_id)->Some_0;
                    if c.associated_value.len() == 1 {
                        lemma_find_case_height(cases, case_id);
                        lemma_types_height_index(c.associated_value, 0);
                        lemma_parse_value_advances(c.associated_value[0], data, i + 2);
                    }
                }
            }
        },
        _ => {},
    }
}

pub proof fn lemma_parse_elements_advances(et: SpecFieldType, data: Seq<u8>, cur: int, end: int)
    requires
        0 <= cur <= data.len(),
        end <= data.len(),
    ensures
        spec_parse_elements(et, data, cur, end) matches Ok((vs, fin)) ==> cur <= fin <= data.len(),
    decreases type_height(et), remaining(end, cur), 1int,
{
    if cur < end {
        lemma_parse_value_advances(et, data, cur);
        match spec_parse_value(et, data, cur) {
            Err(_) => {},
            Ok((v, nc)) => {
                if nc > cur {
                    lemma_parse_elements_advances(et, data, nc, end);
                }
            },
        }
    }
}

pub proof fn lemma_skip_value_advances(t: SpecFieldType, data: Seq<u8>, i: int)
    requires
        0 <= i,
    ensures
        spec_skip_value(t, data, i) matches Ok(nc) ==> i < nc <= data.len(),
    decreases type_height(t),
{
    match t {
        SpecFieldType::Enum(cases) => {
            if i + 2 <= data.len() {
                let case_id = spec_be_u16(data.subrange(i, i + 2));
                if spec_find_case(cases, case_id) is Some {
                    let c = spec_find_case(cases, case_id)->Some_0;
                    if c.associated_value.len() == 1 {
                        lemma_find_case_height(cases, case_id);
                        lemma_types_height_index(c.associated_value, 0);
                        lemma_skip_value_advances(c.associated_value[0], data, i + 2);
                    }
                }
            }
        },
        _ => {},
    }
}

pub proof fn lemma_parse_fields_advances(
    fields: Seq<SpecField>,
    interest: Seq<u16>,
    data: Seq<u8>,
    cur: int,
)
    requires
        0 <= cur,
    ensures
        spec_parse_fields(fields, interest, data, cur) matches Ok((fs, fin)) ==> cur <= fin,
    decreases schema_fields_height(fields), remaining(data.len() as int, cur), 1int,
{
    if cur < data.len() && cur + 2 <= data.len() {
        let fid = spec_be_u16(data.subrange(cur, cur + 2));
        if spec_find_field(fields, fid) is Some {
            let f = spec_find_field(fields, fid)->Some_0;
            lemma_find_field_height(fields, fid);
            if interest.contains(fid) {
                lemma_parse_value_advances(f.field_type, data, cur + 2);
                match spec_parse_value(f.field_type, data, cur + 2) {
                    Err(_) => {},
                    Ok((v, nc)) => {
                        if nc > cur {
                            lemma_parse_fields_advances(fields, interest, data, nc);
                        }
                    },
                }
            } else {
                lemma_skip_value_advances(f.field_type, data, cur + 2);
                match spec_skip_value(f.field_type, data, cur + 2) {
                    Err(_) => {},
                    Ok(nc) => {
                        if nc > cur {
                            lemma_parse_fields_advances(fields, interest, data, nc);
                        }
                    },
                }
            }
        }
    }
}

// ---------------------------------------------------------------------
// The executable decoder
// ---------------------------------------------------------------------
/// A parser for the archive binary serialization format.
///
/// Takes a block of data produced by the block store and decodes a
/// document from it, materializing only the fields of interest.
pub struct ArchiveParser {
    /// The schema the decoded document is expected to conform to.
    pub schema: Schema,
    /// The bytes being decoded.
    pub data: Vec<u8>,
    /// The cursor: the offset of the next byte to read.
    pub ptr: usize,
    /// The identifiers of the fields to materialize; the rest are
    /// skipped over.
    pub fields_of_interest: Vec<u16>,
}

/// Whether `v` holds `id`.
fn contains_id(v: &Vec<u16>, id: u16) -> (r: bool)
    ensures
        r == v@.contains(id),
{
    let n = v.len();
    let mut k: usize = 0;
    while k < n
        invariant
            n == v@.len(),
            0 <= k <= n,
            forall|j: int| 0 <= j < k ==> v@[j] != id,
        decreases n - k,
    {
        if v[k] == id {
            assert(v@.contains(id));
            return true;
        }
        k = k + 1;
    }
    assert(!v@.contains(id));
    false
}

/// The identifiers of all fields of `schema`, in order.
pub fn collect_field_ids(schema: &Schema) -> (r: Vec<u16>)
    ensures
        r@ == field_ids(schema@.fields),
{
    let n = schema.fields.len();
    let mut r: Vec<u16> = Vec::new();
    let mut k: usize = 0;
    proof {
        lemma_field_views_len(schema.fields@);
        lemma_field_ids_take(schema@.fields, 0);
        assert(r@ =~= field_ids(schema@.fields.take(0)));
    }
    while k < n
        invariant
            n == schema.fields@.len(),
            schema@.fields.len() == n,
            0 <= k <= n,
            r@ == field_ids(schema@.fields.take(k as int)),
        decreases n - k,
    {
        r.push(schema.fields[k].id);
        proof {
            lemma_field_views_index(schema.fields@, k as int);
            lemma_field_ids_take_succ(schema@.fields, k as int);
            assert(r@ =~= field_ids(schema@.fields.take(k + 1)));
        }
        k = k + 1;
    }
    proof {
        assert(schema@.fields.take(n as int) =~= schema@.fields);
    }
    r
}

pub proof fn lemma_field_ids_take(fields: Seq<SpecField>, j: int)
    requires
        0 <= j <= fields.len(),
    ensures
        field_ids(fields) == field_ids(fields.take(j)) + field_ids(fields.skip(j)),
    decreases j,
{
    if j == 0 {
        assert(fields.take(0) =~= Seq::<SpecField>::empty());
        assert(fields.skip(0) =~= fields);
        assert(field_ids(fields) =~= field_ids(fields.take(0)) + field_ids(fields.skip(0)));
    } else {
        lemma_field_ids_take(fields.drop_first(), j - 1);
        assert(fields.take(j).drop_first() =~= fields.drop_first().take(j - 1));
        assert(fields.drop_first().skip(j - 1) =~= fields.skip(j));
        assert(fields.take(j)[0] == fields[0]);
        assert(field_ids(fields) =~= field_ids(fields.take(j)) + field_ids(fields.skip(j)));
    }
}

pub proof fn lemma_field_ids_take_succ(fields: Seq<SpecField>, k: int)
    requires
        0 <= k < fields.len(),
    ensures
        field_ids(fields.take(k + 1)) == field_ids(fields.take(k)).push(fields[k].id),
{
    lemma_field_ids_take(fields.take(k + 1), k);
    assert(fields.take(k + 1).take(k) =~= fields.take(k));
    assert(fields.take(k + 1).skip(k) =~= seq![fields[k]]);
    assert(seq![fields[k]].drop_first() =~= Seq::<SpecField>::empty());
    assert(field_ids(Seq::<SpecField>::empty()) == Seq::<u16>::empty());
    assert(field_ids(seq![fields[k]]) =~= seq![fields[k].id]);
    assert(field_ids(fields.take(k)) + seq![fields[k].id] =~= field_ids(fields.take(k)).push(
        fields[k].id,
    ));
}

/// Relies on `String::from_utf8`: it returns `Ok` exactly when the
/// bytes are valid UTF-8, and the string then holds those very bytes.
#[verifier::external_body]
fn bytes_to_string(v: Vec<u8>) -> (r: Result<String, ()>)
    ensures
        match r {
            Ok(s) => vstd::utf8::valid_utf8(v@) && vstd::utf8::encode_utf8(s@) == v@,
            Err(_) => !vstd::utf8::valid_utf8(v@),
        },
{
    String::from_utf8(v).map_err(|_| ())
}

impl ArchiveParser {
    /// The cursor lies inside the buffer.
    pub open spec fn wf(&self) -> bool {
        self.ptr <= self.data@.len()
    }

    /// The schema, buffer and interest set of the parser, untouched
    /// by decoding.
    pub open spec fn inputs_unchanged(&self, other: &Self) -> bool {
        self.schema == other.schema && self.data == other.data && self.fields_of_interest
            == other.fields_of_interest
    }

    /// Creates a parser over `data` with a `schema` and the set of
    /// field identifiers to materialize.
    pub fn new(schema: Schema, data: Vec<u8>, fields_of_interest: Vec<u16>) -> (r: Self)
        ensures
            r.schema == schema,
            r.data == data,
            r.ptr == 0,
            r.fields_of_interest == fields_of_interest,
    {
        ArchiveParser { schema, data, ptr: 0usize, fields_of_interest }
    }

    /// Decodes a document, first checking the leading 8-byte schema
    /// identifier against the parser's schema.
    pub fn read_document(&mut self) -> (r: Result<Document, ParseError>)
        requires
            old(self).ptr == 0,
        ensures
            final(self).inputs_unchanged(old(self)),
            final(self).wf(),
            match (r, spec_read_document(
                old(self).schema@,
                old(self).fields_of_interest@,
                old(self).data@,
            )) {
                (Ok(d), Ok(sd)) => d@ == sd,
                (Err(e), Err(se)) => e == se,
                _ => false,
            },
        decreases schema_fields_height(self.schema@.fields), remaining(
            self.data@.len() as int,
            self.ptr as int,
        ), 3int,
    {
        if self.data.len() < 8 {
            return Err(ParseError::UnexpectedEnd);
        }
        let schema_id = read_u64_be(&self.data, 0);
        self.ptr = 8;
        if schema_id != self.schema.id {
            return Err(ParseError::SchemaMismatch);
        }
        self.read_subdocument()
    }

    /// Decodes `[field id][value]` pairs from the cursor to the end
    /// of the buffer, without a schema-identifier prefix.
    #[verifier::loop_isolation(false)]
    pub fn read_subdocument(&mut self) -> (r: Result<Document, ParseError>)
        requires
            old(self).wf(),
        ensures
            final(self).inputs_unchanged(old(self)),
            final(self).wf(),
            match (r, spec_parse_fields(
                old(self).schema@.fields,
                old(self).fields_of_interest@,
                old(self).data@,
                old(self).ptr as int,
            )) {
                (Ok(d), Ok((fs, fin))) => d@ == SpecDocument {
                    schema: old(self).schema@,
                    fields: fs,
                } && final(self).ptr as int == fin,
                (Err(e), Err(se)) => e == se,
                _ => false,
            },
        decreases schema_fields_height(self.schema@.fields), remaining(
            self.data@.len() as int,
            self.ptr as int,
        ), 2int,
    {
        let ghost fs = self.schema@.fields;
        let ghost interest = self.fields_of_interest@;
        let ghost data = self.data@;
        let ghost start = self.ptr as int;
        let length = self.data.len();
        let mut fields: Vec<FieldInstance> = Vec::new();
        proof {
            assert(instance_views(fields@) =~= Seq::<SpecFieldInstance>::empty());
        }
        while self.ptr < length
            invariant
                self.wf(),
                self.inputs_unchanged(&*old(self)),
                length == self.data@.len(),
                fs == self.schema@.fields,
                interest == self.fields_of_interest@,
                data == self.data@,
                start <= self.ptr as int,
                spec_parse_fields(fs, interest, data, start) == (match spec_parse_fields(
                    fs,
                    interest,
                    data,
                    self.ptr as int,
                ) {
                    Ok((rest, fin)) => Ok::<_, ParseError>(
                        (instance_views(fields@) + rest, fin),
                    ),
                    Err(e) => Err(e),
                }),
            decreases length - self.ptr,
        {
            let ghost ptr_before = self.ptr as int;
            let ghost fields_before = fields@;
            let step = self.read_field();
            match step {
                Err(e) => {
                    return Err(e);
                },
                Ok(opt) => {
                    match opt {
                        Option::None => {},
                        Option::Some(inst) => {
                            proof {
                                lemma_instance_views_push(fields_before, inst);
                            }
                            let ghost iv = instance_view(inst);
                            fields.push(inst);
                            proof {
                                match spec_parse_fields(fs, interest, data, self.ptr as int) {
                                    Ok((rest, fin)) => {
                                        assert(instance_views(fields_before) + (seq![iv] + rest)
                                            =~= instance_views(fields@) + rest);
                                    },
                                    Err(_) => {},
                                }
                            }
                        },
                    }
                },
            }
        }
        proof {
            assert(spec_parse_fields(fs, interest, data, self.ptr as int) == Ok::<_, ParseError>((
                Seq::<SpecFieldInstance>::empty(),
                self.ptr as int,
            )));
            assert(instance_views(fields@) + Seq::<SpecFieldInstance>::empty() =~= instance_views(
                fields@,
            ));
        }
        let doc_schema = self.schema.clone();
        let r = Document { schema: doc_schema, fields };
        proof {
            assert(doc_view(r) =~= SpecDocument {
                schema: old(self).schema@,
                fields: instance_views(r.fields@),
            });
        }
        Ok(r)
    }

    /// Decodes one `[field id][value]` pair at the cursor.
    ///
    /// Returns the decoded instance, or `None` when the field is not
    /// of interest and its bytes were skipped.
    fn read_field(&mut self) -> (r: Result<Option<FieldInstance>, ParseError>)
        requires
            old(self).wf(),
            old(self).ptr < old(self).data@.len(),
        ensures
            final(self).inputs_unchanged(old(self)),
            final(self).wf(),
            match r {
                Err(e) => spec_parse_fields(
                    old(self).schema@.fields,
                    old(self).fields_of_interest@,
                    old(self).data@,
                    old(self).ptr as int,
                ) == Err::<(Seq<SpecFieldInstance>, int), _>(e),
                Ok(opt) => {
                    &&& old(self).ptr < final(self).ptr
                    &&& (match opt {
                        Option::None => spec_parse_fields(
                            old(self).schema@.fields,
                            old(self).fields_of_interest@,
                            old(self).data@,
                            old(self).ptr as int,
                        ) == spec_parse_fields(
                            old(self).schema@.fields,
                            old(self).fields_of_interest@,
                            old(self).data@,
                            final(self).ptr as int,
                        ),
                        Option::Some(inst) => match spec_parse_fields(
                            old(self).schema@.fields,
                            old(self).fields_of_interest@,
                            old(self).data@,
                            final(self).ptr as int,
                        ) {
                            Ok((rest, fin)) => spec_parse_fields(
                                old(self).schema@.fields,
                                old(self).fields_of_interest@,
                                old(self).data@,
                                old(self).ptr as int,
                            ) == Ok::<_, ParseError>((seq![inst@] + rest, fin)),
                            Err(e2) => spec_parse_fields(
                                old(self).schema@.fields,
                                old(self).fields_of_interest@,
                                old(self).data@,
                                old(self).ptr as int,
                            ) == Err::<(Seq<SpecFieldInstance>, int), _>(e2),
                        },
                    })
                },
            },
        decreases schema_fields_height(self.schema@.fields), remaining(
            self.data@.len() as int,
            self.ptr as int,
        ), 1int,
    {
        let ghost fs = self.schema@.fields;
        let ghost interest = self.fields_of_interest@;
        let ghost data = self.data@;
        let ghost start = self.ptr as int;
        if self.data.len() - self.ptr < 2 {
            return Err(ParseError::UnexpectedEnd);
        }
        let field_id = read_u16_be(&self.data, self.ptr);
        let found = self.schema.find_field(field_id);
        let field = match found {
            Option::None => {
                return Err(ParseError::UnknownFieldIdentifier);
            },
            Option::Some(f) => f.clone(),
        };
        self.ptr = self.ptr + 2;
        proof {
            lemma_find_field_height(fs, field_id);
        }
        if contains_id(&self.fields_of_interest, field_id) {
            proof {
                lemma_parse_value_advances(field@.field_type, data, start + 2);
            }
            match self.parse_value(&field.field_type) {
                Err(e) => {
                    return Err(e);
                },
                Ok(value) => {
                    let inst = FieldInstance { id: field_id, value };
                    return Ok(Some(inst));
                },
            }
        } else {
            proof {
                lemma_skip_value_advances(field@.field_type, data, start + 2);
            }
            match self.skip_field(&field.field_type) {
                Err(e) => {
                    return Err(e);
                },
                Ok(_) => {
                    return Ok(None);
                },
            }
        }
    }
}

impl ArchiveParser {
    /// Decodes one value of the given type at the cursor.
    #[verifier::loop_isolation(false)]
    #[verifier::rlimit(50)]
    fn parse_value(&mut self, field_type: &FieldType) -> (r: Result<FieldValue, ParseError>)
        requires
            old(self).wf(),
        ensures
            final(self).inputs_unchanged(old(self)),
            final(self).wf(),
            match (r, spec_parse_value(field_type@, old(self).data@, old(self).ptr as int)) {
                (Ok(v), Ok((sv, nc))) => v@ == sv && final(self).ptr as int == nc,
                (Err(e), Err(se)) => e == se,
                _ => false,
            },
        decreases type_height(field_type@), remaining(
            self.data@.len() as int,
            self.ptr as int,
        ), 1int,
    {
        let ghost data = self.data@;
        let ghost start = self.ptr as int;
        match field_type {
            FieldType::Int => {
                if self.data.len() - self.ptr < 4 {
                    return Err(ParseError::UnexpectedEnd);
                }
                let x = read_u32_be(&self.data, self.ptr);
                self.ptr = self.ptr + 4;
                Ok(FieldValue::Int(#[verifier::truncate] (x as i32)))
            },
            FieldType::UInt => {
                if self.data.len() - self.ptr < 4 {
                    return Err(ParseError::UnexpectedEnd);
                }
                let x = read_u32_be(&self.data, self.ptr);
                self.ptr = self.ptr + 4;
                Ok(FieldValue::UInt(x))
            },
            FieldType::Long => {
                if self.data.len() - self.ptr < 8 {
                    return Err(ParseError::UnexpectedEnd);
                }
                let x = read_u64_be(&self.data, self.ptr);
                self.ptr = self.ptr + 8;
                Ok(FieldValue::Long(#[verifier::truncate] (x as i64)))
            },
            FieldType::ULong => {
                if self.data.len() - self.ptr < 8 {
                    return Err(ParseError::UnexpectedEnd);
                }
                let x = read_u64_be(&self.data, self.ptr);
                self.ptr = self.ptr + 8;
                Ok(FieldValue::ULong(x))
            },
            FieldType::Float => {
                if self.data.len() - self.ptr < 8 {
                    return Err(ParseError::UnexpectedEnd);
                }
                let x = read_u64_be(&self.data, self.ptr);
                self.ptr = self.ptr + 8;
                Ok(FieldValue::Float(x))
            },
            FieldType::Bool => {
                match self.parse_bool() {
                    Ok(b) => Ok(FieldValue::Bool(b)),
                    Err(e) => Err(e),
                }
            },
            FieldType::DateTime => {
                if self.data.len() - self.ptr < 8 {
                    return Err(ParseError::UnexpectedEnd);
                }
                let x = read_u64_be(&self.data, self.ptr);
                self.ptr = self.ptr + 8;
                Ok(FieldValue::DateTime(#[verifier::truncate] (x as i64)))
            },
            FieldType::String => {
                match self.parse_string() {
                    Ok(s) => Ok(FieldValue::String(s)),
                    Err(e) => Err(e),
                }
            },
            FieldType::ByteArray => {
                match self.parse_byte_array() {
                    Ok(b) => Ok(FieldValue::ByteArray(b)),
                    Err(e) => Err(e),
                }
            },
            FieldType::Array(element) => {
                match self.parse_array(element) {
                    Ok(values) => Ok(FieldValue::Array(values)),
                    Err(e) => Err(e),
                }
            },
            FieldType::Object(schema) => {
                match self.parse_object(schema) {
                    Ok(d) => Ok(FieldValue::Object(Box::new(d))),
                    Err(e) => Err(e),
                }
            },
            FieldType::Enum(cases) => {
                match self.parse_enum(cases) {
                    Ok(ev) => Ok(FieldValue::Enum(Box::new(ev))),
                    Err(e) => Err(e),
                }
            },
        }
    }

    /// Decodes a length-prefixed run of elements of type `element`.
    #[verifier::loop_isolation(false)]
    #[verifier::rlimit(50)]
    fn parse_array(&mut self, element: &FieldType) -> (r: Result<Vec<FieldValue>, ParseError>)
        requires
            old(self).wf(),
        ensures
            final(self).inputs_unchanged(old(self)),
            final(self).wf(),
            match (r, spec_parse_value(
                SpecFieldType::Array(seq![element@]),
                old(self).data@,
                old(self).ptr as int,
            )) {
                (Ok(vals), Ok((sv, nc))) => sv == SpecValue::Array(value_views(vals@))
                    && final(self).ptr as int == nc,
                (Err(e), Err(se)) => e == se,
                _ => false,
            },
        decreases type_height(SpecFieldType::Array(seq![element@])), remaining(
            self.data@.len() as int,
            self.ptr as int,
        ), 0int,
    {
        let ghost data = self.data@;
        let ghost et = type_view(*element);
        if self.data.len() - self.ptr < 4 {
            return Err(ParseError::UnexpectedEnd);
        }
        let n = read_u32_be(&self.data, self.ptr) as usize;
        if n > self.data.len() - self.ptr - 4 {
            return Err(ParseError::UnexpectedEnd);
        }
        self.ptr = self.ptr + 4;
        let end = self.ptr + n;
        let ghost estart = self.ptr as int;
        let ghost eend = end as int;
        let mut values: Vec<FieldValue> = Vec::new();
        proof {
            assert(value_views(values@) =~= Seq::<SpecValue>::empty());
        }
        while self.ptr < end
            invariant
                self.wf(),
                self.inputs_unchanged(old(self)),
                estart <= self.ptr as int,
                spec_parse_elements(et, data, estart, eend) == (match spec_parse_elements(
                    et,
                    data,
                    self.ptr as int,
                    eend,
                ) {
                    Ok((rest, fin)) => Ok::<_, ParseError>((value_views(values@) + rest, fin)),
                    Err(e) => Err(e),
                }),
            decreases remaining(eend, self.ptr as int),
        {
            let ghost cur = self.ptr as int;
            let ghost vals_before = values@;
            proof {
                lemma_types_height_index(seq![et], 0);
                lemma_parse_value_advances(et, data, cur);
            }
            match self.parse_value(element) {
                Err(e) => {
                    return Err(e);
                },
                Ok(v) => {
                    proof {
                        lemma_value_views_push(vals_before, v);
                    }
                    let ghost vv = value_view(v);
                    values.push(v);
                    proof {
                        match spec_parse_elements(et, data, self.ptr as int, eend) {
                            Ok((rest, fin)) => {
                                assert(value_views(vals_before) + (seq![vv] + rest) =~= value_views(
                                    values@,
                                ) + rest);
                            },
                            Err(_) => {},
                        }
                    }
                },
            }
        }
        proof {
            assert(spec_parse_elements(et, data, self.ptr as int, eend) == Ok::<_, ParseError>((
                Seq::<SpecValue>::empty(),
                self.ptr as int,
            )));
            assert(value_views(values@) + Seq::<SpecValue>::empty() =~= value_views(values@));
        }
        Ok(values)
    }

    /// Decodes a length-prefixed nested document conforming to
    /// `schema`.
    fn parse_object(&mut self, schema: &Schema) -> (r: Result<Document, ParseError>)
        requires
            old(self).wf(),
        ensures
            final(self).inputs_unchanged(old(self)),
            final(self).wf(),
            match (r, spec_parse_value(
                SpecFieldType::Object(schema@),
                old(self).data@,
                old(self).ptr as int,
            )) {
                (Ok(d), Ok((sv, nc))) => sv == SpecValue::Object(d@) && final(self).ptr as int
                    == nc,
                (Err(e), Err(se)) => e == se,
                _ => false,
            },
        decreases type_height(SpecFieldType::Object(schema@)), remaining(
            self.data@.len() as int,
            self.ptr as int,
        ), 0int,
    {
        let ghost s_view = crate::schema::schema_view(*schema);
        let bytes = match self.parse_byte_array() {
            Ok(b) => b,
            Err(e) => {
                return Err(e);
            },
        };
        let sub_schema = schema.clone();
        let all_ids = collect_field_ids(&sub_schema);
        proof {
            assert(schema_fields_height(s_view.fields) < type_height(
                SpecFieldType::Object(s_view),
            ));
        }
        let mut parser = ArchiveParser::new(sub_schema, bytes, all_ids);
        parser.read_subdocument()
    }

    /// Decodes a `u16` case identifier and, when the case declares an
    /// associated type, the associated value after it.
    fn parse_enum(&mut self, cases: &Vec<EnumCase>) -> (r: Result<EnumValue, ParseError>)
        requires
            old(self).wf(),
        ensures
            final(self).inputs_unchanged(old(self)),
            final(self).wf(),
            match (r, spec_parse_value(
                SpecFieldType::Enum(crate::schema::case_views(cases@)),
                old(self).data@,
                old(self).ptr as int,
            )) {
                (Ok(ev), Ok((sv, nc))) => sv == SpecValue::Enum(ev.case_id, enum_assoc_view(ev))
                    && final(self).ptr as int == nc,
                (Err(e), Err(se)) => e == se,
                _ => false,
            },
        decreases type_height(SpecFieldType::Enum(crate::schema::case_views(cases@))), remaining(
            self.data@.len() as int,
            self.ptr as int,
        ), 0int,
    {
        let ghost data = self.data@;
        if self.data.len() - self.ptr < 2 {
            return Err(ParseError::UnexpectedEnd);
        }
        let case_id = read_u16_be(&self.data, self.ptr);
        self.ptr = self.ptr + 2;
        let c = match find_case(cases, case_id) {
            Option::None => {
                return Err(ParseError::UnknownCaseIdentifier);
            },
            Option::Some(found) => found.clone(),
        };
        proof {
            lemma_find_case_height(crate::schema::case_views(cases@), case_id);
        }
        match c.associated_value {
            Option::None => {
                let ev = EnumValue { case_id, associated_value: Option::None };
                proof {
                    assert(enum_assoc_view(ev) =~= Seq::<SpecValue>::empty());
                }
                Ok(ev)
            },
            Option::Some(t) => {
                proof {
                    lemma_types_height_index(case_view(c).associated_value, 0);
                }
                match self.parse_value(&t) {
                    Err(e) => Err(e),
                    Ok(v) => {
                        let ghost vv = value_view(v);
                        let ev = EnumValue { case_id, associated_value: Option::Some(v) };
                        proof {
                            assert(enum_assoc_view(ev) =~= seq![vv]);
                        }
                        Ok(ev)
                    },
                }
            },
        }
    }

    /// Advances the cursor over one value of the given type without
    /// materializing it.
    fn skip_field(&mut self, field_type: &FieldType) -> (r: Result<(), ParseError>)
        requires
            old(self).wf(),
        ensures
            final(self).inputs_unchanged(old(self)),
            final(self).wf(),
            match (r, spec_skip_value(field_type@, old(self).data@, old(self).ptr as int)) {
                (Ok(_), Ok(nc)) => final(self).ptr as int == nc,
                (Err(e), Err(se)) => e == se,
                _ => false,
            },
        decreases type_height(field_type@),
    {
        let ghost data = self.data@;
        match field_type {
            FieldType::Int | FieldType::UInt => {
                if self.data.len() - self.ptr < 4 {
                    return Err(ParseError::UnexpectedEnd);
                }
                self.ptr = self.ptr + 4;
                Ok(())
            },
            FieldType::Long | FieldType::ULong | FieldType::Float | FieldType::DateTime => {
                if self.data.len() - self.ptr < 8 {
                    return Err(ParseError::UnexpectedEnd);
                }
                self.ptr = self.ptr + 8;
                Ok(())
            },
            FieldType::Bool => {
                if self.data.len() - self.ptr < 1 {
                    return Err(ParseError::UnexpectedEnd);
                }
                self.ptr = self.ptr + 1;
                Ok(())
            },
            FieldType::String | FieldType::ByteArray | FieldType::Array(_)
                | FieldType::Object(_) => {
                if self.data.len() - self.ptr < 4 {
                    return Err(ParseError::UnexpectedEnd);
                }
                let n = read_u32_be(&self.data, self.ptr) as usize;
                if n > self.data.len() - self.ptr - 4 {
                    return Err(ParseError::UnexpectedEnd);
                }
                self.ptr = self.ptr + 4 + n;
                Ok(())
            },
            FieldType::Enum(cases) => {
                if self.data.len() - self.ptr < 2 {
                    return Err(ParseError::UnexpectedEnd);
                }
                let case_id = read_u16_be(&self.data, self.ptr);
                self.ptr = self.ptr + 2;
                let c = match find_case(cases, case_id) {
                    Option::None => {
                        return Err(ParseError::UnknownCaseIdentifier);
                    },
                    Option::Some(found) => found.clone(),
                };
                proof {
                    lemma_find_case_height(crate::schema::case_views(cases@), case_id);
                }
                match c.associated_value {
                    Option::None => Ok(()),
                    Option::Some(t) => {
                        proof {
                            lemma_types_height_index(case_view(c).associated_value, 0);
                        }
                        self.skip_field(&t)
                    },
                }
            },
        }
    }

    /// Decodes a single boolean byte at the cursor.
    pub fn parse_bool(&mut self) -> (r: Result<bool, ParseError>)
        requires
            old(self).wf(),
        ensures
            final(self).inputs_unchanged(old(self)),
            final(self).wf(),
            match (r, spec_parse_value(SpecFieldType::Bool, old(self).data@, old(self).ptr as int)) {
                (Ok(b), Ok((sv, nc))) => sv == SpecValue::Bool(b) && final(self).ptr as int == nc,
                (Err(e), Err(se)) => e == se,
                _ => false,
            },
    {
        if self.data.len() - self.ptr < 1 {
            return Err(ParseError::UnexpectedEnd);
        }
        let b = self.data[self.ptr];
        self.ptr = self.ptr + 1;
        Ok(b != 0)
    }

    /// Decodes a `u32`-length-prefixed run of raw bytes at the cursor.
    #[verifier::loop_isolation(false)]
    pub fn parse_byte_array(&mut self) -> (r: Result<Vec<u8>, ParseError>)
        requires
            old(self).wf(),
        ensures
            final(self).inputs_unchanged(old(self)),
            final(self).wf(),
            match r {
                Ok(b) => {
                    &&& old(self).ptr + 4 <= old(self).data@.len()
                    &&& {
                        let n = spec_be_u32(
                            old(self).data@.subrange(old(self).ptr as int, old(self).ptr + 4),
                        ) as int;
                        &&& n <= old(self).data@.len() - (old(self).ptr + 4)
                        &&& b@ == old(self).data@.subrange(
                            old(self).ptr + 4,
                            old(self).ptr + 4 + n,
                        )
                        &&& final(self).ptr as int == old(self).ptr + 4 + n
                    }
                },
                Err(e) => {
                    &&& e == ParseError::UnexpectedEnd
                    &&& final(self).ptr == old(self).ptr
                    &&& (old(self).ptr + 4 > old(self).data@.len() || spec_be_u32(
                        old(self).data@.subrange(old(self).ptr as int, old(self).ptr + 4),
                    ) as int > old(self).data@.len() - (old(self).ptr + 4))
                },
            },
    {
        if self.data.len() - self.ptr < 4 {
            return Err(ParseError::UnexpectedEnd);
        }
        let n = read_u32_be(&self.data, self.ptr) as usize;
        if n > self.data.len() - self.ptr - 4 {
            return Err(ParseError::UnexpectedEnd);
        }
        let start = self.ptr + 4;
        let mut b: Vec<u8> = Vec::new();
        let mut j: usize = 0;
        proof {
            assert(b@ =~= self.data@.subrange(start as int, start as int));
        }
        while j < n
            invariant
                0 <= j <= n,
                b@ == self.data@.subrange(start as int, start + j),
            decreases n - j,
        {
            proof {
                assert(start + j < self.data@.len());
            }
            b.push(self.data[start + j]);
            proof {
                assert(self.data@.subrange(start as int, start + j).push(
                    self.data@[start + j],
                ) =~= self.data@.subrange(start as int, start + j + 1));
            }
            j = j + 1;
        }
        self.ptr = start + n;
        Ok(b)
    }

    /// Decodes a `u32`-length-prefixed UTF-8 string at the cursor.
    pub fn parse_string(&mut self) -> (r: Result<String, ParseError>)
        requires
            old(self).wf(),
        ensures
            final(self).inputs_unchanged(old(self)),
            final(self).wf(),
            match (r, spec_parse_value(
                SpecFieldType::String,
                old(self).data@,
                old(self).ptr as int,
            )) {
                (Ok(s), Ok((sv, nc))) => sv == SpecValue::String(s@) && final(self).ptr as int
                    == nc,
                (Err(e), Err(se)) => e == se,
                _ => false,
            },
    {
        let ghost data = self.data@;
        let ghost start = self.ptr as int;
        let bytes = match self.parse_byte_array() {
            Ok(b) => b,
            Err(e) => {
                return Err(e);
            },
        };
        let ghost bs = bytes@;
        match bytes_to_string(bytes) {
            Ok(s) => {
                proof {
                    vstd::utf8::encode_utf8_decode_utf8(s@);
                }
                Ok(s)
            },
            Err(_) => Err(ParseError::InvalidString),
        }
    }
}

} // verus!
