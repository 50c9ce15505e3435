//! Definitions and instances of stored values.
//!
//! | Definition  | Instance        |
//! |-------------|-----------------|
//! | `Schema`    | `Document`      |
//! | `Field`     | `FieldInstance` |
//! | `FieldType` | `FieldValue`    |
//! | `EnumCase`  | `EnumValue`     |
//!
//! Each executable type has a mathematical counterpart (`SpecSchema`,
//! `SpecValue`, ...) reached through `View`; every contract in the
//! crate speaks about those counterparts.
//!
//! Two representation choices keep the whole engine inside plain
//! values: a `DateTime` value is carried as its Unix-seconds `i64`
//! (collaborators convert to and from their preferred calendar type at
//! the boundary), and a `Float` value is carried as the 8-byte
//! big-endian bit pattern of the IEEE-754 double, stored in a `u64`.
use vstd::prelude::*;

verus! {

broadcast use vstd::std_specs::vec::group_vec_axioms;

// ---------------------------------------------------------------------
// Executable types
// ---------------------------------------------------------------------
/// A schema definition: the shape of one collection's documents.
#[derive(Debug, PartialEq)]
pub struct Schema {
    /// The name of the collection this schema defines.
    pub name: String,
    /// The identifier of the collection this schema defines.
    pub id: u64,
    /// The field definitions on this schema.
    pub fields: Vec<Field>,
}

/// A definition of a field which a `Document` may have.
#[derive(Debug, PartialEq)]
pub struct Field {
    /// The name of this field.
    pub name: String,
    /// The identifier of this field.
    pub id: u16,
    /// The type of this field.
    pub field_type: FieldType,
}

/// The type of a `Field`.
#[derive(Debug, PartialEq)]
pub enum FieldType {
    Int,
    UInt,
    Long,
    ULong,
    Float,
    Bool,
    DateTime,
    String,
    ByteArray,
    Array(Box<FieldType>),
    Object(Box<Schema>),
    Enum(Vec<EnumCase>),
}

/// A possible case for an enumerated field.
#[derive(Debug, PartialEq)]
pub struct EnumCase {
    /// The name of this enum case.
    pub name: String,
    /// The identifier of this enum case.
    pub id: u16,
    /// The type stored along with instances of this case, if any.
    pub associated_value: Option<FieldType>,
}

/// A single record: an instance of a `Schema`.
#[derive(Debug, PartialEq)]
pub struct Document {
    /// The schema to which this document conforms.
    pub schema: Schema,
    /// The field/value pairs on this instance.
    pub fields: Vec<FieldInstance>,
}

/// A key/value pair for a field.
#[derive(Debug, PartialEq)]
pub struct FieldInstance {
    /// The identifier of the field definition this instance conforms to.
    pub id: u16,
    /// The value stored in this field instance.
    pub value: FieldValue,
}

/// An actual value stored in a `FieldInstance`.
#[derive(Debug, PartialEq)]
pub enum FieldValue {
    Int(i32),
    UInt(u32),
    Long(i64),
    ULong(u64),
    /// The big-endian bit pattern of an IEEE-754 double.
    Float(u64),
    Bool(bool),
    /// A point in time as Unix seconds.
    DateTime(i64),
    String(String),
    ByteArray(Vec<u8>),
    Array(Vec<FieldValue>),
    Object(Box<Document>),
    Enum(Box<EnumValue>),
}

/// An instance of an enum case.
#[derive(Debug, PartialEq)]
pub struct EnumValue {
    /// The identifier of the case definition this instance conforms to.
    pub case_id: u16,
    /// The value associated with this case instance, if its case
    /// declares one.
    pub associated_value: Option<FieldValue>,
}

// ---------------------------------------------------------------------
// Mathematical counterparts
// ---------------------------------------------------------------------
// Where an executable type owns one recursive child (`Box`) or an
// optional one (`Option`), the counterpart holds a `Seq` of length
// exactly one, or at most one; `type_wf` and `value_wf` pin those
// lengths down, and every view satisfies them.
/// The mathematical counterpart of `Schema`.
#[verifier::ext_equal]
pub struct SpecSchema {
    pub name: Seq<char>,
    pub id: u64,
    pub fields: Seq<SpecField>,
}

/// The mathematical counterpart of `Field`.
#[verifier::ext_equal]
pub struct SpecField {
    pub name: Seq<char>,
    pub id: u16,
    pub field_type: SpecFieldType,
}

/// The mathematical counterpart of `FieldType`.
#[verifier::ext_equal]
pub enum SpecFieldType {
    Int,
    UInt,
    Long,
    ULong,
    Float,
    Bool,
    DateTime,
    String,
    ByteArray,
    /// The element type, as a sequence of length exactly one.
    Array(Seq<SpecFieldType>),
    Object(SpecSchema),
    Enum(Seq<SpecEnumCase>),
}

/// The mathematical counterpart of `EnumCase`.
#[verifier::ext_equal]
pub struct SpecEnumCase {
    pub name: Seq<char>,
    pub id: u16,
    /// The associated type, as a sequence of length at most one.
    pub associated_value: Seq<SpecFieldType>,
}

/// The mathematical counterpart of `Document`.
#[verifier::ext_equal]
pub struct SpecDocument {
    pub schema: SpecSchema,
    pub fields: Seq<SpecFieldInstance>,
}

/// The mathematical counterpart of `FieldInstance`.
#[verifier::ext_equal]
pub struct SpecFieldInstance {
    pub id: u16,
    pub value: SpecValue,
}

/// The mathematical counterpart of `FieldValue`.
#[verifier::ext_equal]
pub enum SpecValue {
    Int(i32),
    UInt(u32),
    Long(i64),
    ULong(u64),
    Float(u64),
    Bool(bool),
    DateTime(i64),
    String(Seq<char>),
    ByteArray(Seq<u8>),
    Array(Seq<SpecValue>),
    Object(SpecDocument),
    /// The case identifier and the associated value, as a sequence of
    /// length at most one.
    Enum(u16, Seq<SpecValue>),
}

// ---------------------------------------------------------------------
// Views
// ---------------------------------------------------------------------
pub open spec fn type_view(t: FieldType) -> SpecFieldType
    decreases t,
{
    match t {
        FieldType::Int => SpecFieldType::Int,
        FieldType::UInt => SpecFieldType::UInt,
        FieldType::Long => SpecFieldType::Long,
        FieldType::ULong => SpecFieldType::ULong,
        FieldType::Float => SpecFieldType::Float,
        FieldType::Bool => SpecFieldType::Bool,
        FieldType::DateTime => SpecFieldType::DateTime,
        FieldType::String => SpecFieldType::String,
        FieldType::ByteArray => SpecFieldType::ByteArray,
        FieldType::Array(element) => SpecFieldType::Array(seq![type_view(*element)]),
        FieldType::Object(schema) => SpecFieldType::Object(schema_view(*schema)),
        FieldType::Enum(cases) => SpecFieldType::Enum(case_views(cases@)),
    }
}

pub open spec fn case_views(cases: Seq<EnumCase>) -> Seq<SpecEnumCase>
    decreases cases,
{
    if cases.len() == 0 {
        seq![]
    } else {
        seq![case_view(cases[0])] + case_views(cases.drop_first())
    }
}

pub open spec fn case_view(case: EnumCase) -> SpecEnumCase
    decreases case,
{
    SpecEnumCase {
        name: case.name@,
        id: case.id,
        associated_value: match case.associated_value {
            Option::None => seq![],
            Option::Some(t) => seq![type_view(t)],
        },
    }
}

pub open spec fn field_views(fields: Seq<Field>) -> Seq<SpecField>
    decreases fields,
{
    if fields.len() == 0 {
        seq![]
    } else {
        seq![field_view(fields[0])] + field_views(fields.drop_first())
    }
}

pub open spec fn field_view(field: Field) -> SpecField
    decreases field,
{
    SpecField { name: field.name@, id: field.id, field_type: type_view(field.field_type) }
}

pub open spec fn schema_view(schema: Schema) -> SpecSchema
    decreases schema,
{
    SpecSchema { name: schema.name@, id: schema.id, fields: field_views(schema.fields@) }
}

pub open spec fn value_view(v: FieldValue) -> SpecValue
    decreases v,
{
    match v {
        FieldValue::Int(x) => SpecValue::Int(x),
        FieldValue::UInt(x) => SpecValue::UInt(x),
        FieldValue::Long(x) => SpecValue::Long(x),
        FieldValue::ULong(x) => SpecValue::ULong(x),
        FieldValue::Float(x) => SpecValue::Float(x),
        FieldValue::Bool(x) => SpecValue::Bool(x),
        FieldValue::DateTime(x) => SpecValue::DateTime(x),
        FieldValue::String(s) => SpecValue::String(s@),
        FieldValue::ByteArray(b) => SpecValue::ByteArray(b@),
        FieldValue::Array(vs) => SpecValue::Array(value_views(vs@)),
        FieldValue::Object(d) => SpecValue::Object(doc_view(*d)),
        FieldValue::Enum(e) => SpecValue::Enum(e.case_id, enum_assoc_view(*e)),
    }
}

/// The view of an enum instance's associated value: empty, or one
/// element.
pub open spec fn enum_assoc_view(e: EnumValue) -> Seq<SpecValue>
    decreases e,
{
    match e.associated_value {
        Option::None => seq![],
        Option::Some(av) => seq![value_view(av)],
    }
}

pub open spec fn value_views(vs: Seq<FieldValue>) -> Seq<SpecValue>
    decreases vs,
{
    if vs.len() == 0 {
        seq![]
    } else {
        seq![value_view(vs[0])] + value_views(vs.drop_first())
    }
}

pub open spec fn instance_views(fields: Seq<FieldInstance>) -> Seq<SpecFieldInstance>
    decreases fields,
{
    if fields.len() == 0 {
        seq![]
    } else {
        seq![instance_view(fields[0])] + instance_views(fields.drop_first())
    }
}

pub open spec fn instance_view(f: FieldInstance) -> SpecFieldInstance
    decreases f,
{
    SpecFieldInstance { id: f.id, value: value_view(f.value) }
}

pub open spec fn doc_view(d: Document) -> SpecDocument
    decreases d,
{
    SpecDocument { schema: schema_view(d.schema), fields: instance_views(d.fields@) }
}

impl View for FieldType {
    type V = SpecFieldType;

    open spec fn view(&self) -> SpecFieldType {
        type_view(*self)
    }
}

impl View for EnumCase {
    type V = SpecEnumCase;

    open spec fn view(&self) -> SpecEnumCase {
        case_view(*self)
    }
}

impl View for Field {
    type V = SpecField;

    open spec fn view(&self) -> SpecField {
        field_view(*self)
    }
}

impl View for Schema {
    type V = SpecSchema;

    open spec fn view(&self) -> SpecSchema {
        schema_view(*self)
    }
}

impl View for FieldValue {
    type V = SpecValue;

    open spec fn view(&self) -> SpecValue {
        value_view(*self)
    }
}

impl View for FieldInstance {
    type V = SpecFieldInstance;

    open spec fn view(&self) -> SpecFieldInstance {
        instance_view(*self)
    }
}

impl View for Document {
    type V = SpecDocument;

    open spec fn view(&self) -> SpecDocument {
        doc_view(*self)
    }
}

/// The views of a list of schemas, in order.
pub open spec fn schema_views(schemas: Seq<Schema>) -> Seq<SpecSchema>
    decreases schemas,
{
    if schemas.len() == 0 {
        seq![]
    } else {
        seq![schema_view(schemas[0])] + schema_views(schemas.drop_first())
    }
}

// ---------------------------------------------------------------------
// Basic lemmas about the list views
// ---------------------------------------------------------------------
pub broadcast proof fn lemma_case_views_len(cases: Seq<EnumCase>)
    ensures
        #[trigger] case_views(cases).len() == cases.len(),
    decreases cases,
{
    if cases.len() > 0 {
        lemma_case_views_len(cases.drop_first());
    }
}

pub broadcast proof fn lemma_case_views_index(cases: Seq<EnumCase>, i: int)
    requires
        0 <= i < cases.len(),
    ensures
        case_views(cases).len() == cases.len(),
        #[trigger] case_views(cases)[i] == case_view(cases[i]),
    decreases cases,
{
    lemma_case_views_len(cases);
    if i > 0 {
        lemma_case_views_index(cases.drop_first(), i - 1);
    }
}

pub broadcast proof fn lemma_field_views_len(fields: Seq<Field>)
    ensures
        #[trigger] field_views(fields).len() == fields.len(),
    decreases fields,
{
    if fields.len() > 0 {
        lemma_field_views_len(fields.drop_first());
    }
}

pub broadcast proof fn lemma_field_views_index(fields: Seq<Field>, i: int)
    requires
        0 <= i < fields.len(),
    ensures
        field_views(fields).len() == fields.len(),
        #[trigger] field_views(fields)[i] == field_view(fields[i]),
    decreases fields,
{
    lemma_field_views_len(fields);
    if i > 0 {
        lemma_field_views_index(fields.drop_first(), i - 1);
    }
}

pub broadcast proof fn lemma_value_views_len(vs: Seq<FieldValue>)
    ensures
        #[trigger] value_views(vs).len() == vs.len(),
    decreases vs,
{
    if vs.len() > 0 {
        lemma_value_views_len(vs.drop_first());
    }
}

pub broadcast proof fn lemma_value_views_index(vs: Seq<FieldValue>, i: int)
    requires
        0 <= i < vs.len(),
    ensures
        value_views(vs).len() == vs.len(),
        #[trigger] value_views(vs)[i] == value_view(vs[i]),
    decreases vs,
{
    lemma_value_views_len(vs);
    if i > 0 {
        lemma_value_views_index(vs.drop_first(), i - 1);
    }
}

pub broadcast proof fn lemma_instance_views_len(fields: Seq<FieldInstance>)
    ensures
        #[trigger] instance_views(fields).len() == fields.len(),
    decreases fields,
{
    if fields.len() > 0 {
        lemma_instance_views_len(fields.drop_first());
    }
}

pub broadcast proof fn lemma_instance_views_index(fields: Seq<FieldInstance>, i: int)
    requires
        0 <= i < fields.len(),
    ensures
        instance_views(fields).len() == fields.len(),
        #[trigger] instance_views(fields)[i] == instance_view(fields[i]),
    decreases fields,
{
    lemma_instance_views_len(fields);
    if i > 0 {
        lemma_instance_views_index(fields.drop_first(), i - 1);
    }
}

pub broadcast proof fn lemma_case_views_push(cases: Seq<EnumCase>, c: EnumCase)
    ensures
        #[trigger] case_views(cases.push(c)) == case_views(cases).push(case_view(c)),
{
    let l = case_views(cases.push(c));
    let r = case_views(cases).push(case_view(c));
    lemma_case_views_len(cases.push(c));
    lemma_case_views_len(cases);
    assert forall|i: int| 0 <= i < l.len() implies l[i] == r[i] by {
        lemma_case_views_index(cases.push(c), i);
        if i < cases.len() {
            lemma_case_views_index(cases, i);
            assert(cases.push(c)[i] == cases[i]);
        } else {
            assert(cases.push(c)[i] == c);
        }
    }
    assert(l =~= r);
}

pub broadcast proof fn lemma_field_views_push(fields: Seq<Field>, f: Field)
    ensures
        #[trigger] field_views(fields.push(f)) == field_views(fields).push(field_view(f)),
{
    let l = field_views(fields.push(f));
    let r = field_views(fields).push(field_view(f));
    lemma_field_views_len(fields.push(f));
    lemma_field_views_len(fields);
    assert forall|i: int| 0 <= i < l.len() implies l[i] == r[i] by {
        lemma_field_views_index(fields.push(f), i);
        if i < fields.len() {
            lemma_field_views_index(fields, i);
            assert(fields.push(f)[i] == fields[i]);
        } else {
            assert(fields.push(f)[i] == f);
        }
    }
    assert(l =~= r);
}

pub broadcast proof fn lemma_value_views_push(vs: Seq<FieldValue>, v: FieldValue)
    ensures
        #[trigger] value_views(vs.push(v)) == value_views(vs).push(value_view(v)),
{
    let l = value_views(vs.push(v));
    let r = value_views(vs).push(value_view(v));
    lemma_value_views_len(vs.push(v));
    lemma_value_views_len(vs);
    assert forall|i: int| 0 <= i < l.len() implies l[i] == r[i] by {
        lemma_value_views_index(vs.push(v), i);
        if i < vs.len() {
            lemma_value_views_index(vs, i);
            assert(vs.push(v)[i] == vs[i]);
        } else {
            assert(vs.push(v)[i] == v);
        }
    }
    assert(l =~= r);
}

pub broadcast proof fn lemma_instance_views_push(fs: Seq<FieldInstance>, f: FieldInstance)
    ensures
        #[trigger] instance_views(fs.push(f)) == instance_views(fs).push(instance_view(f)),
{
    let l = instance_views(fs.push(f));
    let r = instance_views(fs).push(instance_view(f));
    lemma_instance_views_len(fs.push(f));
    lemma_instance_views_len(fs);
    assert forall|i: int| 0 <= i < l.len() implies l[i] == r[i] by {
        lemma_instance_views_index(fs.push(f), i);
        if i < fs.len() {
            lemma_instance_views_index(fs, i);
            assert(fs.push(f)[i] == fs[i]);
        } else {
            assert(fs.push(f)[i] == f);
        }
    }
    assert(l =~= r);
}

pub broadcast proof fn lemma_schema_views_len(schemas: Seq<Schema>)
    ensures
        #[trigger] schema_views(schemas).len() == schemas.len(),
    decreases schemas,
{
    if schemas.len() > 0 {
        lemma_schema_views_len(schemas.drop_first());
    }
}

pub broadcast proof fn lemma_schema_views_index(schemas: Seq<Schema>, i: int)
    requires
        0 <= i < schemas.len(),
    ensures
        schema_views(schemas).len() == schemas.len(),
        #[trigger] schema_views(schemas)[i] == schema_view(schemas[i]),
    decreases schemas,
{
    lemma_schema_views_len(schemas);
    if i > 0 {
        lemma_schema_views_index(schemas.drop_first(), i - 1);
    }
}

// ---------------------------------------------------------------------
// Well-formedness of the mathematical counterparts
// ---------------------------------------------------------------------
// Every view satisfies these by construction (`lemma_type_view_wf` and
// friends); they pin down the lengths of the `Seq`-encoded recursive
// children.
pub open spec fn type_wf(t: SpecFieldType) -> bool
    decreases t,
{
    match t {
        SpecFieldType::Array(ts) => ts.len() == 1 && type_wf(ts[0]),
        SpecFieldType::Object(s) => schema_wf(s),
        SpecFieldType::Enum(cases) => cases_wf(cases),
        _ => true,
    }
}

pub open spec fn cases_wf(cases: Seq<SpecEnumCase>) -> bool
    decreases cases,
{
    cases.len() == 0 || (case_wf(cases[0]) && cases_wf(cases.drop_first()))
}

pub open spec fn case_wf(c: SpecEnumCase) -> bool
    decreases c,
{
    c.associated_value.len() <= 1 && (c.associated_value.len() == 1 ==> type_wf(
        c.associated_value[0],
    ))
}

pub open spec fn schema_wf(s: SpecSchema) -> bool
    decreases s,
{
    fields_wf(s.fields)
}

pub open spec fn fields_wf(fields: Seq<SpecField>) -> bool
    decreases fields,
{
    fields.len() == 0 || (type_wf(fields[0].field_type) && fields_wf(fields.drop_first()))
}

pub open spec fn value_wf(v: SpecValue) -> bool
    decreases v,
{
    match v {
        SpecValue::Array(vs) => values_wf(vs),
        SpecValue::Object(d) => spec_doc_wf(d),
        SpecValue::Enum(_, av) => av.len() <= 1 && (av.len() == 1 ==> value_wf(av[0])),
        _ => true,
    }
}

pub open spec fn values_wf(vs: Seq<SpecValue>) -> bool
    decreases vs,
{
    vs.len() == 0 || (value_wf(vs[0]) && values_wf(vs.drop_first()))
}

pub open spec fn spec_doc_wf(d: SpecDocument) -> bool
    decreases d,
{
    schema_wf(d.schema) && instances_wf(d.fields)
}

pub open spec fn instances_wf(fields: Seq<SpecFieldInstance>) -> bool
    decreases fields,
{
    fields.len() == 0 || (value_wf(fields[0].value) && instances_wf(fields.drop_first()))
}



pub proof fn lemma_type_view_wf(t: FieldType)
    ensures
        type_wf(type_view(t)),
    decreases t,
{
    match t {
        FieldType::Array(element) => {
            lemma_type_view_wf(*element);
        },
        FieldType::Object(schema) => {
            lemma_schema_view_wf(*schema);
        },
        FieldType::Enum(cases) => {
            lemma_cases_view_wf(cases@);
        },
        _ => {},
    }
}

pub proof fn lemma_cases_view_wf(cases: Seq<EnumCase>)
    ensures
        cases_wf(case_views(cases)),
    decreases cases,
{
    if cases.len() > 0 {
        lemma_case_view_wf(cases[0]);
        lemma_cases_view_wf(cases.drop_first());
        assert(case_views(cases)[0] == case_view(cases[0]));
        assert(case_views(cases).drop_first() =~= case_views(cases.drop_first()));
    }
}

pub proof fn lemma_case_view_wf(c: EnumCase)
    ensures
        case_wf(case_view(c)),
    decreases c,
{
    match c.associated_value {
        Option::None => {},
        Option::Some(t) => {
            lemma_type_view_wf(t);
        },
    }
}

pub proof fn lemma_schema_view_wf(s: Schema)
    ensures
        schema_wf(schema_view(s)),
    decreases s,
{
    lemma_fields_view_wf(s.fields@);
}

pub proof fn lemma_fields_view_wf(fields: Seq<Field>)
    ensures
        fields_wf(field_views(fields)),
    decreases fields,
{
    if fields.len() > 0 {
        lemma_type_view_wf(fields[0].field_type);
        lemma_fields_view_wf(fields.drop_first());
        assert(field_views(fields)[0] == field_view(fields[0]));
        assert(field_views(fields).drop_first() =~= field_views(fields.drop_first()));
    }
}

pub proof fn lemma_value_view_wf(v: FieldValue)
    ensures
        value_wf(value_view(v)),
    decreases v,
{
    match v {
        FieldValue::Array(vs) => {
            lemma_values_view_wf(vs@);
        },
        FieldValue::Object(d) => {
            lemma_doc_view_wf(*d);
        },
        FieldValue::Enum(e) => {
            match e.associated_value {
                Option::None => {},
                Option::Some(av) => {
                    lemma_value_view_wf(av);
                },
            }
        },
        _ => {},
    }
}

pub proof fn lemma_values_view_wf(vs: Seq<FieldValue>)
    ensures
        values_wf(value_views(vs)),
    decreases vs,
{
    if vs.len() > 0 {
        lemma_value_view_wf(vs[0]);
        lemma_values_view_wf(vs.drop_first());
        assert(value_views(vs)[0] == value_view(vs[0]));
        assert(value_views(vs).drop_first() =~= value_views(vs.drop_first()));
    }
}

pub proof fn lemma_doc_view_wf(d: Document)
    ensures
        spec_doc_wf(doc_view(d)),
    decreases d,
{
    lemma_schema_view_wf(d.schema);
    lemma_instances_view_wf(d.fields@);
}

pub proof fn lemma_instances_view_wf(fields: Seq<FieldInstance>)
    ensures
        instances_wf(instance_views(fields)),
    decreases fields,
{
    if fields.len() > 0 {
        lemma_value_view_wf(fields[0].value);
        lemma_instances_view_wf(fields.drop_first());
        assert(instance_views(fields)[0] == instance_view(fields[0]));
        assert(instance_views(fields).drop_first() =~= instance_views(fields.drop_first()));
    }
}

// ---------------------------------------------------------------------
// Lookup by identifier
// ---------------------------------------------------------------------
/// The first field definition with the given identifier, if any.
pub open spec fn spec_find_field(fields: Seq<SpecField>, id: u16) -> Option<SpecField>
    decreases fields,
{
    if fields.len() == 0 {
        Option::None
    } else if fields[0].id == id {
        Option::Some(fields[0])
    } else {
        spec_find_field(fields.drop_first(), id)
    }
}

/// The first enum case with the given identifier, if any.
pub open spec fn spec_find_case(cases: Seq<SpecEnumCase>, id: u16) -> Option<SpecEnumCase>
    decreases cases,
{
    if cases.len() == 0 {
        Option::None
    } else if cases[0].id == id {
        Option::Some(cases[0])
    } else {
        spec_find_case(cases.drop_first(), id)
    }
}

impl Schema {
    /// Looks up the first field definition carrying `id`.
    pub fn find_field(&self, id: u16) -> (r: Option<&Field>)
        ensures
            match r {
                Option::Some(f) => spec_find_field(self@.fields, id) == Option::Some(f@),
                Option::None => spec_find_field(self@.fields, id) is None,
            },
    {
        let n = self.fields.len();
        let mut k: usize = 0;
        proof {
            assert(self.fields@.skip(0) =~= self.fields@);
        }
        while k < n
            invariant
                n == self.fields@.len(),
                0 <= k <= n,
                spec_find_field(self@.fields, id) == spec_find_field(
                    field_views(self.fields@.skip(k as int)),
                    id,
                ),
            decreases n - k,
        {
            proof {
                broadcast use lemma_field_views_index;

                assert(field_views(self.fields@.skip(k as int)).len() == n - k);
                assert(self.fields@.skip(k as int)[0] == self.fields@[k as int]);
                assert(field_views(self.fields@.skip(k as int))[0] == field_view(
                    self.fields@[k as int],
                ));
            }
            if self.fields[k].id == id {
                return Some(&self.fields[k]);
            }
            proof {
                assert(field_views(self.fields@.skip(k as int)).drop_first() =~= field_views(
                    self.fields@.skip(k + 1),
                )) by {
                    assert(self.fields@.skip(k as int).drop_first() =~= self.fields@.skip(k + 1));
                }
            }
            k = k + 1;
        }
        proof {
            assert(self.fields@.skip(n as int) =~= Seq::<Field>::empty());
        }
        None
    }
}

/// Looks up the first enum case carrying `id`.
pub fn find_case(cases: &Vec<EnumCase>, id: u16) -> (r: Option<&EnumCase>)
    ensures
        match r {
            Option::Some(c) => spec_find_case(case_views(cases@), id) == Option::Some(c@),
            Option::None => spec_find_case(case_views(cases@), id) is None,
        },
{
    let n = cases.len();
    let mut k: usize = 0;
    proof {
        assert(cases@.skip(0) =~= cases@);
    }
    while k < n
        invariant
            n == cases@.len(),
            0 <= k <= n,
            spec_find_case(case_views(cases@), id) == spec_find_case(
                case_views(cases@.skip(k as int)),
                id,
            ),
        decreases n - k,
    {
        proof {
            broadcast use lemma_case_views_index;

            assert(case_views(cases@.skip(k as int)).len() == n - k);
            assert(cases@.skip(k as int)[0] == cases@[k as int]);
            assert(case_views(cases@.skip(k as int))[0] == case_view(cases@[k as int]));
        }
        if cases[k].id == id {
            return Some(&cases[k]);
        }
        proof {
            assert(case_views(cases@.skip(k as int)).drop_first() =~= case_views(
                cases@.skip(k + 1),
            )) by {
                assert(cases@.skip(k as int).drop_first() =~= cases@.skip(k + 1));
            }
        }
        k = k + 1;
    }
    proof {
        assert(cases@.skip(n as int) =~= Seq::<EnumCase>::empty());
    }
    None
}

// ---------------------------------------------------------------------
// Cloning
// ---------------------------------------------------------------------
// Hand-written so that each clone provably preserves the view.
impl Clone for FieldType {
    fn clone(&self) -> (res: Self)
        ensures
            res@ == self@,
        decreases self,
    {
        match self {
            FieldType::Int => FieldType::Int,
            FieldType::UInt => FieldType::UInt,
            FieldType::Long => FieldType::Long,
            FieldType::ULong => FieldType::ULong,
            FieldType::Float => FieldType::Float,
            FieldType::Bool => FieldType::Bool,
            FieldType::DateTime => FieldType::DateTime,
            FieldType::String => FieldType::String,
            FieldType::ByteArray => FieldType::ByteArray,
            FieldType::Array(element) => FieldType::Array(Box::new((**element).clone())),
            FieldType::Object(schema) => FieldType::Object(Box::new((**schema).clone())),
            FieldType::Enum(cases) => FieldType::Enum(clone_cases(cases)),
        }
    }
}

/// Clones a list of enum cases, preserving its view.
fn clone_cases(cases: &Vec<EnumCase>) -> (res: Vec<EnumCase>)
    ensures
        case_views(res@) == case_views(cases@),
    decreases cases,
{
    let n = cases.len();
    let mut res: Vec<EnumCase> = Vec::new();
    let mut k: usize = 0;
    proof {
        broadcast use lemma_case_views_index, lemma_case_views_push;

        assert(case_views(res@) =~= case_views(cases@).take(0));
    }
    while k < n
        invariant
            n == cases@.len(),
            0 <= k <= n,
            res@.len() == k,
            case_views(res@) == case_views(cases@).take(k as int),
        decreases n - k,
    {
        let c = cases[k].clone();
        res.push(c);
        proof {
            broadcast use lemma_case_views_push;

            lemma_case_views_len(cases@);
            lemma_case_views_index(cases@, k as int);
            assert(case_views(cases@).take(k as int).push(case_view(cases@[k as int])) =~= case_views(
                cases@,
            ).take(k + 1));
        }
        k = k + 1;
    }
    proof {
        lemma_case_views_len(cases@);
        assert(case_views(cases@).take(n as int) =~= case_views(cases@));
    }
    res
}

impl Clone for EnumCase {
    fn clone(&self) -> (res: Self)
        ensures
            res@ == self@,
        decreases self,
    {
        EnumCase {
            name: self.name.clone(),
            id: self.id,
            associated_value: match &self.associated_value {
                Option::None => Option::None,
                Option::Some(t) => Option::Some(t.clone()),
            },
        }
    }
}

impl Clone for Field {
    fn clone(&self) -> (res: Self)
        ensures
            res@ == self@,
        decreases self,
    {
        Field { name: self.name.clone(), id: self.id, field_type: self.field_type.clone() }
    }
}

/// Clones a list of field definitions, preserving its view.
fn clone_fields(fields: &Vec<Field>) -> (res: Vec<Field>)
    ensures
        field_views(res@) == field_views(fields@),
    decreases fields,
{
    let n = fields.len();
    let mut res: Vec<Field> = Vec::new();
    let mut k: usize = 0;
    proof {
        broadcast use lemma_field_views_index, lemma_field_views_push;

        assert(field_views(res@) =~= field_views(fields@).take(0));
    }
    while k < n
        invariant
            n == fields@.len(),
            0 <= k <= n,
            res@.len() == k,
            field_views(res@) == field_views(fields@).take(k as int),
        decreases n - k,
    {
        let f = fields[k].clone();
        res.push(f);
        proof {
            broadcast use lemma_field_views_push;

            lemma_field_views_len(fields@);
            lemma_field_views_index(fields@, k as int);
            assert(field_views(fields@).take(k as int).push(field_view(fields@[k as int]))
                =~= field_views(fields@).take(k + 1));
        }
        k = k + 1;
    }
    proof {
        lemma_field_views_len(fields@);
        assert(field_views(fields@).take(n as int) =~= field_views(fields@));
    }
    res
}

impl Clone for Schema {
    fn clone(&self) -> (res: Self)
        ensures
            res@ == self@,
        decreases self,
    {
        let res = Schema {
            name: self.name.clone(),
            id: self.id,
            fields: clone_fields(&self.fields),
        };
        proof {
            assert(res@ =~= self@);
        }
        res
    }
}

impl Clone for FieldValue {
    fn clone(&self) -> (res: Self)
        ensures
            res@ == self@,
        decreases self,
    {
        match self {
            FieldValue::Int(x) => FieldValue::Int(*x),
            FieldValue::UInt(x) => FieldValue::UInt(*x),
            FieldValue::Long(x) => FieldValue::Long(*x),
            FieldValue::ULong(x) => FieldValue::ULong(*x),
            FieldValue::Float(x) => FieldValue::Float(*x),
            FieldValue::Bool(x) => FieldValue::Bool(*x),
            FieldValue::DateTime(x) => FieldValue::DateTime(*x),
            FieldValue::String(s) => FieldValue::String(s.clone()),
            FieldValue::ByteArray(b) => FieldValue::ByteArray(clone_bytes(b)),
            FieldValue::Array(vs) => FieldValue::Array(clone_values(vs)),
            FieldValue::Object(d) => FieldValue::Object(Box::new((**d).clone())),
            FieldValue::Enum(e) => FieldValue::Enum(Box::new((**e).clone())),
        }
    }
}

/// Copies a byte vector.
fn clone_bytes(b: &Vec<u8>) -> (res: Vec<u8>)
    ensures
        res@ == b@,
{
    let n = b.len();
    let mut res: Vec<u8> = Vec::new();
    let mut k: usize = 0;
    while k < n
        invariant
            n == b@.len(),
            0 <= k <= n,
            res@ == b@.take(k as int),
        decreases n - k,
    {
        res.push(b[k]);
        proof {
            assert(b@.take(k as int).push(b@[k as int]) =~= b@.take(k + 1));
        }
        k = k + 1;
    }
    proof {
        assert(b@.take(n as int) =~= b@);
    }
    res
}

/// Clones a list of values, preserving its view.
fn clone_values(vs: &Vec<FieldValue>) -> (res: Vec<FieldValue>)
    ensures
        value_views(res@) == value_views(vs@),
    decreases vs,
{
    let n = vs.len();
    let mut res: Vec<FieldValue> = Vec::new();
    let mut k: usize = 0;
    proof {
        broadcast use lemma_value_views_index, lemma_value_views_push;

        assert(value_views(res@) =~= value_views(vs@).take(0));
    }
    while k < n
        invariant
            n == vs@.len(),
            0 <= k <= n,
            res@.len() == k,
            value_views(res@) == value_views(vs@).take(k as int),
        decreases n - k,
    {
        let v = vs[k].clone();
        res.push(v);
        proof {
            broadcast use lemma_value_views_push;

            lemma_value_views_len(vs@);
            lemma_value_views_index(vs@, k as int);
            assert(value_views(vs@).take(k as int).push(value_view(vs@[k as int])) =~= value_views(
                vs@,
            ).take(k + 1));
        }
        k = k + 1;
    }
    proof {
        lemma_value_views_len(vs@);
        assert(value_views(vs@).take(n as int) =~= value_views(vs@));
    }
    res
}

impl Clone for EnumValue {
    fn clone(&self) -> (res: Self)
        ensures
            res.case_id == self.case_id,
            enum_assoc_view(res) == enum_assoc_view(*self),
        decreases self,
    {
        EnumValue {
            case_id: self.case_id,
            associated_value: match &self.associated_value {
                Option::None => Option::None,
                Option::Some(v) => Option::Some(v.clone()),
            },
        }
    }
}

impl Clone for FieldInstance {
    fn clone(&self) -> (res: Self)
        ensures
            res@ == self@,
        decreases self,
    {
        FieldInstance { id: self.id, value: self.value.clone() }
    }
}

/// Clones a list of field instances, preserving its view.
fn clone_instances(fields: &Vec<FieldInstance>) -> (res: Vec<FieldInstance>)
    ensures
        instance_views(res@) == instance_views(fields@),
    decreases fields,
{
    let n = fields.len();
    let mut res: Vec<FieldInstance> = Vec::new();
    let mut k: usize = 0;
    proof {
        broadcast use lemma_instance_views_index, lemma_instance_views_push;

        assert(instance_views(res@) =~= instance_views(fields@).take(0));
    }
    while k < n
        invariant
            n == fields@.len(),
            0 <= k <= n,
            res@.len() == k,
            instance_views(res@) == instance_views(fields@).take(k as int),
        decreases n - k,
    {
        let f = fields[k].clone();
        res.push(f);
        proof {
            broadcast use lemma_instance_views_push;

            lemma_instance_views_len(fields@);
            lemma_instance_views_index(fields@, k as int);
            assert(instance_views(fields@).take(k as int).push(
                instance_view(fields@[k as int]),
            ) =~= instance_views(fields@).take(k + 1));
        }
        k = k + 1;
    }
    proof {
        lemma_instance_views_len(fields@);
        assert(instance_views(fields@).take(n as int) =~= instance_views(fields@));
    }
    res
}

impl Clone for Document {
    fn clone(&self) -> (res: Self)
        ensures
            res@ == self@,
        decreases self,
    {
        let res = Document { schema: self.schema.clone(), fields: clone_instances(&self.fields) };
        proof {
            assert(res@ =~= self@);
        }
        res
    }
}

impl FieldValue {
    /// The `FieldType` that this value is an instance of, stripping
    /// array/object/enum subtype information.
    pub fn simple_type(&self) -> (r: FieldType)
        ensures
            r@ == spec_simple_type(self@),
    {
        match self {
            FieldValue::Int(_) => FieldType::Int,
            FieldValue::UInt(_) => FieldType::UInt,
            FieldValue::Long(_) => FieldType::Long,
            FieldValue::ULong(_) => FieldType::ULong,
            FieldValue::Float(_) => FieldType::Float,
            FieldValue::Bool(_) => FieldType::Bool,
            FieldValue::DateTime(_) => FieldType::DateTime,
            FieldValue::String(_) => FieldType::String,
            FieldValue::ByteArray(_) => FieldType::ByteArray,
            FieldValue::Array(_) => {
                proof {
                    assert(type_view(FieldType::Int) == SpecFieldType::Int);
                }
                FieldType::Array(Box::new(FieldType::Int))
            },
            FieldValue::Object(_) => {
                let empty = Schema { name: String::new(), id: 0, fields: Vec::new() };
                proof {
                    assert(empty.fields@ =~= Seq::<Field>::empty());
                    assert(field_views(empty.fields@) =~= Seq::<SpecField>::empty());
                    assert(schema_view(empty) =~= SpecSchema {
                        name: Seq::empty(),
                        id: 0,
                        fields: Seq::empty(),
                    });
                }
                FieldType::Object(Box::new(empty))
            },
            FieldValue::Enum(_) => {
                let no_cases: Vec<EnumCase> = Vec::new();
                proof {
                    assert(no_cases@ =~= Seq::<EnumCase>::empty());
                    assert(case_views(no_cases@) =~= Seq::<SpecEnumCase>::empty());
                }
                FieldType::Enum(no_cases)
            },
        }
    }
}

/// The shallow type of a value: composite variants map to a fixed
/// empty representative, as `simple_type` produces.
pub open spec fn spec_simple_type(v: SpecValue) -> SpecFieldType {
    match v {
        SpecValue::Int(_) => SpecFieldType::Int,
        SpecValue::UInt(_) => SpecFieldType::UInt,
        SpecValue::Long(_) => SpecFieldType::Long,
        SpecValue::ULong(_) => SpecFieldType::ULong,
        SpecValue::Float(_) => SpecFieldType::Float,
        SpecValue::Bool(_) => SpecFieldType::Bool,
        SpecValue::DateTime(_) => SpecFieldType::DateTime,
        SpecValue::String(_) => SpecFieldType::String,
        SpecValue::ByteArray(_) => SpecFieldType::ByteArray,
        SpecValue::Array(_) => SpecFieldType::Array(seq![SpecFieldType::Int]),
        SpecValue::Object(_) => SpecFieldType::Object(
            SpecSchema { name: Seq::empty(), id: 0, fields: Seq::empty() },
        ),
        SpecValue::Enum(_, _) => SpecFieldType::Enum(Seq::empty()),
    }
}

} // verus!
