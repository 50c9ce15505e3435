//! Query evaluation and end-to-end engine scenarios.
use swift_db::backend::{Backend, Operation, Reference, Response};
use swift_db::block_store::StoreError;
use swift_db::lock::LockType;
use swift_db::query::{Condition, Expression, OperationError, Query};
use swift_db::schema::{
    Document, EnumCase, EnumValue, Field, FieldInstance, FieldType, FieldValue, Schema,
};

fn float_bits(x: f64) -> u64 {
    u64::from_be_bytes(x.to_be_bytes())
}

fn test_fields() -> Vec<Field> {
    vec![
        Field { name: "name".to_string(), id: 0x1, field_type: FieldType::String },
        Field { name: "apple_count".to_string(), id: 0x2, field_type: FieldType::UInt },
        Field { name: "money".to_string(), id: 0x3, field_type: FieldType::Float },
        Field { name: "has_pet".to_string(), id: 0x4, field_type: FieldType::Bool },
        Field { name: "birthday".to_string(), id: 0x5, field_type: FieldType::DateTime },
        Field {
            name: "state".to_string(),
            id: 0x6,
            field_type: FieldType::Enum(vec![
                EnumCase { id: 0x1, name: "happy".to_string(), associated_value: None },
                EnumCase { id: 0x2, name: "sad".to_string(), associated_value: None },
                EnumCase { id: 0x3, name: "angry".to_string(), associated_value: None },
            ]),
        },
    ]
}

fn test_schema() -> Schema {
    Schema { name: "people".to_string(), id: 0x10, fields: test_fields() }
}

fn person(name: &str, apples: u32) -> Document {
    Document {
        schema: test_schema(),
        fields: vec![
            FieldInstance { id: 0x1, value: FieldValue::String(name.to_string()) },
            FieldInstance { id: 0x2, value: FieldValue::UInt(apples) },
            FieldInstance { id: 0x3, value: FieldValue::Float(float_bits(100.25)) },
            FieldInstance { id: 0x4, value: FieldValue::Bool(true) },
            FieldInstance { id: 0x5, value: FieldValue::DateTime(1_700_000_000) },
            FieldInstance {
                id: 0x6,
                value: FieldValue::Enum(Box::new(EnumValue {
                    case_id: 0x2,
                    associated_value: None,
                })),
            },
        ],
    }
}

fn equals_uint(field_id: u16, value: u32) -> Condition {
    Condition::Equal(Expression::Field(field_id), Expression::Value(FieldValue::UInt(value)))
}

#[test]
fn create_document() {
    let mut backend = Backend::new(vec![test_schema()]);
    let document = person("John Doe", 11);
    backend.create(document).expect("Creation failed");
}

#[test]
fn read_document() {
    let mut backend = Backend::new(vec![test_schema()]);
    backend.create(person("John Doe", 11)).expect("Creation failed");
    let selection = backend
        .find_one(&Query { collection: 0x10, condition: equals_uint(0x2, 11) })
        .expect("Read error");
    let document = backend.read(selection, vec![0x2]).expect("Read error");
    assert_eq!(document.fields.len(), 1);
    assert_eq!(document.fields[0].value, FieldValue::UInt(11));
}

#[test]
fn write_then_read_many() {
    let mut backend = Backend::new(vec![test_schema()]);
    for i in 1..100u32 {
        backend.create(person("John Doe", i)).expect("Creation failed");
    }
    for i in 1..100u32 {
        let selection = backend
            .find_one(&Query { collection: 0x10, condition: equals_uint(0x2, i) })
            .expect("Read error");
        let document = backend.read(selection, vec![0x1, 0x2]).expect("Read error");
        assert_eq!(document.fields[1].value, FieldValue::UInt(i));
    }
}

#[test]
fn equal_matches_only_the_right_documents() {
    let doc = person("A", 5);
    assert_eq!(doc.evaluate(&equals_uint(0x2, 5)), Ok(true));
    assert_eq!(doc.evaluate(&equals_uint(0x2, 6)), Ok(false));
}

#[test]
fn comparing_uint_against_string_reports_both_types() {
    let doc = person("A", 5);
    let condition = Condition::Equal(
        Expression::Field(0x2),
        Expression::Value(FieldValue::String("five".to_string())),
    );
    match doc.evaluate(&condition) {
        Err(OperationError::ExpressionTypeMismatch { left, right }) => {
            assert_eq!(left, FieldType::UInt);
            assert_eq!(right, FieldType::String);
        },
        other => panic!("unexpected outcome {:?}", other),
    }
}

#[test]
fn ordering_booleans_is_invalid() {
    let doc = person("A", 5);
    let condition = Condition::GreaterThan(
        Expression::Field(0x4),
        Expression::Value(FieldValue::Bool(false)),
    );
    assert_eq!(doc.evaluate(&condition), Err(OperationError::InvalidExpressionType));
}

#[test]
fn unknown_field_in_condition_is_reported() {
    let doc = person("A", 5);
    let condition = equals_uint(0x99, 5);
    assert_eq!(doc.evaluate(&condition), Err(OperationError::UnknownFieldIdentifier));
}

#[test]
fn boolean_connectives_combine_and_short_circuit() {
    let doc = person("A", 5);
    let both = Condition::And(
        Box::new(equals_uint(0x2, 5)),
        Box::new(Condition::Not(Box::new(equals_uint(0x2, 6)))),
    );
    assert_eq!(doc.evaluate(&both), Ok(true));
    let either = Condition::Or(
        Box::new(equals_uint(0x2, 5)),
        // The right operand would fail, but the left already matched.
        Box::new(equals_uint(0x99, 1)),
    );
    assert_eq!(doc.evaluate(&either), Ok(true));
}

#[test]
fn string_ordering_is_lexicographic() {
    let doc = person("Beta", 5);
    let later = Condition::GreaterThan(
        Expression::Field(0x1),
        Expression::Value(FieldValue::String("Alpha".to_string())),
    );
    assert_eq!(doc.evaluate(&later), Ok(true));
    let earlier = Condition::LessThan(
        Expression::Field(0x1),
        Expression::Value(FieldValue::String("Alpha".to_string())),
    );
    assert_eq!(doc.evaluate(&earlier), Ok(false));
}

#[test]
fn unknown_collection_is_reported() {
    let mut backend = Backend::new(vec![test_schema()]);
    let outcome = backend.find_one(&Query { collection: 0x77, condition: equals_uint(0x2, 1) });
    assert_eq!(outcome, Err(OperationError::UnknownSchemaIdentifier));
}

#[test]
fn end_to_end_scenario() {
    // Create {name: "A", count: UInt(1)} under schema id 0x10, find it
    // by its count, read only that field, delete it, and watch the
    // same query exhaust the store.
    let schema = Schema {
        name: "records".to_string(),
        id: 0x10,
        fields: vec![
            Field { name: "name".to_string(), id: 0x1, field_type: FieldType::String },
            Field { name: "count".to_string(), id: 0x2, field_type: FieldType::UInt },
        ],
    };
    let mut backend = Backend::new(vec![schema.clone()]);
    let document = Document {
        schema: schema.clone(),
        fields: vec![
            FieldInstance { id: 0x1, value: FieldValue::String("A".to_string()) },
            FieldInstance { id: 0x2, value: FieldValue::UInt(1) },
        ],
    };
    let created = backend
        .execute_operation(Operation::Create { document })
        .expect("create failed")
        .get_selection()
        .expect("not a selection");

    let query = Query { collection: 0x10, condition: equals_uint(0x2, 1) };
    let found = backend
        .find_one(&Query { collection: 0x10, condition: equals_uint(0x2, 1) })
        .expect("find failed");
    assert_eq!(found.position, created.position);

    let response = backend
        .execute_operation(Operation::Read {
            selection: Reference { schema: schema.clone(), position: found.position },
            fields: vec![0x2],
        })
        .expect("read failed");
    let document = response.get_document().expect("not a document");
    assert_eq!(document.fields.len(), 1);
    assert_eq!(document.fields[0].id, 0x2);
    assert_eq!(document.fields[0].value, FieldValue::UInt(1));

    let response = backend
        .execute_operation(Operation::Delete {
            selection: Reference { schema: schema.clone(), position: found.position },
        })
        .expect("delete failed");
    assert!(response.get_ok().is_some());

    let outcome = backend.find_one(&query);
    assert_eq!(outcome, Err(OperationError::IOError(StoreError::EndOfFile)));
}

#[test]
fn update_replaces_the_visible_document() {
    let mut backend = Backend::new(vec![test_schema()]);
    backend.create(person("A", 1)).expect("create failed");
    let found = backend
        .find_one(&Query { collection: 0x10, condition: equals_uint(0x2, 1) })
        .expect("find failed");
    let position = found.position;
    backend
        .update(found, vec![FieldInstance { id: 0x2, value: FieldValue::UInt(9) }])
        .expect("update failed");
    // The old record is gone; the replacement is found at a new
    // position.
    let stale = backend.find_one(&Query { collection: 0x10, condition: equals_uint(0x2, 1) });
    assert_eq!(stale, Err(OperationError::IOError(StoreError::EndOfFile)));
    let fresh = backend
        .find_one(&Query { collection: 0x10, condition: equals_uint(0x2, 9) })
        .expect("find failed");
    assert_ne!(fresh.position, position);
}

#[test]
fn acquire_and_release_through_the_backend() {
    let mut backend = Backend::new(vec![test_schema()]);
    backend.create(person("A", 1)).expect("create failed");
    let found = backend
        .find_one(&Query { collection: 0x10, condition: equals_uint(0x2, 1) })
        .expect("find failed");
    let reference = Reference { schema: test_schema(), position: found.position };

    // A fresh position grants immediately; a second writer waits until
    // the first releases.
    assert!(backend.acquire(&reference, LockType::Write, 100));
    assert!(!backend.acquire(&reference, LockType::Write, 101));
    let granted = backend.release(&reference, LockType::Write);
    assert_eq!(granted, vec![101]);
    let granted = backend.release(&reference, LockType::Write);
    assert_eq!(granted, Vec::<u64>::new());
}

#[test]
fn scan_skips_documents_of_other_collections() {
    let other_schema = Schema {
        name: "pets".to_string(),
        id: 0x11,
        fields: vec![Field {
            name: "kind".to_string(),
            id: 0x1,
            field_type: FieldType::UInt,
        }],
    };
    let mut backend = Backend::new(vec![test_schema(), other_schema.clone()]);
    backend
        .create(Document {
            schema: other_schema,
            fields: vec![FieldInstance { id: 0x1, value: FieldValue::UInt(5) }],
        })
        .expect("create failed");
    backend.create(person("B", 5)).expect("create failed");
    // The pet document also holds UInt(5) in a field, but belongs to
    // another collection and is skipped by its schema identifier.
    let found = backend
        .find_one(&Query { collection: 0x10, condition: equals_uint(0x2, 5) })
        .expect("find failed");
    let document = backend.read(found, vec![0x1]).expect("read failed");
    assert_eq!(document.fields[0].value, FieldValue::String("B".to_string()));
}

#[test]
fn reading_under_the_wrong_schema_reports_a_parse_error() {
    let other_schema = Schema {
        name: "pets".to_string(),
        id: 0x11,
        fields: vec![Field {
            name: "kind".to_string(),
            id: 0x1,
            field_type: FieldType::UInt,
        }],
    };
    let mut backend = Backend::new(vec![test_schema()]);
    let created = backend.create(person("A", 1)).expect("create failed");
    let outcome = backend.read(
        Reference { schema: other_schema, position: created.position },
        vec![0x1],
    );
    assert_eq!(
        outcome,
        Err(OperationError::ParseError(swift_db::archive_parser::ParseError::SchemaMismatch)),
    );
}

#[test]
fn float_equality_compares_stored_bit_patterns() {
    let doc = person("A", 5);
    let same = Condition::Equal(
        Expression::Field(0x3),
        Expression::Value(FieldValue::Float(u64::from_be_bytes(100.25f64.to_be_bytes()))),
    );
    assert_eq!(doc.evaluate(&same), Ok(true));
    let different = Condition::Equal(
        Expression::Field(0x3),
        Expression::Value(FieldValue::Float(u64::from_be_bytes(1.0f64.to_be_bytes()))),
    );
    assert_eq!(doc.evaluate(&different), Ok(false));
}

#[test]
fn reloaded_bytes_serve_the_same_documents() {
    let mut backend = Backend::new(vec![test_schema()]);
    backend.create(person("A", 1)).expect("create failed");
    let second = backend.create(person("B", 2)).expect("create failed");
    backend
        .delete(&Reference { schema: test_schema(), position: second.position })
        .expect("delete failed");

    // Persisted bytes reload into an equivalent store.
    let image = backend.io.bytes.clone();
    let store = swift_db::block_store::BlockStore::from_bytes(image).expect("reload failed");
    let mut revived = Backend {
        io: store,
        collections: vec![test_schema()],
        document_cache: std::collections::HashMap::new(),
        locks: std::collections::HashMap::new(),
    };
    let found = revived
        .find_one(&Query { collection: 0x10, condition: equals_uint(0x2, 1) })
        .expect("find failed");
    let document = revived.read(found, vec![0x1]).expect("read failed");
    assert_eq!(document.fields[0].value, FieldValue::String("A".to_string()));
    let gone = revived.find_one(&Query { collection: 0x10, condition: equals_uint(0x2, 2) });
    assert_eq!(gone, Err(OperationError::IOError(StoreError::EndOfFile)));
}
