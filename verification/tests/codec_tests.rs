//! Round trips and error behavior of the archive codec.
use swift_db::archive_parser::{ArchiveParser, ParseError};
use swift_db::schema::{
    Document, EnumCase, EnumValue, Field, FieldInstance, FieldType, FieldValue, Schema,
};

fn coords_schema() -> Schema {
    Schema {
        name: "coordinates".to_string(),
        id: 0x20,
        fields: vec![
            Field { name: "x".to_string(), id: 0x1, field_type: FieldType::Int },
            Field { name: "y".to_string(), id: 0x2, field_type: FieldType::Int },
        ],
    }
}

fn all_types_schema() -> Schema {
    Schema {
        name: "everything".to_string(),
        id: 0x30,
        fields: vec![
            Field { name: "a".to_string(), id: 1, field_type: FieldType::Int },
            Field { name: "b".to_string(), id: 2, field_type: FieldType::UInt },
            Field { name: "c".to_string(), id: 3, field_type: FieldType::Long },
            Field { name: "d".to_string(), id: 4, field_type: FieldType::ULong },
            Field { name: "e".to_string(), id: 5, field_type: FieldType::Float },
            Field { name: "f".to_string(), id: 6, field_type: FieldType::Bool },
            Field { name: "g".to_string(), id: 7, field_type: FieldType::DateTime },
            Field { name: "h".to_string(), id: 8, field_type: FieldType::String },
            Field { name: "i".to_string(), id: 9, field_type: FieldType::ByteArray },
            Field {
                name: "j".to_string(),
                id: 10,
                // An array of objects whose schema carries an enum with
                // an associated value: the deepest nesting the model
                // offers.
                field_type: FieldType::Array(Box::new(FieldType::Object(Box::new(Schema {
                    name: "inner".to_string(),
                    id: 0x31,
                    fields: vec![
                        Field {
                            name: "mood".to_string(),
                            id: 0x1,
                            field_type: FieldType::Enum(vec![
                                EnumCase {
                                    name: "plain".to_string(),
                                    id: 0x1,
                                    associated_value: None,
                                },
                                EnumCase {
                                    name: "weighted".to_string(),
                                    id: 0x2,
                                    associated_value: Some(FieldType::UInt),
                                },
                            ]),
                        },
                    ],
                })))),
            },
        ],
    }
}

fn inner_doc(case_id: u16, weight: Option<u32>) -> Document {
    let schema = match all_types_schema().fields[9].field_type {
        FieldType::Array(ref element) => match **element {
            FieldType::Object(ref s) => (**s).clone(),
            _ => panic!("unexpected element type"),
        },
        _ => panic!("unexpected field type"),
    };
    Document {
        schema,
        fields: vec![FieldInstance {
            id: 0x1,
            value: FieldValue::Enum(Box::new(EnumValue {
                case_id,
                associated_value: weight.map(FieldValue::UInt),
            })),
        }],
    }
}

fn all_types_doc() -> Document {
    Document {
        schema: all_types_schema(),
        fields: vec![
            FieldInstance { id: 1, value: FieldValue::Int(-123456) },
            FieldInstance { id: 2, value: FieldValue::UInt(3_000_000_000) },
            FieldInstance { id: 3, value: FieldValue::Long(-9_000_000_000) },
            FieldInstance { id: 4, value: FieldValue::ULong(18_000_000_000_000_000_000) },
            FieldInstance {
                id: 5,
                value: FieldValue::Float(u64::from_be_bytes(100.25f64.to_be_bytes())),
            },
            FieldInstance { id: 6, value: FieldValue::Bool(true) },
            FieldInstance { id: 7, value: FieldValue::DateTime(1_700_000_000) },
            FieldInstance { id: 8, value: FieldValue::String("Grüße, мир".to_string()) },
            FieldInstance { id: 9, value: FieldValue::ByteArray(vec![0, 1, 2, 254, 255]) },
            FieldInstance {
                id: 10,
                value: FieldValue::Array(vec![
                    FieldValue::Object(Box::new(inner_doc(0x1, None))),
                    FieldValue::Object(Box::new(inner_doc(0x2, Some(42)))),
                ]),
            },
        ],
    }
}

fn all_ids(schema: &Schema) -> Vec<u16> {
    schema.fields.iter().map(|f| f.id).collect()
}

#[test]
fn round_trip_every_type() {
    let doc = all_types_doc();
    let bytes = doc.serialize();
    let mut parser = ArchiveParser::new(all_types_schema(), bytes, all_ids(&all_types_schema()));
    let decoded = parser.read_document().expect("decode failed");
    assert_eq!(decoded, all_types_doc());
}

#[test]
fn selective_decode_keeps_exactly_the_subset() {
    let doc = all_types_doc();
    let bytes = doc.serialize();
    let mut parser = ArchiveParser::new(all_types_schema(), bytes.clone(), vec![2, 8]);
    let decoded = parser.read_document().expect("decode failed");
    assert_eq!(decoded.fields.len(), 2);
    assert_eq!(decoded.fields[0].id, 2);
    assert_eq!(decoded.fields[0].value, FieldValue::UInt(3_000_000_000));
    assert_eq!(decoded.fields[1].id, 8);
    assert_eq!(decoded.fields[1].value, FieldValue::String("Grüße, мир".to_string()));

    // The values are identical to what a full decode yields.
    let mut full = ArchiveParser::new(all_types_schema(), bytes, all_ids(&all_types_schema()));
    let full_doc = full.read_document().expect("decode failed");
    assert_eq!(full_doc.fields[1], decoded.fields[0]);
    assert_eq!(full_doc.fields[7], decoded.fields[1]);
}

#[test]
fn schema_mismatch_is_detected() {
    let doc = all_types_doc();
    let bytes = doc.serialize();
    let mut parser = ArchiveParser::new(coords_schema(), bytes, vec![1, 2]);
    assert_eq!(parser.read_document(), Err(ParseError::SchemaMismatch));
}

#[test]
fn unknown_field_identifier_is_detected() {
    let doc = Document {
        schema: coords_schema(),
        fields: vec![FieldInstance { id: 0x7, value: FieldValue::Int(5) }],
    };
    let bytes = doc.serialize();
    let mut parser = ArchiveParser::new(coords_schema(), bytes, vec![0x7]);
    assert_eq!(parser.read_document(), Err(ParseError::UnknownFieldIdentifier));
}

#[test]
fn unknown_case_identifier_is_detected() {
    let schema = Schema {
        name: "moods".to_string(),
        id: 0x40,
        fields: vec![Field {
            name: "mood".to_string(),
            id: 0x1,
            field_type: FieldType::Enum(vec![EnumCase {
                name: "plain".to_string(),
                id: 0x1,
                associated_value: None,
            }]),
        }],
    };
    let doc = Document {
        schema: schema.clone(),
        fields: vec![FieldInstance {
            id: 0x1,
            value: FieldValue::Enum(Box::new(EnumValue { case_id: 0x9, associated_value: None })),
        }],
    };
    let bytes = doc.serialize();
    let mut parser = ArchiveParser::new(schema, bytes, vec![0x1]);
    assert_eq!(parser.read_document(), Err(ParseError::UnknownCaseIdentifier));
}

#[test]
fn invalid_utf8_is_detected() {
    let schema = Schema {
        name: "texts".to_string(),
        id: 0x50,
        fields: vec![Field {
            name: "t".to_string(),
            id: 0x1,
            field_type: FieldType::String,
        }],
    };
    // Hand-build: schema id, field id 1, length 2, invalid UTF-8.
    let mut bytes = 0x50u64.to_be_bytes().to_vec();
    bytes.extend_from_slice(&0x1u16.to_be_bytes());
    bytes.extend_from_slice(&2u32.to_be_bytes());
    bytes.extend_from_slice(&[0xff, 0xfe]);
    let mut parser = ArchiveParser::new(schema, bytes, vec![0x1]);
    assert_eq!(parser.read_document(), Err(ParseError::InvalidString));
}

#[test]
fn truncated_buffer_is_detected() {
    let doc = all_types_doc();
    let mut bytes = doc.serialize();
    bytes.truncate(bytes.len() - 3);
    let mut parser = ArchiveParser::new(all_types_schema(), bytes, all_ids(&all_types_schema()));
    assert_eq!(parser.read_document(), Err(ParseError::UnexpectedEnd));
}

#[test]
fn string_decoding_reads_the_encoded_text() {
    // Decoding must reproduce the exact characters, not the raw
    // length-prefixed bytes that carried them.
    let schema = Schema {
        name: "texts".to_string(),
        id: 0x51,
        fields: vec![Field {
            name: "t".to_string(),
            id: 0x1,
            field_type: FieldType::String,
        }],
    };
    let doc = Document {
        schema: schema.clone(),
        fields: vec![FieldInstance {
            id: 0x1,
            value: FieldValue::String("épée".to_string()),
        }],
    };
    let bytes = doc.serialize();
    // Four characters, six UTF-8 bytes: the length prefix counts bytes.
    assert_eq!(&bytes[10..14], &6u32.to_be_bytes());
    let mut parser = ArchiveParser::new(schema, bytes, vec![0x1]);
    let decoded = parser.read_document().expect("decode failed");
    match &decoded.fields[0].value {
        FieldValue::String(s) => {
            assert_eq!(s, "épée");
            assert_eq!(s.chars().count(), 4);
        },
        v => panic!("unexpected value {:?}", v),
    }
}

#[test]
fn empty_document_round_trips() {
    let doc = Document { schema: coords_schema(), fields: vec![] };
    let bytes = doc.serialize();
    assert_eq!(bytes.len(), 8);
    let mut parser = ArchiveParser::new(coords_schema(), bytes, vec![0x1, 0x2]);
    let decoded = parser.read_document().expect("decode failed");
    assert_eq!(decoded.fields.len(), 0);
}

#[test]
fn duplicate_field_identifiers_survive_a_round_trip() {
    // A document need not carry unique field instances; the decoder
    // keeps every pair in order.
    let doc = Document {
        schema: coords_schema(),
        fields: vec![
            FieldInstance { id: 0x1, value: FieldValue::Int(1) },
            FieldInstance { id: 0x1, value: FieldValue::Int(2) },
            FieldInstance { id: 0x2, value: FieldValue::Int(3) },
        ],
    };
    let bytes = doc.serialize();
    let mut parser = ArchiveParser::new(coords_schema(), bytes, vec![0x1, 0x2]);
    let decoded = parser.read_document().expect("decode failed");
    assert_eq!(decoded.fields.len(), 3);
    assert_eq!(decoded.fields[0].value, FieldValue::Int(1));
    assert_eq!(decoded.fields[1].value, FieldValue::Int(2));
    assert_eq!(decoded.fields[2].value, FieldValue::Int(3));
}

#[test]
fn skipped_fields_advance_over_every_encoding() {
    // Decoding with an empty interest set must still walk every
    // value's bytes, nested composites included, and yield an empty
    // document rather than an error.
    let doc = all_types_doc();
    let bytes = doc.serialize();
    let mut parser = ArchiveParser::new(all_types_schema(), bytes, vec![]);
    let decoded = parser.read_document().expect("decode failed");
    assert_eq!(decoded.fields.len(), 0);
}
