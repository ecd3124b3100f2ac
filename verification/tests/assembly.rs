use typed_multipart::{
    assemble, convert, Cardinality, FieldDescriptor, FieldMetadata, FieldType, Part, PartBody,
    ScalarType, SlotValue, TargetShape, TempSink, TypedMultipartError, Value,
};

fn meta() -> FieldMetadata {
    FieldMetadata { file_name: None, content_type: None }
}

fn text_part(name: &str, value: &str) -> Part {
    Part {
        name: name.to_string(),
        metadata: meta(),
        body: PartBody::Bytes(value.as_bytes().to_vec()),
    }
}

fn desc(name: &str, cardinality: Cardinality, field_type: FieldType) -> FieldDescriptor {
    FieldDescriptor { source_name: name.to_string(), cardinality, field_type }
}

fn shape(fields: Vec<FieldDescriptor>) -> TargetShape {
    TargetShape::new(fields).expect("shape should validate")
}

#[test]
fn scalar_literal_round_trips() {
    let r = convert(
        &FieldType::Scalar(ScalarType::Unsigned),
        text_part("count", "42"),
    );
    match r {
        Ok(Value::Unsigned(n)) => assert_eq!(n, 42),
        _ => panic!("expected unsigned 42"),
    }
    let r = convert(&FieldType::Scalar(ScalarType::Integer), text_part("delta", "-7"));
    match r {
        Ok(Value::Integer(n)) => assert_eq!(n, -7),
        _ => panic!("expected integer -7"),
    }
    let r = convert(
        &FieldType::Scalar(ScalarType::Integer),
        text_part("min", "-9223372036854775808"),
    );
    match r {
        Ok(Value::Integer(n)) => assert_eq!(n, i64::MIN),
        _ => panic!("expected i64::MIN"),
    }
    let r = convert(&FieldType::Scalar(ScalarType::Boolean), text_part("flag", "true"));
    match r {
        Ok(Value::Boolean(b)) => assert!(b),
        _ => panic!("expected true"),
    }
    let r = convert(&FieldType::Scalar(ScalarType::Character), text_part("c", "é"));
    match r {
        Ok(Value::Character(c)) => assert_eq!(c, 'é'),
        _ => panic!("expected character"),
    }
    let r = convert(&FieldType::Scalar(ScalarType::Unsigned), text_part("plus", "+99"));
    match r {
        Ok(Value::Unsigned(n)) => assert_eq!(n, 99),
        _ => panic!("expected unsigned 99"),
    }
}

#[test]
fn unsigned_overflow_is_rejected() {
    let r = convert(
        &FieldType::Scalar(ScalarType::Unsigned),
        text_part("count", "18446744073709551616"),
    );
    match r {
        Err(TypedMultipartError::WrongFieldType { field_name, wanted_type }) => {
            assert_eq!(field_name, "count");
            assert_eq!(wanted_type, "unsigned integer");
        },
        _ => panic!("expected WrongFieldType"),
    }
    let r = convert(
        &FieldType::Scalar(ScalarType::Unsigned),
        text_part("max", "18446744073709551615"),
    );
    match r {
        Ok(Value::Unsigned(n)) => assert_eq!(n, u64::MAX),
        _ => panic!("expected u64::MAX"),
    }
}

#[test]
fn invalid_utf8_fails_as_invalid_request_body() {
    let part = Part {
        name: "name".to_string(),
        metadata: meta(),
        body: PartBody::Bytes(vec![0xff, 0xfe]),
    };
    match convert(&FieldType::Text, part) {
        Err(TypedMultipartError::InvalidRequestBody) => {},
        _ => panic!("expected InvalidRequestBody"),
    }
}

#[test]
fn two_required_strings() {
    let s = shape(vec![
        desc("first_name", Cardinality::Required, FieldType::Text),
        desc("last_name", Cardinality::Required, FieldType::Text),
    ]);
    let parts = vec![text_part("first_name", "Alice"), text_part("last_name", "Doe")];
    let out = assemble(&s, parts, false);
    let record = out.result.ok().expect("expected a record");
    assert!(out.reclaim.is_empty());
    match (&record.slots[0], &record.slots[1]) {
        (SlotValue::Single(Value::Text(a)), SlotValue::Single(Value::Text(b))) => {
            assert_eq!(a, "Alice");
            assert_eq!(b, "Doe");
        },
        _ => panic!("expected two text slots"),
    }
}

#[test]
fn optional_slot_absent_is_not_an_error() {
    let s = shape(vec![desc("name", Cardinality::Optional, FieldType::Text)]);
    let out = assemble(&s, vec![], false);
    let record = out.result.ok().expect("expected a record");
    match &record.slots[0] {
        SlotValue::Missing => {},
        _ => panic!("expected the slot to be absent"),
    }
}

#[test]
fn defaulted_string_slot_takes_empty_string() {
    let s = shape(vec![desc("name", Cardinality::Defaulted, FieldType::Text)]);
    let out = assemble(&s, vec![], false);
    let record = out.result.ok().expect("expected a record");
    match &record.slots[0] {
        SlotValue::Single(Value::Text(t)) => assert_eq!(t, ""),
        _ => panic!("expected the empty-string default"),
    }
}

#[test]
fn list_slot_keeps_arrival_order() {
    let s = shape(vec![desc("names", Cardinality::List, FieldType::Text)]);
    let parts = vec![
        text_part("names", "a"),
        text_part("names", "b"),
        text_part("names", "c"),
    ];
    let out = assemble(&s, parts, false);
    let record = out.result.ok().expect("expected a record");
    match &record.slots[0] {
        SlotValue::Multiple(vs) => {
            assert_eq!(vs.len(), 3);
            let texts: Vec<&str> = vs
                .iter()
                .map(|v| match v {
                    Value::Text(t) => t.as_str(),
                    _ => panic!("expected text values"),
                })
                .collect();
            assert_eq!(texts, vec!["a", "b", "c"]);
        },
        _ => panic!("expected a list slot"),
    }
}

#[test]
fn wrong_field_type_aborts_assembly() {
    let s = shape(vec![desc("count", Cardinality::Required, FieldType::Scalar(ScalarType::Integer))]);
    let out = assemble(&s, vec![text_part("count", "abc")], false);
    match out.result {
        Err(TypedMultipartError::WrongFieldType { field_name, wanted_type }) => {
            assert_eq!(field_name, "count");
            assert_eq!(wanted_type, "integer");
        },
        _ => panic!("expected WrongFieldType and no record"),
    }
}

#[test]
fn missing_required_slot_fails_even_if_others_are_valid() {
    let s = shape(vec![
        desc("kept", Cardinality::Optional, FieldType::Text),
        desc("needed", Cardinality::Required, FieldType::Text),
    ]);
    let out = assemble(&s, vec![text_part("kept", "fine")], false);
    match out.result {
        Err(TypedMultipartError::MissingField { field_name }) => {
            assert_eq!(field_name, "needed");
        },
        _ => panic!("expected MissingField and no record"),
    }
}

#[test]
fn last_occurrence_wins_for_non_list_slots() {
    let s = shape(vec![desc("name", Cardinality::Required, FieldType::Text)]);
    let parts = vec![text_part("name", "first"), text_part("name", "second")];
    let out = assemble(&s, parts, false);
    let record = out.result.ok().expect("expected a record");
    match &record.slots[0] {
        SlotValue::Single(Value::Text(t)) => assert_eq!(t, "second"),
        _ => panic!("expected the last occurrence"),
    }
}

#[test]
fn unknown_field_policies() {
    let s = shape(vec![desc("name", Cardinality::Optional, FieldType::Text)]);
    let parts = vec![text_part("stray", "x")];
    let out = assemble(&s, parts, false);
    assert!(out.result.is_ok(), "lenient policy skips unknown parts");
    let parts = vec![text_part("stray", "x")];
    let out = assemble(&s, parts, true);
    match out.result {
        Err(TypedMultipartError::UnknownField { field_name }) => assert_eq!(field_name, "stray"),
        _ => panic!("expected UnknownField under the strict policy"),
    }
}

#[test]
fn shape_validation_refuses_bad_shapes() {
    assert!(TargetShape::new(vec![
        desc("a", Cardinality::Required, FieldType::Text),
        desc("a", Cardinality::List, FieldType::Text),
    ])
    .is_none());
    assert!(TargetShape::new(vec![desc("f", Cardinality::Defaulted, FieldType::Disk)]).is_none());
    assert!(TargetShape::new(vec![
        desc("a", Cardinality::Required, FieldType::Text),
        desc("b", Cardinality::List, FieldType::Binary),
    ])
    .is_some());
}

#[test]
fn sink_streams_and_persist_moves_the_same_bytes() {
    let mut sink = TempSink::open("/tmp/upload-000".to_string());
    assert!(sink.record_chunk(&vec![1, 2, 3]).is_ok());
    assert!(sink.record_chunk(&vec![4, 5]).is_ok());
    let mut file = sink.finish();
    assert_eq!(file.len(), 5);
    assert_eq!(file.path(), "/tmp/upload-000");
    let job = file
        .persist("/data/final.bin".to_string(), false, false)
        .ok()
        .expect("persist to a fresh path succeeds");
    assert_eq!(job.source_path, "/tmp/upload-000");
    assert_eq!(job.target_path, "/data/final.bin");
    match file.persist("/data/other.bin".to_string(), false, false) {
        Err(TypedMultipartError::IOError) => {},
        _ => panic!("a consumed handle must refuse persist"),
    }
}

#[test]
fn persist_refuses_existing_target_without_overwrite() {
    let sink = TempSink::open("/tmp/upload-001".to_string());
    let mut file = sink.finish();
    match file.persist("/data/taken.bin".to_string(), true, false) {
        Err(TypedMultipartError::IOError) => {},
        _ => panic!("existing target without overwrite must fail"),
    }
    let job = file
        .persist("/data/taken.bin".to_string(), true, true)
        .ok()
        .expect("overwrite allows the move");
    assert_eq!(job.target_path, "/data/taken.bin");
}

#[test]
fn failed_assembly_reclaims_streamed_files() {
    let s = shape(vec![
        desc("upload", Cardinality::Required, FieldType::Disk),
        desc("count", Cardinality::Required, FieldType::Scalar(ScalarType::Integer)),
    ]);
    let mut sink = TempSink::open("/tmp/upload-002".to_string());
    assert!(sink.record_chunk(&vec![9, 9]).is_ok());
    let file = sink.finish();
    let parts = vec![
        Part { name: "upload".to_string(), metadata: meta(), body: PartBody::File(file) },
        text_part("count", "abc"),
    ];
    let out = assemble(&s, parts, false);
    assert!(out.result.is_err(), "conversion failure aborts the run");
    assert_eq!(out.reclaim.len(), 1);
    assert_eq!(out.reclaim[0].path(), "/tmp/upload-002");
}

#[test]
fn successful_assembly_places_the_file_in_the_record() {
    let s = shape(vec![desc("upload", Cardinality::Required, FieldType::Disk)]);
    let mut sink = TempSink::open("/tmp/upload-003".to_string());
    assert!(sink.record_chunk(&vec![7]).is_ok());
    let file = sink.finish();
    let parts = vec![Part {
        name: "upload".to_string(),
        metadata: meta(),
        body: PartBody::File(file),
    }];
    let out = assemble(&s, parts, false);
    let record = out.result.ok().expect("expected a record");
    assert!(out.reclaim.is_empty());
    match &record.slots[0] {
        SlotValue::Single(Value::File(f)) => {
            assert_eq!(f.path(), "/tmp/upload-003");
            assert_eq!(f.len(), 1);
        },
        _ => panic!("expected the streamed file in the slot"),
    }
}
