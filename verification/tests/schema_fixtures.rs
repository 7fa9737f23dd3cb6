use analytic_engine::column_schema::{self, ColumnSchema, DefaultValue};
use analytic_engine::datum::{Datum, DatumKind};
use analytic_engine::fixtures::{
    base_schema_builder, build_default_value_schema, build_projected_schema,
    build_record_batch_with_key_by_rows, build_row, build_row_for_cpu, build_row_for_dictionary,
    build_row_opt, build_rows, build_schema, build_schema_for_cpu, build_schema_with_dictionary,
    check_record_batch_with_key_with_rows, default_value_schema_builder, DOUBLE_10, DOUBLE_11,
    DOUBLE_13,
};
use analytic_engine::projected_schema::{self, ProjectedSchema};
use analytic_engine::proto::TableSchemaPb;
use analytic_engine::schema::{self, Schema};

fn names(schema: &Schema) -> Vec<String> {
    schema.columns.iter().map(|c| c.name.clone()).collect()
}

fn plain(name: &str, kind: DatumKind) -> ColumnSchema {
    column_schema::Builder::new(name.to_string(), kind).build().unwrap()
}

#[test]
fn build_schema_has_two_key_columns_and_four_nullable_fields() {
    let schema = build_schema();
    assert_eq!(names(&schema), ["key1", "key2", "field1", "field2", "field3", "field4"]);
    assert_eq!(schema.num_columns(), 6);
    assert_eq!(schema.num_key_columns(), 2);
    assert_eq!(schema.timestamp_index(), 1);
    assert_eq!(schema.index_of_tsid(), None);
    assert_eq!(schema.version(), 1);
    let kinds: Vec<DatumKind> = schema.columns.iter().map(|c| c.data_type).collect();
    assert_eq!(
        kinds,
        [
            DatumKind::Varbinary,
            DatumKind::Timestamp,
            DatumKind::Double,
            DatumKind::String,
            DatumKind::Date,
            DatumKind::Time
        ]
    );
    let ids: Vec<u32> = schema.columns.iter().map(|c| c.id).collect();
    assert_eq!(ids, [1, 2, 3, 4, 5, 6]);
    let nullable: Vec<bool> = schema.columns.iter().map(|c| c.is_nullable).collect();
    assert_eq!(nullable, [false, false, true, true, true, true]);
    assert!(schema.columns.iter().all(|c| c.default_value.is_none() && !c.is_tag));
    assert_eq!(schema.index_of("field3"), Some(4));
    assert_eq!(schema.index_of("nothing"), None);
    assert_eq!(schema.column(3).name, "field2");
}

#[test]
fn base_schema_builder_gives_out_six_ids() {
    let builder = base_schema_builder();
    assert_eq!(builder.columns.len(), 6);
    assert_eq!(builder.num_key_columns, 2);
    assert_eq!(builder.timestamp_index, Some(1));
    assert_eq!(builder.max_column_id, 6);
    assert!(builder.auto_increment_column_id);
}

#[test]
fn build_default_value_schema_carries_the_default_expressions() {
    let schema = build_default_value_schema();
    assert_eq!(
        names(&schema),
        ["key1", "key2", "field1", "field2", "field3", "field4", "field5"]
    );
    assert_eq!(schema.columns[2].data_type, DatumKind::Int64);
    assert_eq!(schema.columns[2].default_value, Some(DefaultValue::Number("10".to_string())));
    assert_eq!(schema.columns[3].data_type, DatumKind::UInt32);
    assert_eq!(schema.columns[3].default_value, Some(DefaultValue::Number("20".to_string())));
    assert_eq!(
        schema.columns[4].default_value,
        Some(DefaultValue::Plus(
            Box::new(DefaultValue::Number("1".to_string())),
            Box::new(DefaultValue::Number("2".to_string()))
        ))
    );
    assert_eq!(schema.columns[5].default_value, None);
    assert_eq!(
        schema.columns[6].default_value,
        Some(DefaultValue::Plus(
            Box::new(DefaultValue::Identifier("field4".to_string())),
            Box::new(DefaultValue::Number("2".to_string()))
        ))
    );
    assert!(schema.columns.iter().all(|c| !c.is_nullable));
    assert_eq!(default_value_schema_builder().columns.len(), 7);
}

#[test]
fn build_schema_with_dictionary_adds_two_dictionary_tags() {
    let schema = build_schema_with_dictionary();
    assert_eq!(schema.num_columns(), 8);
    assert_eq!(names(&schema)[6..], ["tag1", "tag2"]);
    for i in [6usize, 7] {
        assert_eq!(schema.columns[i].data_type, DatumKind::String);
        assert!(schema.columns[i].is_tag);
        assert!(schema.columns[i].is_dictionary);
        assert_eq!(schema.columns[i].id, i as u32 + 1);
    }
    assert!(schema.columns[6].is_nullable);
    assert!(!schema.columns[7].is_nullable);
}

#[test]
fn build_schema_for_cpu_keys_by_series_and_time() {
    let schema = build_schema_for_cpu();
    assert_eq!(names(&schema), ["tsid", "time", "tag1", "tag2", "value", "field2"]);
    assert_eq!(schema.num_key_columns(), 2);
    assert_eq!(schema.timestamp_index(), 1);
    assert_eq!(schema.index_of_tsid(), Some(0));
    assert_eq!(schema.columns[0].data_type, DatumKind::UInt64);
    assert_eq!(schema.columns[4].data_type, DatumKind::Int8);
    assert_eq!(schema.columns[5].data_type, DatumKind::Float);
    assert!(schema.columns[2].is_tag && schema.columns[3].is_tag);
    assert!(!schema.columns[4].is_tag);
}

#[test]
fn build_projected_schema_leaves_out_the_last_column() {
    let projected = build_projected_schema();
    assert_eq!(projected.projection, Some(vec![0, 1, 2, 3, 4]));
    assert!(!projected.is_all_projection());
    let record_schema = projected.to_record_schema_with_key();
    assert_eq!(record_schema.num_key_columns, 2);
    let columns: Vec<String> = record_schema.columns.iter().map(|c| c.name.clone()).collect();
    assert_eq!(columns, ["key1", "key2", "field1", "field2", "field3"]);
    assert_eq!(projected.try_project_with_key().source_projection, vec![0, 1, 2, 3, 4]);
}

#[test]
fn projection_keeps_all_key_columns_and_the_order_asked_for() {
    let projected = ProjectedSchema::new(build_schema(), Some(vec![5, 1, 3])).unwrap();
    assert_eq!(projected.try_project_with_key().source_projection, vec![0, 1, 5, 3]);
    let all = ProjectedSchema::new(build_schema(), None).unwrap();
    assert!(all.is_all_projection());
    assert_eq!(all.try_project_with_key().source_projection, vec![0, 1, 2, 3, 4, 5]);
}

#[test]
fn projection_rejects_an_index_beyond_the_columns() {
    assert_eq!(
        ProjectedSchema::new(build_schema(), Some(vec![0, 6, 9])),
        Err(projected_schema::Error::InvalidProjectionIndex { index: 6 })
    );
}

#[test]
fn build_row_holds_the_values_in_column_order() {
    let row = build_row(b"k", 7, 10.0f64.to_bits(), "v", 3, 4);
    assert_eq!(
        row.cols,
        vec![
            Datum::Varbinary(b"k".to_vec()),
            Datum::Timestamp(7),
            Datum::Double(10.0f64.to_bits()),
            Datum::String("v".to_string()),
            Datum::Date(3),
            Datum::Time(4),
        ]
    );
    assert_eq!(row.num_columns(), 6);
    assert_eq!(row.get(1), &Datum::Timestamp(7));
    assert_eq!(row.clone(), row);
}

#[test]
fn build_row_opt_puts_null_for_missing_fields() {
    let row = build_row_opt(b"k", 7, None, None, Some(3), None);
    assert_eq!(
        row.cols,
        vec![
            Datum::Varbinary(b"k".to_vec()),
            Datum::Timestamp(7),
            Datum::Null,
            Datum::Null,
            Datum::Date(3),
            Datum::Null,
        ]
    );
}

#[test]
fn build_row_for_dictionary_and_for_cpu_follow_their_schemas() {
    let row = build_row_for_dictionary(b"k", 1, 2.5f64.to_bits(), "f", 2, 3, None, "t2");
    assert_eq!(row.num_columns(), build_schema_with_dictionary().num_columns());
    assert_eq!(row.cols[6], Datum::Null);
    assert_eq!(row.cols[7], Datum::String("t2".to_string()));
    let tagged = build_row_for_dictionary(b"k", 1, 0, "f", 2, 3, Some("t1"), "t2");
    assert_eq!(tagged.cols[6], Datum::String("t1".to_string()));
    let cpu = build_row_for_cpu(9, 100, "a", "b", -3, 1.5f32.to_bits());
    assert_eq!(
        cpu.cols,
        vec![
            Datum::UInt64(9),
            Datum::Timestamp(100),
            Datum::String("a".to_string()),
            Datum::String("b".to_string()),
            Datum::Int8(-3),
            Datum::Float(1.5f32.to_bits()),
        ]
    );
}

#[test]
fn build_rows_gives_five_rows_with_ascending_keys() {
    let rows = build_rows();
    assert_eq!(rows.len(), 5);
    assert_eq!(DOUBLE_10, 10.0f64.to_bits());
    assert_eq!(DOUBLE_11, 11.0f64.to_bits());
    assert_eq!(DOUBLE_13, 13.0f64.to_bits());
    assert_eq!(rows[0], build_row(b"binary key", 1000000, 10.0f64.to_bits(), "string value", 0, 0));
    assert_eq!(
        rows[1],
        build_row(b"binary key1", 1000001, 11.0f64.to_bits(), "string value 1", 1000, 1000000)
    );
    assert_eq!(
        rows[2],
        build_row_opt(
            b"binary key2",
            1000002,
            None,
            Some("string value 2"),
            Some(1000),
            Some(1000000)
        )
    );
    assert_eq!(
        rows[3],
        build_row_opt(b"binary key3", 1000003, Some(13.0f64.to_bits()), None, Some(1000), None)
    );
    assert_eq!(rows[4], build_row_opt(b"binary key4", 1000004, None, None, None, Some(1000000)));
}

#[test]
fn record_batch_holds_the_projected_columns_of_every_row() {
    let rows = build_rows();
    let batch = build_record_batch_with_key_by_rows(build_rows());
    assert_eq!(batch.num_rows(), 5);
    assert_eq!(batch.num_columns(), 5);
    for (i, row) in rows.iter().enumerate() {
        for j in 0..5 {
            assert_eq!(&batch.column(j)[i], row.get(j));
        }
    }
    assert!(check_record_batch_with_key_with_rows(&batch, 5, 5, build_rows()));
    assert!(check_record_batch_with_key_with_rows(&batch, 2, 3, build_rows()));
    assert!(check_record_batch_with_key_with_rows(&batch, 0, 5, build_rows()));
}

#[test]
fn check_record_batch_finds_a_differing_datum() {
    let batch = build_record_batch_with_key_by_rows(build_rows());
    let mut rows = build_rows();
    rows[3].cols[2] = Datum::Double(14.0f64.to_bits());
    // The difference lies in row 3: the first three rows still agree.
    assert!(check_record_batch_with_key_with_rows(&batch, 3, 5, build_rows()));
    let mut changed = build_rows();
    changed[3].cols[2] = Datum::Double(14.0f64.to_bits());
    assert!(!check_record_batch_with_key_with_rows(&batch, 5, 5, changed));
    // Columns beyond the count are not looked at.
    assert!(check_record_batch_with_key_with_rows(&batch, 5, 2, rows));
}

#[test]
fn datum_equality_is_by_kind_and_value() {
    assert!(Datum::Null.equals(&Datum::Null));
    assert!(Datum::Varbinary(vec![1, 2]).equals(&Datum::Varbinary(vec![1, 2])));
    assert!(!Datum::Varbinary(vec![1, 2]).equals(&Datum::Varbinary(vec![1, 3])));
    assert!(!Datum::Varbinary(vec![1]).equals(&Datum::Varbinary(vec![1, 3])));
    assert!(!Datum::Date(1).equals(&Datum::Int32(1)));
    assert!(!Datum::Time(1).equals(&Datum::Int64(1)));
    assert!(Datum::String("a".to_string()).equals(&Datum::String("a".to_string())));
    assert!(!Datum::String("a".to_string()).equals(&Datum::Null));
    assert_eq!(Datum::Float(7).kind(), DatumKind::Float);
    assert!(Datum::Null.is_null());
    assert!(!Datum::Boolean(false).is_null());
    assert_eq!(Datum::Varbinary(vec![5]).clone(), Datum::Varbinary(vec![5]));
}

#[test]
fn datum_kinds_that_may_be_keys() {
    assert!(!DatumKind::Null.is_key_kind());
    assert!(!DatumKind::Double.is_key_kind());
    assert!(!DatumKind::Float.is_key_kind());
    assert!(DatumKind::Timestamp.is_key_kind());
    assert!(DatumKind::Varbinary.is_key_kind());
    assert!(DatumKind::Boolean.is_key_kind());
    assert!(DatumKind::String.is_dictionary_kind());
    assert!(!DatumKind::Varbinary.is_dictionary_kind());
    assert!(DatumKind::Timestamp.is_timestamp());
}

#[test]
fn column_builder_rejects_a_tag_of_a_kind_that_no_key_holds() {
    let built = column_schema::Builder::new("t".to_string(), DatumKind::Double).is_tag(true).build();
    assert_eq!(built, Err(column_schema::Error::InvalidTagType { data_type: DatumKind::Double }));
}

#[test]
fn column_builder_rejects_a_dictionary_that_is_no_string() {
    let built = column_schema::Builder::new("t".to_string(), DatumKind::Int32)
        .is_dictionary(true)
        .build();
    assert_eq!(
        built,
        Err(column_schema::Error::InvalidDictionaryType { data_type: DatumKind::Int32 })
    );
    // The tag is checked before the dictionary.
    let both = column_schema::Builder::new("t".to_string(), DatumKind::Float)
        .is_tag(true)
        .is_dictionary(true)
        .build();
    assert_eq!(both, Err(column_schema::Error::InvalidTagType { data_type: DatumKind::Float }));
}

#[test]
fn column_builder_keeps_what_it_is_given() {
    let column = column_schema::Builder::new("c".to_string(), DatumKind::String)
        .id(9)
        .is_nullable(true)
        .is_tag(true)
        .is_dictionary(true)
        .comment("note".to_string())
        .default_value(Some(DefaultValue::Number("1".to_string())))
        .build()
        .unwrap();
    assert_eq!(column.id, 9);
    assert_eq!(column.name, "c");
    assert!(column.is_nullable && column.is_tag && column.is_dictionary);
    assert_eq!(column.comment, "note");
    assert_eq!(column.default_value, Some(DefaultValue::Number("1".to_string())));
    assert_eq!(column.clone(), column);
}

#[test]
fn schema_builder_rejects_a_second_column_of_a_name() {
    let builder = base_schema_builder();
    assert_eq!(
        builder.add_normal_column(plain("field2", DatumKind::Int32)).err(),
        Some(schema::Error::ColumnNameExists)
    );
}

#[test]
fn schema_builder_rejects_a_key_column_of_a_kind_that_no_key_holds() {
    let builder = schema::Builder::new().auto_increment_column_id(true);
    assert_eq!(
        builder.add_key_column(plain("k", DatumKind::Double)).err(),
        Some(schema::Error::KeyColumnType { kind: DatumKind::Double })
    );
}

#[test]
fn schema_builder_rejects_a_second_column_of_an_id() {
    let builder = schema::Builder::new();
    let first = column_schema::Builder::new("a".to_string(), DatumKind::Int32).id(4).build().unwrap();
    let second =
        column_schema::Builder::new("b".to_string(), DatumKind::Int32).id(4).build().unwrap();
    let builder = builder.add_normal_column(first).unwrap();
    assert_eq!(
        builder.add_normal_column(second).err(),
        Some(schema::Error::ColumnIdExists { id: 4 })
    );
}

#[test]
fn schema_builder_rejects_a_nullable_key_column() {
    let nullable = column_schema::Builder::new("k".to_string(), DatumKind::Int32)
        .is_nullable(true)
        .build()
        .unwrap();
    assert_eq!(
        schema::Builder::new().auto_increment_column_id(true).add_key_column(nullable).err(),
        Some(schema::Error::NullKeyColumn)
    );
}

#[test]
fn schema_builder_rejects_a_second_timestamp_key() {
    let builder = schema::Builder::new()
        .auto_increment_column_id(true)
        .add_key_column(plain("t1", DatumKind::Timestamp))
        .unwrap();
    assert_eq!(
        builder.add_key_column(plain("t2", DatumKind::Timestamp)).err(),
        Some(schema::Error::TimestampKeyExists)
    );
}

#[test]
fn schema_builder_asks_for_a_timestamp_key() {
    let builder = schema::Builder::new()
        .auto_increment_column_id(true)
        .add_key_column(plain("k", DatumKind::Int64))
        .unwrap()
        .add_normal_column(plain("t", DatumKind::Timestamp))
        .unwrap();
    assert_eq!(builder.build().err(), Some(schema::Error::MissingTimestampKey));
}

#[test]
fn schema_builder_reports_used_up_ids() {
    let last = column_schema::Builder::new("a".to_string(), DatumKind::Int32)
        .id(u32::MAX)
        .build()
        .unwrap();
    let builder =
        schema::Builder::new().auto_increment_column_id(true).add_normal_column(last).unwrap();
    assert_eq!(
        builder.add_normal_column(plain("b", DatumKind::Int32)).err(),
        Some(schema::Error::ColumnIdExhausted)
    );
}

#[test]
fn key_columns_stand_before_normal_columns() {
    let schema = schema::Builder::new()
        .auto_increment_column_id(true)
        .version(3)
        .add_normal_column(plain("v", DatumKind::Double))
        .unwrap()
        .add_key_column(plain("k", DatumKind::Int64))
        .unwrap()
        .add_key_column(plain("t", DatumKind::Timestamp))
        .unwrap()
        .build()
        .unwrap();
    assert_eq!(names(&schema), ["k", "t", "v"]);
    assert_eq!(schema.num_key_columns(), 2);
    assert_eq!(schema.timestamp_index(), 1);
    assert_eq!(schema.version(), 3);
    let ids: Vec<u32> = schema.columns.iter().map(|c| c.id).collect();
    assert_eq!(ids, [2, 3, 1]);
    assert_eq!(schema.clone(), schema);
}

#[test]
fn a_schema_survives_being_stored() {
    let schema = build_schema_with_dictionary();
    let pb = TableSchemaPb::from(schema.clone());
    assert_eq!(pb.num_key_columns, 2);
    assert_eq!(pb.version, 1);
    assert_eq!(Schema::try_from_pb(pb), Ok(schema));
}

#[test]
fn a_stored_schema_is_checked_anew() {
    let mut pb = TableSchemaPb::from(build_schema());
    pb.columns[4].name = "field1".to_string();
    assert_eq!(Schema::try_from_pb(pb), Err(schema::Error::ColumnNameExists));
    let mut no_key = TableSchemaPb::from(build_schema());
    no_key.num_key_columns = 1;
    assert_eq!(Schema::try_from_pb(no_key), Err(schema::Error::MissingTimestampKey));
    let mut all_keys = TableSchemaPb::from(build_schema());
    all_keys.num_key_columns = 3;
    assert_eq!(
        Schema::try_from_pb(all_keys),
        Err(schema::Error::KeyColumnType { kind: DatumKind::Double })
    );
}
