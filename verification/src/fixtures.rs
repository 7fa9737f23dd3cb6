//! Schemas and rows of fixed shape, for exercising the engine.

use crate::column_schema::{ColumnId, ColumnSchema, DefaultValue};
use crate::datum::{Datum, DatumKind, DatumView};
use crate::projected_schema::ProjectedSchema;
use crate::record_batch::{RecordBatchWithKey, RecordBatchWithKeyBuilder};
use crate::row::Row;
use crate::schema::{has_name, Schema, TSID_COLUMN};
use vstd::prelude::*;
use vstd::slice::slice_to_vec;
use vstd::string::*;

verus! {

/// `c` is the column of that id, name and kind, with the flags given, without
/// comment.
pub open spec fn is_column(
    c: ColumnSchema,
    id: ColumnId,
    name: Seq<char>,
    kind: DatumKind,
    is_nullable: bool,
    is_tag: bool,
    is_dictionary: bool,
) -> bool {
    &&& c.id == id
    &&& c.name@ == name
    &&& c.data_type == kind
    &&& c.is_nullable == is_nullable
    &&& c.is_tag == is_tag
    &&& c.is_dictionary == is_dictionary
    &&& c.comment@ == Seq::<char>::empty()
}

/// The columns are `key1` (varbinary) and `key2` (timestamp), then the
/// nullable `field1` (double), `field2` (string), `field3` (date) and
/// `field4` (time), under the ids 1 to 6 and without default values.
pub open spec fn is_base_columns(columns: Seq<ColumnSchema>) -> bool {
    &&& columns.len() >= 6
    &&& is_column(columns[0], 1, "key1"@, DatumKind::Varbinary, false, false, false)
    &&& is_column(columns[1], 2, "key2"@, DatumKind::Timestamp, false, false, false)
    &&& is_column(columns[2], 3, "field1"@, DatumKind::Double, true, false, false)
    &&& is_column(columns[3], 4, "field2"@, DatumKind::String, true, false, false)
    &&& is_column(columns[4], 5, "field3"@, DatumKind::Date, true, false, false)
    &&& is_column(columns[5], 6, "field4"@, DatumKind::Time, true, false, false)
    &&& forall|i: int| 0 <= i < 6 ==> (#[trigger] columns[i]).default_value.is_none()
}

proof fn lemma_names_differ()
    ensures
        "key1"@ != "key2"@,
        "key1"@ != "field1"@,
        "key1"@ != "field2"@,
        "key1"@ != "field3"@,
        "key1"@ != "field4"@,
        "key1"@ != "field5"@,
        "key1"@ != "tag1"@,
        "key1"@ != "tag2"@,
        "key1"@ != "tsid"@,
        "key2"@ != "field1"@,
        "key2"@ != "field2"@,
        "key2"@ != "field3"@,
        "key2"@ != "field4"@,
        "key2"@ != "field5"@,
        "key2"@ != "tag1"@,
        "key2"@ != "tag2"@,
        "key2"@ != "tsid"@,
        "field1"@ != "field2"@,
        "field1"@ != "field3"@,
        "field1"@ != "field4"@,
        "field1"@ != "field5"@,
        "field1"@ != "tag1"@,
        "field1"@ != "tag2"@,
        "field1"@ != "tsid"@,
        "field2"@ != "field3"@,
        "field2"@ != "field4"@,
        "field2"@ != "field5"@,
        "field2"@ != "tag1"@,
        "field2"@ != "tag2"@,
        "field2"@ != "tsid"@,
        "field2"@ != "time"@,
        "field2"@ != "value"@,
        "field3"@ != "field4"@,
        "field3"@ != "field5"@,
        "field3"@ != "tag1"@,
        "field3"@ != "tag2"@,
        "field3"@ != "tsid"@,
        "field4"@ != "field5"@,
        "field4"@ != "tag1"@,
        "field4"@ != "tag2"@,
        "field4"@ != "tsid"@,
        "field5"@ != "tsid"@,
        "tag1"@ != "tag2"@,
        "tag1"@ != "tsid"@,
        "tag1"@ != "time"@,
        "tag1"@ != "value"@,
        "tag2"@ != "tsid"@,
        "tag2"@ != "time"@,
        "tag2"@ != "value"@,
        "tsid"@ != "time"@,
        "tsid"@ != "value"@,
        "time"@ != "value"@,
{
    reveal_strlit("key1");
    reveal_strlit("key2");
    reveal_strlit("field1");
    reveal_strlit("field2");
    reveal_strlit("field3");
    reveal_strlit("field4");
    reveal_strlit("field5");
    reveal_strlit("tag1");
    reveal_strlit("tag2");
    reveal_strlit("tsid");
    reveal_strlit("time");
    reveal_strlit("value");
    assert("key1"@[3] != "key2"@[3]);
    assert("field1"@[5] != "field2"@[5]);
    assert("field1"@[5] != "field3"@[5]);
    assert("field1"@[5] != "field4"@[5]);
    assert("field1"@[5] != "field5"@[5]);
    assert("field2"@[5] != "field3"@[5]);
    assert("field2"@[5] != "field4"@[5]);
    assert("field2"@[5] != "field5"@[5]);
    assert("field3"@[5] != "field4"@[5]);
    assert("field3"@[5] != "field5"@[5]);
    assert("field4"@[5] != "field5"@[5]);
    assert("tag1"@[3] != "tag2"@[3]);
    assert("key1"@[0] != "tag1"@[0]);
    assert("key1"@[0] != "tag2"@[0]);
    assert("key1"@[0] != "tsid"@[0]);
    assert("key2"@[0] != "tag1"@[0]);
    assert("key2"@[0] != "tag2"@[0]);
    assert("key2"@[0] != "tsid"@[0]);
    assert("tag1"@[1] != "tsid"@[1]);
    assert("tag2"@[1] != "tsid"@[1]);
    assert("tag1"@[1] != "time"@[1]);
    assert("tag2"@[1] != "time"@[1]);
    assert("tsid"@[1] != "time"@[1]);
    assert("key1"@.len() != "field1"@.len());
    assert("tag1"@.len() != "value"@.len());
    assert("time"@.len() != "value"@.len());
    assert("field2"@.len() != "value"@.len());
}

/// A column of that name and kind, with the flags given, without id, comment
/// or default value.
fn column(name: &str, kind: DatumKind, is_nullable: bool, is_tag: bool, is_dictionary: bool) -> (c:
    ColumnSchema)
    requires
        is_tag ==> kind.spec_is_key_kind(),
        is_dictionary ==> kind.spec_is_dictionary_kind(),
    ensures
        is_column(c, 0, name@, kind, is_nullable, is_tag, is_dictionary),
        c.default_value.is_none(),
{
    crate::column_schema::Builder::new(String::from_str(name), kind).is_nullable(
        is_nullable,
    ).is_tag(is_tag).is_dictionary(is_dictionary).build().unwrap()
}

/// A column of that name and kind that is neither nullable nor a tag, with
/// the default value given.
fn column_with_default(name: &str, kind: DatumKind, default_value: DefaultValue) -> (c:
    ColumnSchema)
    ensures
        is_column(c, 0, name@, kind, false, false, false),
        c.default_value == Some(default_value),
{
    crate::column_schema::Builder::new(String::from_str(name), kind).default_value(
        Some(default_value),
    ).build().unwrap()
}

/// The builder of the base schema: the columns `key1` and `key2` of the key,
/// then `field1` to `field4`.
pub fn base_schema_builder() -> (b: crate::schema::Builder)
    ensures
        b.wf(),
        b.columns@.len() == 6,
        is_base_columns(b.columns@),
        b.num_key_columns == 2,
        b.timestamp_index == Some(1usize),
        b.version == 1,
        b.auto_increment_column_id,
        b.max_column_id == 6,
{
    proof {
        lemma_names_differ();
    }
    let b = crate::schema::Builder::new().auto_increment_column_id(true);
    let b = b.add_key_column(column("key1", DatumKind::Varbinary, false, false, false)).unwrap();
    let b = b.add_key_column(column("key2", DatumKind::Timestamp, false, false, false)).unwrap();
    let b = b.add_normal_column(column("field1", DatumKind::Double, true, false, false)).unwrap();
    let b = b.add_normal_column(column("field2", DatumKind::String, true, false, false)).unwrap();
    let b = b.add_normal_column(column("field3", DatumKind::Date, true, false, false)).unwrap();
    let b = b.add_normal_column(column("field4", DatumKind::Time, true, false, false)).unwrap();
    b
}

/// A schema of six columns: `key1` (varbinary) and `key2` (timestamp) of the
/// key, then the nullable `field1` (double), `field2` (string), `field3`
/// (date) and `field4` (time).
pub fn build_schema() -> (schema: Schema)
    ensures
        schema@.wf(),
        schema@.columns.len() == 6,
        is_base_columns(schema@.columns),
        schema@.num_key_columns == 2,
        schema@.timestamp_index == 1,
        schema@.version == 1,
        schema@.tsid_index.is_none(),
{
    let b = base_schema_builder();
    proof {
        lemma_names_differ();
        lemma_base_has_no_tsid(b.columns@);
    }
    b.build().unwrap()
}

proof fn lemma_base_has_no_tsid(columns: Seq<ColumnSchema>)
    requires
        columns.len() == 6,
        is_base_columns(columns),
    ensures
        !has_name(columns, TSID_COLUMN@),
{
    lemma_names_differ();
    assert forall|i: int| 0 <= i < columns.len() implies (#[trigger] columns[i]).name@
        != TSID_COLUMN@ by {
        if i == 0 {
        } else if i == 1 {
        } else if i == 2 {
        } else if i == 3 {
        } else if i == 4 {
        } else {
        }
    }
}

/// The default value `left + right` of two expressions.
fn plus(left: DefaultValue, right: DefaultValue) -> (sum: DefaultValue)
    ensures
        sum == DefaultValue::Plus(Box::new(left), Box::new(right)),
{
    DefaultValue::Plus(Box::new(left), Box::new(right))
}

/// The number literal of that text.
fn number(text: &str) -> (value: DefaultValue)
    ensures
        value matches DefaultValue::Number(t) && t@ == text@,
{
    DefaultValue::Number(String::from_str(text))
}

/// The columns are `key1` (varbinary) and `key2` (timestamp), then `field1`
/// (int64, default 10), `field2` (uint32, default 20), `field3` (uint32,
/// default 1 + 2), `field4` (uint32, no default) and `field5` (uint32,
/// default field4 + 2), under the ids 1 to 7; none is nullable.
pub open spec fn is_default_value_columns(columns: Seq<ColumnSchema>) -> bool {
    &&& columns.len() == 7
    &&& is_column(columns[0], 1, "key1"@, DatumKind::Varbinary, false, false, false)
    &&& is_column(columns[1], 2, "key2"@, DatumKind::Timestamp, false, false, false)
    &&& is_column(columns[2], 3, "field1"@, DatumKind::Int64, false, false, false)
    &&& is_column(columns[3], 4, "field2"@, DatumKind::UInt32, false, false, false)
    &&& is_column(columns[4], 5, "field3"@, DatumKind::UInt32, false, false, false)
    &&& is_column(columns[5], 6, "field4"@, DatumKind::UInt32, false, false, false)
    &&& is_column(columns[6], 7, "field5"@, DatumKind::UInt32, false, false, false)
    &&& columns[0].default_value.is_none()
    &&& columns[1].default_value.is_none()
    &&& columns[2].default_value matches Some(DefaultValue::Number(t)) && t@ == "10"@
    &&& columns[3].default_value matches Some(DefaultValue::Number(t)) && t@ == "20"@
    &&& columns[4].default_value matches Some(DefaultValue::Plus(l, r))
        && (*l matches DefaultValue::Number(
        t,
    ) && t@ == "1"@) && (*r matches DefaultValue::Number(t) && t@ == "2"@)
    &&& columns[5].default_value.is_none()
    &&& columns[6].default_value matches Some(DefaultValue::Plus(l, r)) && (
    *l matches DefaultValue::Identifier(t) && t@ == "field4"@) && (*r matches DefaultValue::Number(
        t,
    ) && t@ == "2"@)
}

/// The builder of the schema with default values.
pub fn default_value_schema_builder() -> (b: crate::schema::Builder)
    ensures
        b.wf(),
        is_default_value_columns(b.columns@),
        b.num_key_columns == 2,
        b.timestamp_index == Some(1usize),
        b.version == 1,
{
    proof {
        lemma_names_differ();
    }
    let b = crate::schema::Builder::new().auto_increment_column_id(true);
    let b = b.add_key_column(column("key1", DatumKind::Varbinary, false, false, false)).unwrap();
    let b = b.add_key_column(column("key2", DatumKind::Timestamp, false, false, false)).unwrap();
    // The kind of the column and that of its default value are the same.
    let b = b.add_normal_column(
        column_with_default("field1", DatumKind::Int64, number("10")),
    ).unwrap();
    // The kind of the column and that of its default value differ.
    let b = b.add_normal_column(
        column_with_default("field2", DatumKind::UInt32, number("20")),
    ).unwrap();
    let b = b.add_normal_column(
        column_with_default("field3", DatumKind::UInt32, plus(number("1"), number("2"))),
    ).unwrap();
    let b = b.add_normal_column(column("field4", DatumKind::UInt32, false, false, false)).unwrap();
    let b = b.add_normal_column(
        column_with_default(
            "field5",
            DatumKind::UInt32,
            plus(DefaultValue::Identifier(String::from_str("field4")), number("2")),
        ),
    ).unwrap();
    b
}

/// A schema of seven columns: `key1` (varbinary) and `key2` (timestamp) of
/// the key, then `field1` (int64, default 10), `field2` (uint32, default 20),
/// `field3` (uint32, default 1 + 2), `field4` (uint32) and `field5` (uint32,
/// default field4 + 2).
pub fn build_default_value_schema() -> (schema: Schema)
    ensures
        schema@.wf(),
        is_default_value_columns(schema@.columns),
        schema@.num_key_columns == 2,
        schema@.timestamp_index == 1,
        schema@.version == 1,
{
    default_value_schema_builder().build().unwrap()
}

/// A schema of eight columns: those of the base schema, then the tags `tag1`
/// (nullable) and `tag2`, both dictionary encoded strings.
pub fn build_schema_with_dictionary() -> (schema: Schema)
    ensures
        schema@.wf(),
        schema@.columns.len() == 8,
        is_base_columns(schema@.columns),
        is_column(schema@.columns[6], 7, "tag1"@, DatumKind::String, true, true, true),
        is_column(schema@.columns[7], 8, "tag2"@, DatumKind::String, false, true, true),
        schema@.num_key_columns == 2,
        schema@.timestamp_index == 1,
        schema@.version == 1,
{
    proof {
        lemma_names_differ();
    }
    let builder = base_schema_builder();
    let builder = builder.add_normal_column(
        column("tag1", DatumKind::String, true, true, true),
    ).unwrap();
    let builder = builder.add_normal_column(
        column("tag2", DatumKind::String, false, true, true),
    ).unwrap();
    builder.build().unwrap()
}

/// A schema of six columns: `tsid` (uint64) and `time` (timestamp) of the
/// key, then the tags `tag1` and `tag2` (string), `value` (int8) and `field2`
/// (float).
pub fn build_schema_for_cpu() -> (schema: Schema)
    ensures
        schema@.wf(),
        schema@.columns.len() == 6,
        is_column(schema@.columns[0], 1, "tsid"@, DatumKind::UInt64, false, false, false),
        is_column(schema@.columns[1], 2, "time"@, DatumKind::Timestamp, false, false, false),
        is_column(schema@.columns[2], 3, "tag1"@, DatumKind::String, false, true, false),
        is_column(schema@.columns[3], 4, "tag2"@, DatumKind::String, false, true, false),
        is_column(schema@.columns[4], 5, "value"@, DatumKind::Int8, false, false, false),
        is_column(schema@.columns[5], 6, "field2"@, DatumKind::Float, false, false, false),
        schema@.num_key_columns == 2,
        schema@.timestamp_index == 1,
        schema@.tsid_index == Some(0nat),
        schema@.version == 1,
{
    proof {
        lemma_names_differ();
    }
    let builder = crate::schema::Builder::new().auto_increment_column_id(true);
    let builder = builder.add_key_column(
        column(TSID_COLUMN, DatumKind::UInt64, false, false, false),
    ).unwrap();
    let builder = builder.add_key_column(
        column("time", DatumKind::Timestamp, false, false, false),
    ).unwrap();
    let builder = builder.add_normal_column(
        column("tag1", DatumKind::String, false, true, false),
    ).unwrap();
    let builder = builder.add_normal_column(
        column("tag2", DatumKind::String, false, true, false),
    ).unwrap();
    let builder = builder.add_normal_column(
        column("value", DatumKind::Int8, false, false, false),
    ).unwrap();
    let builder = builder.add_normal_column(
        column("field2", DatumKind::Float, false, false, false),
    ).unwrap();
    let schema = builder.build().unwrap();
    proof {
        assert(schema@.columns[0].name@ == TSID_COLUMN@);
        assert(has_name(schema@.columns, TSID_COLUMN@));
    }
    schema
}

/// The string, or null where there is none.
fn string_or_null(value: Option<&str>) -> (datum: Datum)
    ensures
        datum@ == match value {
            Some(v) => DatumView::String(v@),
            None => DatumView::Null,
        },
{
    match value {
        Some(v) => Datum::String(String::from_str(v)),
        None => Datum::Null,
    }
}

/// A row of the schema with dictionary. The double is given by its bits.
pub fn build_row_for_dictionary(
    key1: &[u8],
    key2: i64,
    field1: u64,
    field2: &str,
    field3: i32,
    field4: i64,
    tag1: Option<&str>,
    tag2: &str,
) -> (row: Row)
    ensures
        row@ == seq![
            DatumView::Varbinary(key1@),
            DatumView::Timestamp(key2),
            DatumView::Double(field1),
            DatumView::String(field2@),
            DatumView::Date(field3),
            DatumView::Time(field4),
            match tag1 {
                Some(v) => DatumView::String(v@),
                None => DatumView::Null,
            },
            DatumView::String(tag2@),
        ],
{
    let mut datums: Vec<Datum> = Vec::new();
    datums.push(Datum::Varbinary(slice_to_vec(key1)));
    datums.push(Datum::Timestamp(key2));
    datums.push(Datum::Double(field1));
    datums.push(Datum::String(String::from_str(field2)));
    datums.push(Datum::Date(field3));
    datums.push(Datum::Time(field4));
    datums.push(string_or_null(tag1));
    datums.push(Datum::String(String::from_str(tag2)));
    let row = Row::from_datums(datums);
    proof {
        assert(row@ =~= seq![
            DatumView::Varbinary(key1@),
            DatumView::Timestamp(key2),
            DatumView::Double(field1),
            DatumView::String(field2@),
            DatumView::Date(field3),
            DatumView::Time(field4),
            match tag1 {
                Some(v) => DatumView::String(v@),
                None => DatumView::Null,
            },
            DatumView::String(tag2@),
        ]);
    }
    row
}

/// A row of the schema of `build_schema_for_cpu`. The float is given by its
/// bits.
pub fn build_row_for_cpu(
    tsid: u64,
    ts: i64,
    tag1: &str,
    tag2: &str,
    value: i8,
    field2: u32,
) -> (row: Row)
    ensures
        row@ == seq![
            DatumView::UInt64(tsid),
            DatumView::Timestamp(ts),
            DatumView::String(tag1@),
            DatumView::String(tag2@),
            DatumView::Int8(value),
            DatumView::Float(field2),
        ],
{
    let mut datums: Vec<Datum> = Vec::new();
    datums.push(Datum::UInt64(tsid));
    datums.push(Datum::Timestamp(ts));
    datums.push(Datum::String(String::from_str(tag1)));
    datums.push(Datum::String(String::from_str(tag2)));
    datums.push(Datum::Int8(value));
    datums.push(Datum::Float(field2));
    let row = Row::from_datums(datums);
    proof {
        assert(row@ =~= seq![
            DatumView::UInt64(tsid),
            DatumView::Timestamp(ts),
            DatumView::String(tag1@),
            DatumView::String(tag2@),
            DatumView::Int8(value),
            DatumView::Float(field2),
        ]);
    }
    row
}

/// The base schema without its last column.
pub fn build_projected_schema() -> (projected: ProjectedSchema)
    ensures
        projected.wf(),
        projected.schema@.columns.len() == 6,
        is_base_columns(projected.schema@.columns),
        projected.schema@.num_key_columns == 2,
        projected.projection matches Some(p) && p@ == seq![0usize, 1, 2, 3, 4],
{
    let schema = build_schema();
    let n = schema.num_columns();
    let mut projection: Vec<usize> = Vec::new();
    let mut i: usize = 0;
    while i < n - 1
        invariant
            n == 6,
            i <= n - 1,
            projection@ == Seq::new(i as nat, |k: int| k as usize),
        decreases n - 1 - i,
    {
        projection.push(i);
        proof {
            assert(projection@ =~= Seq::new((i + 1) as nat, |k: int| k as usize));
        }
        i += 1;
    }
    proof {
        assert(projection@ =~= seq![0usize, 1, 2, 3, 4]);
        assert(crate::projected_schema::first_invalid(projection@, 6) == None::<usize>) by {
            reveal_with_fuel(crate::projected_schema::first_invalid, 6);
        }
    }
    ProjectedSchema::new(schema, Some(projection)).unwrap()
}

/// The values of a row of the base schema, each field null where there is
/// none.
pub open spec fn base_row(
    key1: Seq<u8>,
    key2: i64,
    field1: Option<u64>,
    field2: Option<Seq<char>>,
    field3: Option<i32>,
    field4: Option<i64>,
) -> Seq<DatumView> {
    seq![
        DatumView::Varbinary(key1),
        DatumView::Timestamp(key2),
        match field1 {
            Some(v) => DatumView::Double(v),
            None => DatumView::Null,
        },
        match field2 {
            Some(v) => DatumView::String(v),
            None => DatumView::Null,
        },
        match field3 {
            Some(v) => DatumView::Date(v),
            None => DatumView::Null,
        },
        match field4 {
            Some(v) => DatumView::Time(v),
            None => DatumView::Null,
        },
    ]
}

/// A row of the base schema. The double is given by its bits.
pub fn build_row(
    key1: &[u8],
    key2: i64,
    field1: u64,
    field2: &str,
    field3: i32,
    field4: i64,
) -> (row: Row)
    ensures
        row@ == base_row(key1@, key2, Some(field1), Some(field2@), Some(field3), Some(field4)),
{
    build_row_opt(key1, key2, Some(field1), Some(field2), Some(field3), Some(field4))
}

/// A row of the base schema, with a null for each field that is not given.
/// The double is given by its bits.
pub fn build_row_opt(
    key1: &[u8],
    key2: i64,
    field1: Option<u64>,
    field2: Option<&str>,
    field3: Option<i32>,
    field4: Option<i64>,
) -> (row: Row)
    ensures
        row@ == base_row(
            key1@,
            key2,
            field1,
            match field2 {
                Some(v) => Some(v@),
                None => None,
            },
            field3,
            field4,
        ),
{
    let mut datums: Vec<Datum> = Vec::new();
    datums.push(Datum::Varbinary(slice_to_vec(key1)));
    datums.push(Datum::Timestamp(key2));
    datums.push(
        match field1 {
            Some(v) => Datum::Double(v),
            None => Datum::Null,
        },
    );
    datums.push(string_or_null(field2));
    datums.push(
        match field3 {
            Some(v) => Datum::Date(v),
            None => Datum::Null,
        },
    );
    datums.push(
        match field4 {
            Some(v) => Datum::Time(v),
            None => Datum::Null,
        },
    );
    let row = Row::from_datums(datums);
    proof {
        assert(row@ =~= base_row(
            key1@,
            key2,
            field1,
            match field2 {
                Some(v) => Some(v@),
                None => None,
            },
            field3,
            field4,
        ));
    }
    row
}

/// The bits of the double 10.0.
pub const DOUBLE_10: u64 = 0x4024000000000000;

/// The bits of the double 11.0.
pub const DOUBLE_11: u64 = 0x4026000000000000;

/// The bits of the double 13.0.
pub const DOUBLE_13: u64 = 0x402A000000000000;

/// Five rows of the base schema with ascending keys; the last three leave
/// fields out.
pub fn build_rows() -> (rows: Vec<Row>)
    ensures
        rows@.len() == 5,
        rows@[0]@ == base_row(
            "binary key".spec_bytes(),
            1000000,
            Some(DOUBLE_10),
            Some("string value"@),
            Some(0i32),
            Some(0i64),
        ),
        rows@[1]@ == base_row(
            "binary key1".spec_bytes(),
            1000001,
            Some(DOUBLE_11),
            Some("string value 1"@),
            Some(1000i32),
            Some(1000000i64),
        ),
        rows@[2]@ == base_row(
            "binary key2".spec_bytes(),
            1000002,
            None,
            Some("string value 2"@),
            Some(1000i32),
            Some(1000000i64),
        ),
        rows@[3]@ == base_row(
            "binary key3".spec_bytes(),
            1000003,
            Some(DOUBLE_13),
            None,
            Some(1000i32),
            None,
        ),
        rows@[4]@ == base_row("binary key4".spec_bytes(), 1000004, None, None, None, Some(1000000i64)),
{
    let mut rows: Vec<Row> = Vec::new();
    rows.push(build_row("binary key".as_bytes(), 1000000, DOUBLE_10, "string value", 0, 0));
    rows.push(
        build_row("binary key1".as_bytes(), 1000001, DOUBLE_11, "string value 1", 1000, 1000000),
    );
    rows.push(
        build_row_opt(
            "binary key2".as_bytes(),
            1000002,
            None,
            Some("string value 2"),
            Some(1000),
            Some(1000000),
        ),
    );
    rows.push(
        build_row_opt("binary key3".as_bytes(), 1000003, Some(DOUBLE_13), None, Some(1000), None),
    );
    rows.push(build_row_opt("binary key4".as_bytes(), 1000004, None, None, None, Some(1000000)));
    rows
}

/// A batch of the rows, with the columns of the base schema but the last. The
/// rows must have a datum for each column of the base schema.
pub fn build_record_batch_with_key_by_rows(rows: Vec<Row>) -> (batch: RecordBatchWithKey)
    requires
        forall|i: int| 0 <= i < rows@.len() ==> (#[trigger] rows@[i])@.len() == 6,
    ensures
        batch.wf(),
        batch.num_rows == rows@.len(),
        batch.columns@.len() == 5,
        batch.schema_with_key.num_key_columns == 2,
        forall|j: int, i: int|
            0 <= j < 5 && 0 <= i < rows@.len() ==> #[trigger] batch.cell(j, i) == rows@[i]@[j],
{
    let schema = build_schema();
    let n = schema.num_columns();
    let mut projection: Vec<usize> = Vec::new();
    let mut i: usize = 0;
    while i < n - 1
        invariant
            n == 6,
            i <= n - 1,
            projection@ == Seq::new(i as nat, |k: int| k as usize),
        decreases n - 1 - i,
    {
        projection.push(i);
        proof {
            assert(projection@ =~= Seq::new((i + 1) as nat, |k: int| k as usize));
        }
        i += 1;
    }
    proof {
        assert(projection@ =~= seq![0usize, 1, 2, 3, 4]);
        assert(crate::projected_schema::first_invalid(projection@, 6) == None::<usize>) by {
            reveal_with_fuel(crate::projected_schema::first_invalid, 6);
        }
    }
    let projected_schema = ProjectedSchema::new(schema, Some(projection)).unwrap();
    let row_projected_schema = projected_schema.try_project_with_key();
    proof {
        lemma_projection_of_base(projected_schema);
    }
    let mut builder = RecordBatchWithKeyBuilder::with_capacity(
        projected_schema.to_record_schema_with_key(),
        2,
    );
    let ghost indexes = row_projected_schema.source_projection@;
    let mut i: usize = 0;
    while i < rows.len()
        invariant
            i <= rows@.len(),
            forall|k: int| 0 <= k < rows@.len() ==> (#[trigger] rows@[k])@.len() == 6,
            indexes == row_projected_schema.source_projection@,
            indexes == seq![0usize, 1, 2, 3, 4],
            builder.wf(),
            builder.columns@.len() == 5,
            builder.schema_with_key.num_key_columns == 2,
            builder.num_rows == i,
            forall|j: int, k: int|
                0 <= j < 5 && 0 <= k < i ==> #[trigger] builder.columns@[j]@[k]@ == rows@[k]@[j],
        decreases rows@.len() - i,
    {
        let ghost before = builder.columns@;
        proof {
            assert(RecordBatchWithKeyBuilder::missing_index(rows@[i as int]@, indexes)
                == None::<usize>) by {
                reveal_with_fuel(RecordBatchWithKeyBuilder::missing_index, 6);
            }
        }
        let appended = builder.append_projected_row(&rows[i], &row_projected_schema);
        proof {
            assert(appended is Ok);
            assert forall|j: int, k: int| 0 <= j < 5 && 0 <= k < i + 1
                implies #[trigger] builder.columns@[j]@[k]@
                == rows@[k]@[j] by {
                let grown = crate::row::datum_views(builder.columns@[j]@);
                let old_column = crate::row::datum_views(before[j]@);
                assert(grown == old_column.push(rows@[i as int]@[indexes[j] as int]));
                assert(grown[k] == builder.columns@[j]@[k]@);
                if k < i {
                    assert(old_column[k] == before[j]@[k]@);
                    assert(grown[k] == old_column[k]);
                }
            }
        }
        i += 1;
    }
    builder.build()
}

proof fn lemma_projection_of_base(projected: ProjectedSchema)
    requires
        projected.schema@.num_key_columns == 2,
        projected.schema@.columns.len() == 6,
        projected.projection matches Some(p) && p@ == seq![0usize, 1, 2, 3, 4],
    ensures
        projected.spec_source_indexes() == seq![0usize, 1, 2, 3, 4],
{
    let p = projected.projection->Some_0@;
    let test = |p: usize| p >= 2;
    reveal(Seq::filter);
    let p1 = p.drop_last();
    let p2 = p1.drop_last();
    let p3 = p2.drop_last();
    let p4 = p3.drop_last();
    let p5 = p4.drop_last();
    assert(p5.len() == 0);
    assert(p5.filter(test) =~= Seq::<usize>::empty());
    assert(p4.filter(test) =~= Seq::<usize>::empty());
    assert(p3.filter(test) =~= Seq::<usize>::empty());
    assert(p2.filter(test) =~= seq![2usize]);
    assert(p1.filter(test) =~= seq![2usize, 3]);
    assert(p.filter(test) =~= seq![2usize, 3, 4]);
    assert(projected.spec_source_indexes() =~= seq![0usize, 1, 2, 3, 4]);
}

/// Whether the batch holds, in its first `column_num` columns, the first
/// `row_num` of the rows.
pub fn check_record_batch_with_key_with_rows(
    record_batch_with_key: &RecordBatchWithKey,
    row_num: usize,
    column_num: usize,
    rows: Vec<Row>,
) -> (same: bool)
    requires
        record_batch_with_key.wf(),
        rows@.len() > 0 && row_num > 0 ==> column_num <= record_batch_with_key.columns@.len(),
        column_num > 0 ==> rows@.len() <= record_batch_with_key.num_rows || row_num
            <= record_batch_with_key.num_rows,
        forall|i: int|
            0 <= i < rows@.len() && i < row_num ==> column_num <= (#[trigger] rows@[i])@.len(),
    ensures
        same == forall|i: int, j: int|
            0 <= i < rows@.len() && i < row_num && 0 <= j < column_num ==> rows@[i]@[j]
                == #[trigger] record_batch_with_key.cell(j, i),
{
    let mut i: usize = 0;
    while i < rows.len() && i < row_num
        invariant
            record_batch_with_key.wf(),
            rows@.len() > 0 && row_num > 0 ==> column_num <= record_batch_with_key.columns@.len(),
            column_num > 0 ==> rows@.len() <= record_batch_with_key.num_rows || row_num
                <= record_batch_with_key.num_rows,
            forall|k: int|
                0 <= k < rows@.len() && k < row_num ==> column_num <= (#[trigger] rows@[k])@.len(),
            i <= rows@.len(),
            i <= row_num,
            forall|k: int, j: int|
                0 <= k < i && 0 <= j < column_num ==> rows@[k]@[j]
                    == #[trigger] record_batch_with_key.cell(j, k),
        decreases rows@.len() - i,
    {
        let row = &rows[i];
        let mut j: usize = 0;
        while j < column_num
            invariant
                record_batch_with_key.wf(),
                column_num <= record_batch_with_key.columns@.len(),
                column_num > 0 ==> i < record_batch_with_key.num_rows,
                column_num <= row@.len(),
                *row == rows@[i as int],
                i < rows@.len(),
                i < row_num,
                j <= column_num,
                forall|c: int|
                    0 <= c < j ==> row@[c] == #[trigger] record_batch_with_key.cell(c, i as int),
            decreases column_num - j,
        {
            let column = record_batch_with_key.column(j);
            let datum = row.get(j);
            let datum2 = &column[i];
            if !datum.equals(datum2) {
                proof {
                    assert(rows@[i as int]@[j as int] != record_batch_with_key.cell(
                        j as int,
                        i as int,
                    ));
                }
                return false;
            }
            j += 1;
        }
        i += 1;
    }
    true
}

} // verus!
