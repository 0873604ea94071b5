use std::collections::HashMap;
use std::future::Future;
use std::sync::Arc;
use std::task::{Context, Poll, Wake, Waker};

use avro_format::{
    AvroError, AvroFormat, AvroFormatFactory, DataKind, Field, Metadata, Precision, Schema,
};
use datafusion_common::parsers::CompressionTypeVariant;
use object_store::memory::InMemory;
use object_store::path::Path;
use object_store::{ObjectMeta, ObjectStore, PutPayload};

struct NoWake;

impl Wake for NoWake {
    fn wake(self: Arc<Self>) {}
}

fn run<F: Future>(f: F) -> F::Output {
    let waker = Waker::from(Arc::new(NoWake));
    let mut cx = Context::from_waker(&waker);
    let mut f = Box::pin(f);
    loop {
        if let Poll::Ready(v) = f.as_mut().poll(&mut cx) {
            return v;
        }
    }
}

fn object(name: &str, bytes: Vec<u8>) -> ObjectMeta {
    let store = InMemory::new();
    let path = Path::from(name);
    run(store.put(&path, PutPayload::from(bytes))).unwrap();
    run(store.head(&path)).unwrap()
}

fn field(path: &str, data_type: DataKind, nullable: bool) -> Field {
    Field::new(path.split('.').map(|c| c.to_string()).collect(), data_type, nullable)
}

fn summary(s: &Schema) -> Vec<(String, DataKind, bool)> {
    s.fields.iter().map(|f| (f.path.join("."), f.data_type, f.nullable)).collect()
}

fn sorted(mut v: Vec<(String, DataKind, bool)>) -> Vec<(String, DataKind, bool)> {
    v.sort_by(|a, b| a.0.cmp(&b.0));
    v
}

fn alltypes() -> Schema {
    Schema::new(vec![
        field("id", DataKind::Int32, true),
        field("bool_col", DataKind::Boolean, true),
        field("tinyint_col", DataKind::Int32, true),
        field("smallint_col", DataKind::Int32, true),
        field("int_col", DataKind::Int32, true),
        field("bigint_col", DataKind::Int64, true),
        field("float_col", DataKind::Float32, true),
        field("double_col", DataKind::Float64, true),
        field("date_string_col", DataKind::Binary, true),
        field("string_col", DataKind::Binary, true),
        field("timestamp_col", DataKind::TimestampMicrosecond, true),
    ])
}

#[test]
fn extension_is_bare_avro() {
    assert_eq!(AvroFormatFactory::new().get_ext(), "avro");
    assert_eq!(AvroFormat.get_ext(), "avro");
}

#[test]
fn uncompressed_extension_accepted() {
    let r = AvroFormat.get_ext_with_compression(&CompressionTypeVariant::UNCOMPRESSED);
    assert_eq!(r.unwrap(), "avro");
}

#[test]
fn compressed_extensions_rejected() {
    for v in [
        CompressionTypeVariant::GZIP,
        CompressionTypeVariant::BZIP2,
        CompressionTypeVariant::XZ,
        CompressionTypeVariant::ZSTD,
    ] {
        let r = AvroFormat.get_ext_with_compression(&v);
        assert!(matches!(r, Err(AvroError::UnsupportedCompression)));
    }
}

#[test]
fn unsupported_compression_message() {
    assert_eq!(
        AvroError::UnsupportedCompression.message(),
        "Avro FileFormat does not support compression."
    );
}

#[test]
fn factory_ignores_options() {
    let mut options = HashMap::new();
    options.insert("anything".to_string(), "value".to_string());
    let format = AvroFormatFactory::new().create(&options).unwrap();
    assert_eq!(format.get_ext(), "avro");
    assert_eq!(AvroFormatFactory::new().default_format().get_ext(), "avro");
}

#[test]
fn infer_schema_without_objects_fails() {
    let r = AvroFormat.infer_schema(&vec![]);
    assert!(matches!(r, Err(AvroError::NoSchema)));
}

#[test]
fn infer_schema_of_one_file_is_its_schema() {
    let merged = AvroFormat.infer_schema(&vec![alltypes()]).unwrap();
    assert_eq!(merged.num_fields(), 11);
    assert_eq!(summary(&merged), summary(&alltypes()));
}

#[test]
fn merge_conflicting_types_names_field() {
    let a = Schema::new(vec![field("id", DataKind::Int32, false), field("x", DataKind::Utf8, true)]);
    let b = Schema::new(vec![field("x", DataKind::Int64, true)]);
    match AvroFormat.infer_schema(&vec![a, b]) {
        Err(AvroError::SchemaConflict { field, existing, incoming }) => {
            assert_eq!(field, vec!["x".to_string()]);
            assert_eq!(existing, DataKind::Utf8);
            assert_eq!(incoming, DataKind::Int64);
        }
        _ => panic!("expected a conflict"),
    }
}

#[test]
fn conflict_message_names_field() {
    let a = Schema::new(vec![field("x", DataKind::Utf8, true)]);
    let b = Schema::new(vec![field("x", DataKind::Int64, true)]);
    let e = Schema::try_merge(&vec![a, b]).unwrap_err();
    assert_eq!(
        e.message(),
        "Fail to merge schema field 'x' because the from data_type = Int64 does not equal Utf8"
    );
}

#[test]
fn merge_superset_yields_superset() {
    let big = alltypes();
    let small = Schema::new(vec![
        field("bool_col", DataKind::Boolean, true),
        field("id", DataKind::Int32, true),
    ]);
    let m1 = Schema::try_merge(&vec![big.clone(), small.clone()]).unwrap();
    assert_eq!(summary(&m1), summary(&big));
    let m2 = Schema::try_merge(&vec![small, big.clone()]).unwrap();
    assert_eq!(sorted(summary(&m2)), sorted(summary(&big)));
    assert_eq!(m2.fields[0].path, vec!["bool_col".to_string()]);
}

#[test]
fn merge_is_order_independent_as_a_set() {
    let a = Schema::new(vec![field("a", DataKind::Int32, false), field("b", DataKind::Utf8, false)]);
    let b = Schema::new(vec![field("c", DataKind::Date32, true), field("a", DataKind::Int32, true)]);
    let c = Schema::new(vec![field("b", DataKind::Utf8, false), field("d", DataKind::Binary, false)]);
    let m1 = Schema::try_merge(&vec![a.clone(), b.clone(), c.clone()]).unwrap();
    let m2 = Schema::try_merge(&vec![c, b, a]).unwrap();
    assert_eq!(
        summary(&m1),
        vec![
            ("a".to_string(), DataKind::Int32, true),
            ("b".to_string(), DataKind::Utf8, false),
            ("c".to_string(), DataKind::Date32, true),
            ("d".to_string(), DataKind::Binary, false),
        ]
    );
    assert_eq!(sorted(summary(&m1)), sorted(summary(&m2)));
    assert_eq!(m2.fields[0].path, vec!["b".to_string()]);
}

#[test]
fn merge_nullability_is_disjunction() {
    let a = Schema::new(vec![field("v", DataKind::Float64, false)]);
    let b = Schema::new(vec![field("v", DataKind::Float64, true)]);
    let m = Schema::try_merge(&vec![a.clone(), b]).unwrap();
    assert_eq!(summary(&m), vec![("v".to_string(), DataKind::Float64, true)]);
    let m = Schema::try_merge(&vec![a.clone(), a]).unwrap();
    assert_eq!(summary(&m), vec![("v".to_string(), DataKind::Float64, false)]);
}

#[test]
fn merge_repeated_name_within_one_schema() {
    let a = Schema::new(vec![field("v", DataKind::Int32, false), field("v", DataKind::Int32, true)]);
    let m = Schema::try_merge(&vec![a]).unwrap();
    assert_eq!(summary(&m), vec![("v".to_string(), DataKind::Int32, true)]);
}

#[test]
fn infer_stats_is_unknown_per_field() {
    let meta = object("alltypes_plain.avro", vec![1, 2, 3]);
    let stats = AvroFormat.infer_stats(&alltypes(), &meta);
    assert_eq!(stats.num_rows, Precision::Absent);
    assert_eq!(stats.total_byte_size, Precision::Absent);
    assert_eq!(stats.num_columns(), 11);
    for c in &stats.column_statistics {
        assert_eq!(c.null_count, Precision::Absent);
        assert_eq!(c.distinct_count, Precision::Absent);
    }
    let other = object("other.avro", vec![]);
    let empty = AvroFormat.infer_stats(&Schema::new(vec![]), &other);
    assert_eq!(empty.num_columns(), 0);
}

#[test]
fn defaults_are_usable() {
    assert_eq!(AvroFormat::default().get_ext(), "avro");
    assert_eq!(AvroFormatFactory::default().get_ext(), "avro");
}

#[test]
fn merge_records_field_by_field() {
    let a = Schema::new(vec![
        field("id", DataKind::Int32, false),
        field("rec", DataKind::Struct, false),
        field("rec.x", DataKind::Int64, false),
    ]);
    let b = Schema::new(vec![
        field("rec", DataKind::Struct, true),
        field("rec.y", DataKind::Utf8, true),
        field("rec.x", DataKind::Int64, true),
    ]);
    let m = Schema::try_merge(&vec![a, b]).unwrap();
    assert_eq!(
        summary(&m),
        vec![
            ("id".to_string(), DataKind::Int32, false),
            ("rec".to_string(), DataKind::Struct, true),
            ("rec.x".to_string(), DataKind::Int64, true),
            ("rec.y".to_string(), DataKind::Utf8, true),
        ]
    );
}

#[test]
fn merge_lists_through_their_items() {
    let a = Schema::new(vec![field("xs", DataKind::List, true), field("xs.item", DataKind::Int32, false)]);
    let b = Schema::new(vec![field("xs", DataKind::List, false), field("xs.item", DataKind::Int32, true)]);
    let m = Schema::try_merge(&vec![a, b]).unwrap();
    assert_eq!(
        summary(&m),
        vec![
            ("xs".to_string(), DataKind::List, true),
            ("xs.item".to_string(), DataKind::Int32, true),
        ]
    );
}

#[test]
fn nested_conflict_names_path_and_types() {
    let a = Schema::new(vec![field("rec", DataKind::Struct, false), field("rec.x", DataKind::Int64, false)]);
    let b = Schema::new(vec![field("rec", DataKind::Struct, false), field("rec.x", DataKind::Float64, false)]);
    let e = Schema::try_merge(&vec![a, b]).unwrap_err();
    assert_eq!(
        e.message(),
        "Fail to merge schema field 'rec.x' because the from data_type = Float64 does not equal Int64"
    );
    let c = Schema::new(vec![field("rec", DataKind::List, false)]);
    let d = Schema::new(vec![field("rec", DataKind::Struct, false)]);
    match Schema::try_merge(&vec![c, d]) {
        Err(AvroError::SchemaConflict { existing, incoming, .. }) => {
            assert_eq!(existing, DataKind::List);
            assert_eq!(incoming, DataKind::Struct);
        }
        _ => panic!("expected a conflict"),
    }
}

#[test]
fn null_field_does_not_merge_with_other_type() {
    let a = Schema::new(vec![field("n", DataKind::Null, true)]);
    let b = Schema::new(vec![field("n", DataKind::Int32, false)]);
    assert!(matches!(
        Schema::try_merge(&vec![a, b]),
        Err(AvroError::SchemaConflict { .. })
    ));
}

#[test]
fn infer_stats_counts_top_level_columns() {
    let schema = Schema::new(vec![
        field("id", DataKind::Int32, false),
        field("rec", DataKind::Struct, true),
        field("rec.x", DataKind::Int64, true),
        field("xs", DataKind::List, true),
        field("xs.item", DataKind::Utf8, true),
    ]);
    assert_eq!(schema.num_fields(), 5);
    assert_eq!(schema.num_columns(), 3);
    let meta = object("nested.avro", vec![0]);
    assert_eq!(AvroFormat.infer_stats(&schema, &meta).num_columns(), 3);
}

fn meta(path: &str, key: &str, value: &str) -> Metadata {
    let path: Vec<String> =
        if path.is_empty() { vec![] } else { path.split('.').map(|c| c.to_string()).collect() };
    Metadata::new(path, key.to_string(), value.to_string())
}

fn meta_summary(s: &Schema) -> Vec<(String, String, String)> {
    s.metadata.iter().map(|m| (m.path.join("."), m.key.clone(), m.value.clone())).collect()
}

#[test]
fn infer_schema_of_one_file_keeps_metadata() {
    let s = Schema::with_metadata(
        vec![field("id", DataKind::Int32, false)],
        vec![meta("", "writer", "avro-tools"), meta("id", "doc", "row id")],
    );
    let merged = AvroFormat.infer_schema(&vec![s.clone()]).unwrap();
    assert_eq!(summary(&merged), summary(&s));
    assert_eq!(meta_summary(&merged), meta_summary(&s));
}

#[test]
fn merge_metadata_is_union_in_first_seen_order() {
    let a = Schema::with_metadata(
        vec![field("id", DataKind::Int32, false)],
        vec![meta("", "k1", "v1"), meta("id", "doc", "row id")],
    );
    let b = Schema::with_metadata(
        vec![field("id", DataKind::Int32, false)],
        vec![meta("", "k2", "v2"), meta("", "k1", "v1"), meta("id", "doc", "row id")],
    );
    let m = Schema::try_merge(&vec![a, b]).unwrap();
    assert_eq!(
        meta_summary(&m),
        vec![
            ("".to_string(), "k1".to_string(), "v1".to_string()),
            ("id".to_string(), "doc".to_string(), "row id".to_string()),
            ("".to_string(), "k2".to_string(), "v2".to_string()),
        ]
    );
}

#[test]
fn merge_metadata_conflict_names_key_and_values() {
    let a = Schema::with_metadata(vec![field("id", DataKind::Int32, false)], vec![meta("id", "doc", "one")]);
    let b = Schema::with_metadata(vec![field("id", DataKind::Int32, false)], vec![meta("id", "doc", "two")]);
    let e = Schema::try_merge(&vec![a, b]).unwrap_err();
    match &e {
        AvroError::MetadataConflict { path, key, existing, incoming } => {
            assert_eq!(path, &vec!["id".to_string()]);
            assert_eq!(key, "doc");
            assert_eq!(existing, "one");
            assert_eq!(incoming, "two");
        }
        _ => panic!("expected a metadata conflict"),
    }
    assert_eq!(
        e.message(),
        "Fail to merge metadata key 'doc' of 'id' because the from value = two does not equal one"
    );
}

#[test]
fn field_conflict_comes_before_metadata_conflict() {
    let a = Schema::with_metadata(vec![field("x", DataKind::Int32, false)], vec![meta("", "k", "a")]);
    let b = Schema::with_metadata(vec![field("x", DataKind::Utf8, false)], vec![meta("", "k", "b")]);
    assert!(matches!(
        Schema::try_merge(&vec![a, b]),
        Err(AvroError::SchemaConflict { .. })
    ));
}
