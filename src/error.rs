//! Errors of the Avro format adapter.

use crate::schema::{path_view, DataKind};
use vstd::prelude::*;

verus! {

/// Errors raised by the Avro format adapter.
#[derive(Debug)]
pub enum AvroError {
    /// A compressed variant was requested; Avro files carry no compression
    /// suffix.
    UnsupportedCompression,
    /// Schema inference was asked for with no file to read a schema from.
    NoSchema,
    /// Two files declare the field at path `field` with different types.
    SchemaConflict { field: Vec<String>, existing: DataKind, incoming: DataKind },
    /// Two files give the metadata key `key` at `path` different values.
    MetadataConflict { path: Vec<String>, key: String, existing: String, incoming: String },
}

/// The name of a type, as error messages print it.
pub open spec fn kind_text(k: DataKind) -> Seq<char> {
    match k {
        DataKind::Null => "Null"@,
        DataKind::Boolean => "Boolean"@,
        DataKind::Int32 => "Int32"@,
        DataKind::Int64 => "Int64"@,
        DataKind::Float32 => "Float32"@,
        DataKind::Float64 => "Float64"@,
        DataKind::Binary => "Binary"@,
        DataKind::FixedSizeBinary(_) => "FixedSizeBinary"@,
        DataKind::Utf8 => "Utf8"@,
        DataKind::Date32 => "Date32"@,
        DataKind::Time32Millisecond => "Time32(Millisecond)"@,
        DataKind::Time64Microsecond => "Time64(Microsecond)"@,
        DataKind::TimestampMillisecond => "Timestamp(Millisecond, None)"@,
        DataKind::TimestampMicrosecond => "Timestamp(Microsecond, None)"@,
        DataKind::Decimal128(_, _) => "Decimal128"@,
        DataKind::List => "List"@,
        DataKind::Struct => "Struct"@,
    }
}

/// A path written with dots between its names.
pub open spec fn dotted(p: Seq<Seq<char>>) -> Seq<char>
    decreases p.len(),
{
    if p.len() == 0 {
        seq![]
    } else if p.len() == 1 {
        p[0]
    } else {
        dotted(p.drop_last()) + "."@ + p.last()
    }
}

/// The name of a type, as error messages print it.
pub fn kind_name(k: DataKind) -> (r: String)
    ensures
        r@ == kind_text(k),
{
    let s = match k {
        DataKind::Null => "Null",
        DataKind::Boolean => "Boolean",
        DataKind::Int32 => "Int32",
        DataKind::Int64 => "Int64",
        DataKind::Float32 => "Float32",
        DataKind::Float64 => "Float64",
        DataKind::Binary => "Binary",
        DataKind::FixedSizeBinary(_) => "FixedSizeBinary",
        DataKind::Utf8 => "Utf8",
        DataKind::Date32 => "Date32",
        DataKind::Time32Millisecond => "Time32(Millisecond)",
        DataKind::Time64Microsecond => "Time64(Microsecond)",
        DataKind::TimestampMillisecond => "Timestamp(Millisecond, None)",
        DataKind::TimestampMicrosecond => "Timestamp(Microsecond, None)",
        DataKind::Decimal128(_, _) => "Decimal128",
        DataKind::List => "List",
        DataKind::Struct => "Struct",
    };
    String::from_str(s)
}

/// A path written with dots between its names.
pub fn dotted_path(p: &Vec<String>) -> (r: String)
    ensures
        r@ == dotted(path_view(p@)),
{
    let mut r = String::new();
    let mut i: usize = 0;
    while i < p.len()
        invariant
            i <= p@.len(),
            r@ == dotted(path_view(p@).take(i as int)),
        decreases p@.len() - i,
    {
        let ghost pv = path_view(p@);
        proof {
            assert(pv.take(i + 1).drop_last() == pv.take(i as int));
            assert(pv.take(i + 1).last() == p@[i as int]@);
            if i == 0 {
                assert(pv.take(0).len() == 0);
                assert(pv.take(1)[0] == p@[0]@);
            }
        }
        if i > 0 {
            r.append(".");
        }
        r.append(p[i].as_str());
        i += 1;
    }
    assert(path_view(p@).take(p@.len() as int) == path_view(p@));
    r
}

impl AvroError {
    /// A human-readable description of the error.
    pub fn message(&self) -> (r: String)
        ensures
            self is UnsupportedCompression ==> r@ == "Avro FileFormat does not support compression."@,
            self is NoSchema ==> r@ == "no schema to infer"@,
            self matches AvroError::SchemaConflict { field, existing, incoming } ==> r@
                == "Fail to merge schema field '"@ + dotted(path_view(field@))
                + "' because the from data_type = "@ + kind_text(*incoming) + " does not equal "@
                + kind_text(*existing),
            self matches AvroError::MetadataConflict { path, key, existing, incoming } ==> r@
                == "Fail to merge metadata key '"@ + key@ + "' of '"@ + dotted(path_view(path@))
                + "' because the from value = "@ + incoming@ + " does not equal "@ + existing@,
    {
        match self {
            AvroError::UnsupportedCompression => String::from_str(
                "Avro FileFormat does not support compression.",
            ),
            AvroError::NoSchema => String::from_str("no schema to infer"),
            AvroError::SchemaConflict { field, existing, incoming } => {
                let mut m = String::from_str("Fail to merge schema field '");
                let f = dotted_path(field);
                m.append(f.as_str());
                m.append("' because the from data_type = ");
                let t = kind_name(*incoming);
                m.append(t.as_str());
                m.append(" does not equal ");
                let e = kind_name(*existing);
                m.append(e.as_str());
                m
            },
            AvroError::MetadataConflict { path, key, existing, incoming } => {
                let mut m = String::from_str("Fail to merge metadata key '");
                m.append(key.as_str());
                m.append("' of '");
                let p = dotted_path(path);
                m.append(p.as_str());
                m.append("' because the from value = ");
                m.append(incoming.as_str());
                m.append(" does not equal ");
                m.append(existing.as_str());
                m
            },
        }
    }
}

} // verus!
