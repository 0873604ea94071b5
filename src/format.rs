//! The Avro file format: its extension, its compression policy, and the
//! schema and statistics inference that a host engine asks of a format.

use datafusion_common::parsers::CompressionTypeVariant;
use crate::error::AvroError;
use crate::schema::{column_count, merge_agrees, Schema};
use crate::statistics::Statistics;
use object_store::ObjectMeta;
use std::collections::HashMap;
use vstd::prelude::*;
use vstd::string::StringSliceAdditionalSpecFns;
use vstd::utf8::{encode_scalar, encode_utf8, is_char_boundary};

verus! {

/// The compression modes a host engine may ask a file format about; a
/// plain enum of datafusion_common whose variants Verus reads.
#[verifier::external_type_specification]
pub struct ExCompressionTypeVariant(CompressionTypeVariant);

/// Metadata of one stored object: its location, size and modification time.
#[verifier::external_type_specification]
#[verifier::external_body]
pub struct ExObjectMeta(ObjectMeta);

/// The canonical, dot-free extension of Avro files.
pub open spec fn avro_ext() -> Seq<char> {
    seq!['a', 'v', 'r', 'o']
}

/// Relies on `datafusion_common::DEFAULT_AVRO_EXTENSION`: the string `.avro`.
#[verifier::external_body]
fn default_avro_extension() -> (r: &'static str)
    ensures
        r@ == seq!['.'] + avro_ext(),
{
    datafusion_common::DEFAULT_AVRO_EXTENSION
}

/// Factory that hands out [`AvroFormat`] instances.
#[derive(Debug, Clone, Copy)]
pub struct AvroFormatFactory;

impl Default for AvroFormatFactory {
    fn default() -> (r: Self)
        ensures
            r == (AvroFormatFactory {}),
    {
        AvroFormatFactory
    }
}

impl AvroFormatFactory {
    /// Creates a factory.
    pub fn new() -> (r: Self)
        ensures
            r == (AvroFormatFactory {}),
    {
        AvroFormatFactory
    }

    /// An Avro format; Avro takes no options, so `format_options` is ignored.
    pub fn create(&self, format_options: &HashMap<String, String>) -> (r: Result<
        AvroFormat,
        AvroError,
    >)
        ensures
            r is Ok,
    {
        Ok(AvroFormat)
    }

    /// The Avro format used when no options are given.
    pub fn default_format(&self) -> (r: AvroFormat)
        ensures
            r == (AvroFormat {}),
    {
        AvroFormat
    }

    /// The format's bare extension, without the leading dot.
    pub fn get_ext(&self) -> (r: String)
        ensures
            r@ == avro_ext(),
    {
        let full = default_avro_extension();
        proof {
            lemma_dotted_ext_bytes(full);
        }
        let (_, rest) = full.split_at(1);
        proof {
            lemma_bytes_determine_chars(rest@, avro_ext());
        }
        rest.to_owned()
    }
}

/// Avro `FileFormat`: stateless, so one instance can be shared freely.
#[derive(Debug, Clone, Copy)]
pub struct AvroFormat;

impl Default for AvroFormat {
    fn default() -> (r: Self)
        ensures
            r == (AvroFormat {}),
    {
        AvroFormat
    }
}

impl AvroFormat {
    /// The format's bare extension, as the factory reports it.
    pub fn get_ext(&self) -> (r: String)
        ensures
            r@ == avro_ext(),
    {
        AvroFormatFactory::new().get_ext()
    }

    /// The table schema of a set of Avro files, from the schema embedded in
    /// each file, in the order of the files: their fields merged in
    /// first-seen order. With no file there is no schema to infer.
    pub fn infer_schema(&self, schemas: &Vec<Schema>) -> (r: Result<Schema, AvroError>)
        ensures
            schemas@.len() == 0 <==> r matches Err(AvroError::NoSchema),
            schemas@.len() > 0 ==> merge_agrees(schemas@, r),
    {
        Schema::try_merge(schemas)
    }

    /// Statistics of one file of a table with schema `table_schema`: always
    /// unknown, one entry per top-level column, whatever the file; reading them would
    /// take a full decode.
    pub fn infer_stats(&self, table_schema: &Schema, object: &ObjectMeta) -> (r: Statistics)
        ensures
            r.is_unknown_with_columns(column_count(table_schema@)),
    {
        Statistics::new_unknown(table_schema)
    }

    /// The extension for files written with `variant`: only uncompressed
    /// files are supported.
    pub fn get_ext_with_compression(&self, variant: &CompressionTypeVariant) -> (r: Result<
        String,
        AvroError,
    >)
        ensures
            *variant is UNCOMPRESSED <==> r is Ok,
            r matches Ok(e) ==> e@ == avro_ext(),
            r matches Err(e) ==> e is UnsupportedCompression,
    {
        let ext = self.get_ext();
        match variant {
            CompressionTypeVariant::UNCOMPRESSED => Ok(ext),
            _ => Err(AvroError::UnsupportedCompression),
        }
    }
}

proof fn lemma_dotted_ext_bytes(s: &str)
    requires
        s@ == seq!['.'] + avro_ext(),
    ensures
        is_char_boundary(s.spec_bytes(), 1),
        s.spec_bytes().subrange(1, s.spec_bytes().len() as int) == encode_utf8(avro_ext()),
{
    broadcast use vstd::utf8::is_char_boundary_iff_not_is_continuation_byte;
    let chars = s@;
    assert(chars.drop_first() == avro_ext());
    assert(chars[0] == '.');
    vstd::utf8::char_u32_cast('.', 46u32);
    let b = s.spec_bytes();
    assert(b == encode_utf8(chars));
    assert((46u32 & 0x7Fu32) == 46u32) by (bit_vector);
    assert(encode_scalar(46u32) == seq![46u8]);
    assert(b == seq![46u8] + encode_utf8(avro_ext()));
    assert(b.subrange(1, b.len() as int) == encode_utf8(avro_ext()));
    vstd::utf8::encode_utf8_valid_utf8(chars);
    let rest = avro_ext();
    assert(rest[0] == 'a');
    vstd::utf8::char_u32_cast('a', 97u32);
    assert((97u32 & 0x7Fu32) == 97u32) by (bit_vector);
    assert(rest.drop_first() == seq!['v', 'r', 'o']);
    assert(encode_utf8(rest) == seq![97u8] + encode_utf8(rest.drop_first()));
    assert(b[1] == 97u8);
    assert((97u8 & 0xC0u8) != 0x80u8) by (bit_vector);
    assert(!vstd::utf8::is_continuation_byte(b[1]));
}

proof fn lemma_bytes_determine_chars(a: Seq<char>, b: Seq<char>)
    requires
        encode_utf8(a) == encode_utf8(b),
    ensures
        a == b,
{
    vstd::utf8::encode_utf8_decode_utf8(a);
    vstd::utf8::encode_utf8_decode_utf8(b);
}

} // verus!
