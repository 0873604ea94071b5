//! Table schemas as ordered field lists, and the merge of per-file schemas
//! into one table schema.
//!
//! Nested columns are held flat: every field carries its path, the names
//! from the top-level column down to it. A record (`Struct`) is followed by
//! entries for its fields, whose paths extend its own; a list (`List`) by one
//! entry for its item. Fields are merged by path, so records are merged field
//! by field and lists through their items, at any depth.

use crate::error::AvroError;
use crate::metadata::{
    all_metas, merge_metadata, merge_metas, metas_view, schemas_metadata, Metadata,
};
use vstd::prelude::*;

verus! {

/// Logical type of one column or nested field. `List` and `Struct` give
/// the shape only: their item and fields are entries of their own.
#[derive(Clone, Copy, Debug, PartialEq, Eq, Structural)]
pub enum DataKind {
    Null,
    Boolean,
    Int32,
    Int64,
    Float32,
    Float64,
    Binary,
    FixedSizeBinary(i32),
    Utf8,
    Date32,
    Time32Millisecond,
    Time64Microsecond,
    TimestampMillisecond,
    TimestampMicrosecond,
    Decimal128(u8, i8),
    List,
    Struct,
}

/// One typed column, or one nested field, at its path.
#[derive(Clone, Debug)]
pub struct Field {
    pub path: Vec<String>,
    pub data_type: DataKind,
    pub nullable: bool,
}

/// The mathematical value of a path.
pub open spec fn path_view(p: Seq<String>) -> Seq<Seq<char>> {
    p.map_values(|c: String| c@)
}

/// The mathematical value of a [`Field`].
pub ghost struct FieldView {
    pub path: Seq<Seq<char>>,
    pub data_type: DataKind,
    pub nullable: bool,
}

impl View for Field {
    type V = FieldView;

    open spec fn view(&self) -> FieldView {
        FieldView { path: path_view(self.path@), data_type: self.data_type, nullable: self.nullable }
    }
}

/// Whether two paths are the same.
pub fn paths_equal(a: &Vec<String>, b: &Vec<String>) -> (r: bool)
    ensures
        r == (path_view(a@) == path_view(b@)),
{
    if a.len() != b.len() {
        return false;
    }
    let mut i: usize = 0;
    while i < a.len()
        invariant
            i <= a@.len(),
            a@.len() == b@.len(),
            forall|k: int| 0 <= k < i ==> a@[k]@ == b@[k]@,
        decreases a@.len() - i,
    {
        if a[i] != b[i] {
            assert(path_view(a@)[i as int] != path_view(b@)[i as int]);
            return false;
        }
        i += 1;
    }
    assert(path_view(a@) =~= path_view(b@));
    true
}

/// A copy of a path.
pub fn clone_path(p: &Vec<String>) -> (r: Vec<String>)
    ensures
        path_view(r@) == path_view(p@),
{
    let mut r: Vec<String> = Vec::new();
    let mut i: usize = 0;
    while i < p.len()
        invariant
            i <= p@.len(),
            r@.len() == i,
            forall|k: int| 0 <= k < i ==> r@[k]@ == p@[k]@,
        decreases p@.len() - i,
    {
        r.push(p[i].clone());
        i += 1;
    }
    assert(path_view(r@) =~= path_view(p@));
    r
}

impl Field {
    /// Creates a field at `path`.
    pub fn new(path: Vec<String>, data_type: DataKind, nullable: bool) -> (r: Field)
        ensures
            r@ == (FieldView { path: path_view(path@), data_type, nullable }),
    {
        Field { path, data_type, nullable }
    }

    /// A copy of this field.
    pub fn clone_field(&self) -> (r: Field)
        ensures
            r@ == self@,
    {
        Field { path: clone_path(&self.path), data_type: self.data_type, nullable: self.nullable }
    }
}

/// An ordered sequence of fields.
#[derive(Clone, Debug)]
pub struct Schema {
    pub fields: Vec<Field>,
    pub metadata: Vec<Metadata>,
}

/// The views of a sequence of fields.
pub open spec fn fields_view(fs: Seq<Field>) -> Seq<FieldView> {
    fs.map_values(|f: Field| f@)
}

impl View for Schema {
    type V = Seq<FieldView>;

    open spec fn view(&self) -> Seq<FieldView> {
        fields_view(self.fields@)
    }
}

/// The views of a sequence of schemas.
pub open spec fn schemas_view(ss: Seq<Schema>) -> Seq<Seq<FieldView>> {
    ss.map_values(|s: Schema| s@)
}

impl Schema {
    /// Creates a schema from its fields, in order, with no metadata.
    pub fn new(fields: Vec<Field>) -> (r: Schema)
        ensures
            r@ == fields_view(fields@),
            r.metadata@.len() == 0,
    {
        Schema { fields, metadata: Vec::new() }
    }

    /// Creates a schema from its fields and its metadata, in order.
    pub fn with_metadata(fields: Vec<Field>, metadata: Vec<Metadata>) -> (r: Schema)
        ensures
            r@ == fields_view(fields@),
            metas_view(r.metadata@) == metas_view(metadata@),
    {
        Schema { fields, metadata }
    }

    /// Number of fields, nested ones included.
    pub fn num_fields(&self) -> (r: usize)
        ensures
            r == self@.len(),
    {
        self.fields.len()
    }

    /// Number of top-level columns: the fields whose path has one name.
    pub fn num_columns(&self) -> (r: usize)
        ensures
            r == column_count(self@),
    {
        let mut n: usize = 0;
        let mut i: usize = 0;
        while i < self.fields.len()
            invariant
                i <= self.fields@.len(),
                n <= i,
                n == column_count(self@.take(i as int)),
            decreases self.fields@.len() - i,
        {
            proof {
                assert(self@.take(i + 1).drop_last() == self@.take(i as int));
            }
            if self.fields[i].path.len() == 1 {
                n += 1;
            }
            i += 1;
        }
        proof {
            assert(self@.take(self@.len() as int) == self@);
        }
        n
    }
}

/// Number of top-level columns of `fs`: the fields whose path has one name.
pub open spec fn column_count(fs: Seq<FieldView>) -> nat
    decreases fs.len(),
{
    if fs.len() == 0 {
        0
    } else {
        column_count(fs.drop_last()) + if fs.last().path.len() == 1 {
            1nat
        } else {
            0nat
        }
    }
}

/// Two fields at the same path whose types differ.
pub ghost struct MergeConflict {
    pub field: Seq<Seq<char>>,
    pub existing: DataKind,
    pub incoming: DataKind,
}

/// Whether a field at `path` occurs in `fs`.
pub open spec fn has_path(fs: Seq<FieldView>, path: Seq<Seq<char>>) -> bool {
    exists|k: int| 0 <= k < fs.len() && #[trigger] fs[k].path == path
}

/// The position of a field at `path` in `fs`, if there is one.
pub open spec fn position_of(fs: Seq<FieldView>, path: Seq<Seq<char>>) -> int
    recommends
        has_path(fs, path),
{
    choose|k: int| 0 <= k < fs.len() && #[trigger] fs[k].path == path
}

/// No two fields of `fs` share a path.
pub open spec fn distinct_paths(fs: Seq<FieldView>) -> bool {
    forall|a: int, b: int|
        0 <= a < fs.len() && 0 <= b < fs.len() && a != b ==> #[trigger] fs[a].path
            != #[trigger] fs[b].path
}

/// Merges field `f` into the accumulated fields: a new path is appended; a
/// known path must carry the same type, and its nullability becomes the
/// disjunction of both.
pub open spec fn merge_step(
    acc: Result<Seq<FieldView>, MergeConflict>,
    f: FieldView,
) -> Result<Seq<FieldView>, MergeConflict> {
    match acc {
        Err(c) => Err(c),
        Ok(fs) => if !has_path(fs, f.path) {
            Ok(fs.push(f))
        } else {
            let k = position_of(fs, f.path);
            if fs[k].data_type == f.data_type {
                Ok(fs.update(k, FieldView { nullable: fs[k].nullable || f.nullable, ..fs[k] }))
            } else {
                Err(MergeConflict { field: f.path, existing: fs[k].data_type, incoming: f.data_type })
            }
        },
    }
}

/// Merges a sequence of fields, in order, starting from no field.
pub open spec fn merge_fields(fs: Seq<FieldView>) -> Result<Seq<FieldView>, MergeConflict>
    decreases fs.len(),
{
    if fs.len() == 0 {
        Ok(seq![])
    } else {
        merge_step(merge_fields(fs.drop_last()), fs.last())
    }
}

/// All fields of all schemas, schema after schema.
pub open spec fn all_fields(ss: Seq<Seq<FieldView>>) -> Seq<FieldView>
    decreases ss.len(),
{
    if ss.len() == 0 {
        seq![]
    } else {
        all_fields(ss.drop_last()) + ss.last()
    }
}

/// The merge of a sequence of schemas: their fields merged in first-seen order.
pub open spec fn merge_schemas(ss: Seq<Seq<FieldView>>) -> Result<Seq<FieldView>, MergeConflict> {
    merge_fields(all_fields(ss))
}

/// Whether `r` is the merge of `schemas`: the merge of their fields, then
/// of their metadata; the first that fails gives the error.
pub open spec fn merge_agrees(schemas: Seq<Schema>, r: Result<Schema, AvroError>) -> bool {
    match merge_schemas(schemas_view(schemas)) {
        Err(c) => r matches Err(AvroError::SchemaConflict { field, existing, incoming })
            && path_view(field@) == c.field && existing == c.existing && incoming == c.incoming,
        Ok(fs) => match merge_metas(all_metas(schemas_metadata(schemas))) {
            Err(c) => r matches Err(AvroError::MetadataConflict { path, key, existing, incoming })
                && path_view(path@) == c.path && key@ == c.key && existing@ == c.existing
                && incoming@ == c.incoming,
            Ok(ms) => r matches Ok(s) && s@ == fs && metas_view(s.metadata@) == ms,
        },
    }
}

/// Whether `r` is the merge `m` of fields.
pub open spec fn field_merge_agrees(m: Result<Seq<FieldView>, MergeConflict>, r: Result<Vec<Field>, AvroError>) -> bool {
    match m {
        Ok(fs) => r matches Ok(v) && fields_view(v@) == fs,
        Err(c) => r matches Err(AvroError::SchemaConflict { field, existing, incoming })
            && path_view(field@) == c.field && existing == c.existing && incoming == c.incoming,
    }
}

/// Position of the field at `path` in `acc`, if any.
fn find_field(acc: &Vec<Field>, path: &Vec<String>) -> (r: Option<usize>)
    ensures
        r matches Some(k) ==> k < acc@.len() && acc@[k as int]@.path == path_view(path@),
        r is None ==> !has_path(fields_view(acc@), path_view(path@)),
{
    let mut k: usize = 0;
    while k < acc.len()
        invariant
            k <= acc@.len(),
            forall|m: int| 0 <= m < k ==> acc@[m]@.path != path_view(path@),
        decreases acc@.len() - k,
    {
        if paths_equal(&acc[k].path, path) {
            return Some(k);
        }
        k += 1;
    }
    assert(forall|m: int| 0 <= m < acc@.len() ==> fields_view(acc@)[m].path != path_view(path@));
    None
}

/// A merge step keeps field paths distinct.
pub proof fn lemma_merge_step_distinct(fs: Seq<FieldView>, f: FieldView)
    requires
        distinct_paths(fs),
    ensures
        merge_step(Ok(fs), f) matches Ok(m) ==> distinct_paths(m),
{
    if has_path(fs, f.path) {
        let k = position_of(fs, f.path);
        if let Ok(m) = merge_step(Ok(fs), f) {
            assert forall|a: int, b: int|
                0 <= a < m.len() && 0 <= b < m.len() && a != b implies #[trigger] m[a].path
                != #[trigger] m[b].path by {
                assert(m[a].path == fs[a].path);
                assert(m[b].path == fs[b].path);
            }
        }
    } else {
        if let Ok(m) = merge_step(Ok(fs), f) {
            assert forall|a: int, b: int|
                0 <= a < m.len() && 0 <= b < m.len() && a != b implies #[trigger] m[a].path
                != #[trigger] m[b].path by {
                if a == fs.len() {
                    assert(fs[b].path == m[b].path);
                } else if b == fs.len() {
                    assert(fs[a].path == m[a].path);
                }
            }
        }
    }
}

/// Merges field `f` into `acc`, as `merge_step` describes.
fn merge_field_into(acc: &mut Vec<Field>, f: &Field) -> (r: Result<(), AvroError>)
    requires
        distinct_paths(fields_view(old(acc)@)),
    ensures
        match merge_step(Ok(fields_view(old(acc)@)), f@) {
            Ok(m) => r is Ok && fields_view(final(acc)@) == m,
            Err(c) => r matches Err(AvroError::SchemaConflict { field, existing, incoming })
                && path_view(field@) == c.field && existing == c.existing && incoming == c.incoming,
        },
{
    let ghost fs = fields_view(acc@);
    match find_field(acc, &f.path) {
        None => {
            acc.push(f.clone_field());
            assert(fields_view(acc@) == fs.push(f@));
            Ok(())
        },
        Some(k) => {
            assert(fs[k as int].path == f@.path);
            let ghost p = position_of(fs, f@.path);
            assert(p == k as int);
            if acc[k].data_type == f.data_type {
                let nullable = acc[k].nullable || f.nullable;
                acc[k].nullable = nullable;
                assert(fields_view(acc@) == fs.update(
                    k as int,
                    FieldView { nullable: fs[k as int].nullable || f@.nullable, ..fs[k as int] },
                ));
                Ok(())
            } else {
                Err(
                    AvroError::SchemaConflict {
                        field: clone_path(&f.path),
                        existing: acc[k].data_type,
                        incoming: f.data_type,
                    },
                )
            }
        },
    }
}

proof fn lemma_merge_err_sticks(a: Seq<FieldView>, b: Seq<FieldView>)
    requires
        merge_fields(a) is Err,
    ensures
        merge_fields(a + b) == merge_fields(a),
    decreases b.len(),
{
    if b.len() == 0 {
        assert(a + b == a);
    } else {
        assert((a + b).drop_last() == a + b.drop_last());
        lemma_merge_err_sticks(a, b.drop_last());
    }
}

proof fn lemma_all_fields_split(ss: Seq<Seq<FieldView>>, i: int)
    requires
        0 <= i <= ss.len(),
    ensures
        all_fields(ss) == all_fields(ss.take(i)) + all_fields(ss.skip(i)),
    decreases ss.len(),
{
    if i == ss.len() {
        assert(ss.take(i) == ss);
        assert(ss.skip(i).len() == 0);
        assert(all_fields(ss) + seq![] == all_fields(ss));
    } else {
        let dl = ss.drop_last();
        lemma_all_fields_split(dl, i);
        assert(dl.take(i) == ss.take(i));
        assert(ss.skip(i).drop_last() == dl.skip(i));
        assert(ss.skip(i).last() == ss.last());
        assert(all_fields(ss.take(i)) + all_fields(dl.skip(i)) + ss.last() == all_fields(ss.take(i))
            + (all_fields(dl.skip(i)) + ss.last()));
    }
}

proof fn lemma_all_fields_next(ss: Seq<Seq<FieldView>>, i: int)
    requires
        0 <= i < ss.len(),
    ensures
        all_fields(ss.take(i + 1)) == all_fields(ss.take(i)) + ss[i],
{
    assert(ss.take(i + 1).drop_last() == ss.take(i));
}

proof fn lemma_merge_fields_push(a: Seq<FieldView>, f: FieldView)
    ensures
        merge_fields(a.push(f)) == merge_step(merge_fields(a), f),
{
    assert(a.push(f).drop_last() == a);
}

impl Schema {
    /// Merges `schemas` into one. Fields: every path that occurs, in order
    /// of first appearance; a path seen again must carry the same type (a
    /// `Null` field merges only with another `Null` field), and is nullable
    /// when any occurrence is. Metadata: every key, at its path, in order of
    /// first appearance; a key seen again must carry the same value.
    pub fn try_merge(schemas: &Vec<Schema>) -> (r: Result<Schema, AvroError>)
        ensures
            schemas@.len() == 0 <==> r matches Err(AvroError::NoSchema),
            schemas@.len() > 0 ==> merge_agrees(schemas@, r),
    {
        if schemas.len() == 0 {
            return Err(AvroError::NoSchema);
        }
        let fields = Self::merge_field_lists(schemas)?;
        let metadata = merge_metadata(schemas)?;
        Ok(Schema { fields, metadata })
    }

    /// Merges the fields of `schemas`, as `merge_schemas` describes.
    fn merge_field_lists(schemas: &Vec<Schema>) -> (r: Result<Vec<Field>, AvroError>)
        ensures
            field_merge_agrees(merge_schemas(schemas_view(schemas@)), r),
    {
        let ghost ss = schemas_view(schemas@);
        let mut acc: Vec<Field> = Vec::new();
        let mut i: usize = 0;
        assert(ss.take(0) == Seq::<Seq<FieldView>>::empty());
        assert(all_fields(ss.take(0)) == Seq::<FieldView>::empty());
        assert(fields_view(acc@) == Seq::<FieldView>::empty());
        while i < schemas.len()
            invariant
                i <= schemas@.len(),
                ss == schemas_view(schemas@),
                distinct_paths(fields_view(acc@)),
                merge_fields(all_fields(ss.take(i as int))) == Ok::<Seq<FieldView>, MergeConflict>(
                    fields_view(acc@),
                ),
            decreases schemas@.len() - i,
        {
            let fields = &schemas[i].fields;
            let ghost sv = ss[i as int];
            let ghost base = all_fields(ss.take(i as int));
            assert(sv == fields_view(fields@));
            let mut j: usize = 0;
            assert(base + sv.take(0) == base);
            while j < fields.len()
                invariant
                    i < schemas@.len(),
                    j <= fields@.len(),
                    fields == &schemas@[i as int].fields,
                    sv == fields_view(fields@),
                    ss == schemas_view(schemas@),
                    base == all_fields(ss.take(i as int)),
                    sv == ss[i as int],
                    distinct_paths(fields_view(acc@)),
                    merge_fields(base + sv.take(j as int)) == Ok::<Seq<FieldView>, MergeConflict>(
                        fields_view(acc@),
                    ),
                decreases fields@.len() - j,
            {
                let ghost before = fields_view(acc@);
                let ghost prefix = base + sv.take(j as int);
                proof {
                    lemma_merge_step_distinct(before, sv[j as int]);
                    lemma_merge_fields_push(prefix, sv[j as int]);
                    assert(prefix.push(sv[j as int]) == base + sv.take(j + 1));
                }
                let step = merge_field_into(&mut acc, &fields[j]);
                if let Err(e) = step {
                    proof {
                        let done = base + sv.take(j + 1);
                        lemma_all_fields_next(ss, i as int);
                        lemma_all_fields_split(ss, i + 1);
                        assert(base + sv == done + sv.skip(j + 1));
                        lemma_merge_err_sticks(done, sv.skip(j + 1) + all_fields(ss.skip(i + 1)));
                        assert(all_fields(ss) == done + (sv.skip(j + 1) + all_fields(ss.skip(i + 1))));
                        assert(ss.take(ss.len() as int) == ss);
                    }
                    return Err(e);
                }
                j += 1;
            }
            proof {
                assert(sv.take(j as int) == sv);
                lemma_all_fields_next(ss, i as int);
            }
            i += 1;
        }
        proof {
            assert(ss.take(ss.len() as int) == ss);
        }
        Ok(acc)
    }
}

} // verus!
