//! Key-value metadata of a schema and of its fields, and its merge across
//! files.

use crate::error::AvroError;
use crate::schema::{clone_path, path_view, paths_equal, Schema};
use vstd::prelude::*;

verus! {

/// One metadata pair: of the schema itself when `path` is empty, else of
/// the field at `path`.
#[derive(Clone, Debug)]
pub struct Metadata {
    pub path: Vec<String>,
    pub key: String,
    pub value: String,
}

/// The mathematical value of a [`Metadata`] pair.
pub ghost struct MetaView {
    pub path: Seq<Seq<char>>,
    pub key: Seq<char>,
    pub value: Seq<char>,
}

impl View for Metadata {
    type V = MetaView;

    open spec fn view(&self) -> MetaView {
        MetaView { path: path_view(self.path@), key: self.key@, value: self.value@ }
    }
}

impl Metadata {
    /// Creates a metadata pair for the field at `path` (the schema's own
    /// when `path` is empty).
    pub fn new(path: Vec<String>, key: String, value: String) -> (r: Metadata)
        ensures
            r@ == (MetaView { path: path_view(path@), key: key@, value: value@ }),
    {
        Metadata { path, key, value }
    }
}

/// The views of a sequence of metadata pairs.
pub open spec fn metas_view(ms: Seq<Metadata>) -> Seq<MetaView> {
    ms.map_values(|m: Metadata| m@)
}

/// The metadata views of a sequence of schemas.
pub open spec fn schemas_metadata(ss: Seq<Schema>) -> Seq<Seq<MetaView>> {
    ss.map_values(|s: Schema| metas_view(s.metadata@))
}

/// One key with two values.
pub ghost struct MetaConflict {
    pub path: Seq<Seq<char>>,
    pub key: Seq<char>,
    pub existing: Seq<char>,
    pub incoming: Seq<char>,
}

/// Whether `ms` holds a pair for `key` at `path`.
pub open spec fn has_key(ms: Seq<MetaView>, path: Seq<Seq<char>>, key: Seq<char>) -> bool {
    exists|k: int| 0 <= k < ms.len() && #[trigger] ms[k].path == path && ms[k].key == key
}

/// The position of the pair for `key` at `path` in `ms`, if there is one.
pub open spec fn key_position(ms: Seq<MetaView>, path: Seq<Seq<char>>, key: Seq<char>) -> int
    recommends
        has_key(ms, path, key),
{
    choose|k: int| 0 <= k < ms.len() && #[trigger] ms[k].path == path && ms[k].key == key
}

/// No two pairs of `ms` share a path and a key.
pub open spec fn distinct_keys(ms: Seq<MetaView>) -> bool {
    forall|a: int, b: int|
        0 <= a < ms.len() && 0 <= b < ms.len() && a != b ==> #[trigger] ms[a].path != #[trigger] ms[b].path
            || ms[a].key != ms[b].key
}

/// Merges pair `e` into the accumulated pairs: a new key is appended; a key
/// already present must carry the same value.
pub open spec fn meta_step(
    acc: Result<Seq<MetaView>, MetaConflict>,
    e: MetaView,
) -> Result<Seq<MetaView>, MetaConflict> {
    match acc {
        Err(c) => Err(c),
        Ok(ms) => if !has_key(ms, e.path, e.key) {
            Ok(ms.push(e))
        } else {
            let k = key_position(ms, e.path, e.key);
            if ms[k].value == e.value {
                Ok(ms)
            } else {
                Err(MetaConflict { path: e.path, key: e.key, existing: ms[k].value, incoming: e.value })
            }
        },
    }
}

/// Merges a sequence of pairs, in order, starting from none.
pub open spec fn merge_metas(es: Seq<MetaView>) -> Result<Seq<MetaView>, MetaConflict>
    decreases es.len(),
{
    if es.len() == 0 {
        Ok(seq![])
    } else {
        meta_step(merge_metas(es.drop_last()), es.last())
    }
}

/// All pairs of all schemas, schema after schema.
pub open spec fn all_metas(ss: Seq<Seq<MetaView>>) -> Seq<MetaView>
    decreases ss.len(),
{
    if ss.len() == 0 {
        seq![]
    } else {
        all_metas(ss.drop_last()) + ss.last()
    }
}

/// Whether the exec result `r` is the one that the merge `m` describes.
pub open spec fn meta_merge_agrees(
    m: Result<Seq<MetaView>, MetaConflict>,
    r: Result<Vec<Metadata>, AvroError>,
) -> bool {
    match m {
        Ok(ms) => r matches Ok(v) && metas_view(v@) == ms,
        Err(c) => r matches Err(AvroError::MetadataConflict { path, key, existing, incoming })
            && path_view(path@) == c.path && key@ == c.key && existing@ == c.existing
            && incoming@ == c.incoming,
    }
}

fn find_key(acc: &Vec<Metadata>, e: &Metadata) -> (r: Option<usize>)
    ensures
        r matches Some(k) ==> k < acc@.len() && acc@[k as int]@.path == e@.path
            && acc@[k as int]@.key == e@.key,
        r is None ==> !has_key(metas_view(acc@), e@.path, e@.key),
{
    let mut k: usize = 0;
    while k < acc.len()
        invariant
            k <= acc@.len(),
            forall|m: int| 0 <= m < k ==> !(acc@[m]@.path == e@.path && acc@[m]@.key == e@.key),
        decreases acc@.len() - k,
    {
        if paths_equal(&acc[k].path, &e.path) && acc[k].key == e.key {
            return Some(k);
        }
        k += 1;
    }
    assert(forall|m: int|
        0 <= m < acc@.len() ==> !(metas_view(acc@)[m].path == e@.path && metas_view(acc@)[m].key
            == e@.key));
    None
}

fn merge_meta_into(acc: &mut Vec<Metadata>, e: &Metadata) -> (r: Result<(), AvroError>)
    requires
        distinct_keys(metas_view(old(acc)@)),
    ensures
        match meta_step(Ok(metas_view(old(acc)@)), e@) {
            Ok(m) => r is Ok && metas_view(final(acc)@) == m && distinct_keys(m),
            Err(c) => r matches Err(AvroError::MetadataConflict { path, key, existing, incoming })
                && path_view(path@) == c.path && key@ == c.key && existing@ == c.existing
                && incoming@ == c.incoming,
        },
{
    let ghost ms = metas_view(acc@);
    match find_key(acc, e) {
        None => {
            acc.push(Metadata { path: clone_path(&e.path), key: e.key.clone(), value: e.value.clone() });
            assert(metas_view(acc@) == ms.push(e@));
            assert forall|a: int, b: int|
                0 <= a < ms.push(e@).len() && 0 <= b < ms.push(e@).len() && a != b implies #[trigger] ms.push(e@)[a].path
                != #[trigger] ms.push(e@)[b].path || ms.push(e@)[a].key != ms.push(e@)[b].key by {
                if a == ms.len() {
                    assert(ms.push(e@)[b] == ms[b]);
                } else if b == ms.len() {
                    assert(ms.push(e@)[a] == ms[a]);
                } else {
                    assert(ms.push(e@)[a] == ms[a] && ms.push(e@)[b] == ms[b]);
                }
            }
            Ok(())
        },
        Some(k) => {
            assert(ms[k as int].path == e@.path && ms[k as int].key == e@.key);
            let ghost p = key_position(ms, e@.path, e@.key);
            assert(p == k as int);
            if acc[k].value == e.value {
                Ok(())
            } else {
                Err(
                    AvroError::MetadataConflict {
                        path: clone_path(&e.path),
                        key: e.key.clone(),
                        existing: acc[k].value.clone(),
                        incoming: e.value.clone(),
                    },
                )
            }
        },
    }
}

proof fn lemma_meta_err_sticks(a: Seq<MetaView>, b: Seq<MetaView>)
    requires
        merge_metas(a) is Err,
    ensures
        merge_metas(a + b) == merge_metas(a),
    decreases b.len(),
{
    if b.len() == 0 {
        assert(a + b == a);
    } else {
        assert((a + b).drop_last() == a + b.drop_last());
        lemma_meta_err_sticks(a, b.drop_last());
    }
}

proof fn lemma_all_metas_split(ss: Seq<Seq<MetaView>>, i: int)
    requires
        0 <= i <= ss.len(),
    ensures
        all_metas(ss) == all_metas(ss.take(i)) + all_metas(ss.skip(i)),
    decreases ss.len(),
{
    if i == ss.len() {
        assert(ss.take(i) == ss);
        assert(ss.skip(i).len() == 0);
        assert(all_metas(ss) + seq![] == all_metas(ss));
    } else {
        let dl = ss.drop_last();
        lemma_all_metas_split(dl, i);
        assert(dl.take(i) == ss.take(i));
        assert(ss.skip(i).drop_last() == dl.skip(i));
        assert(ss.skip(i).last() == ss.last());
        assert(all_metas(ss.take(i)) + all_metas(dl.skip(i)) + ss.last() == all_metas(ss.take(i))
            + (all_metas(dl.skip(i)) + ss.last()));
    }
}

/// Merges the metadata of `schemas`: every key (at its path) in order of
/// first appearance; a key seen again must carry the same value.
pub fn merge_metadata(schemas: &Vec<Schema>) -> (r: Result<Vec<Metadata>, AvroError>)
    ensures
        meta_merge_agrees(merge_metas(all_metas(schemas_metadata(schemas@))), r),
{
    let ghost ss = schemas_metadata(schemas@);
    let mut acc: Vec<Metadata> = Vec::new();
    let mut i: usize = 0;
    assert(ss.take(0) == Seq::<Seq<MetaView>>::empty());
    assert(all_metas(ss.take(0)) == Seq::<MetaView>::empty());
    assert(metas_view(acc@) == Seq::<MetaView>::empty());
    while i < schemas.len()
        invariant
            i <= schemas@.len(),
            ss == schemas_metadata(schemas@),
            distinct_keys(metas_view(acc@)),
            merge_metas(all_metas(ss.take(i as int))) == Ok::<Seq<MetaView>, MetaConflict>(
                metas_view(acc@),
            ),
        decreases schemas@.len() - i,
    {
        let entries = &schemas[i].metadata;
        let ghost sv = ss[i as int];
        let ghost base = all_metas(ss.take(i as int));
        assert(sv == metas_view(entries@));
        let mut j: usize = 0;
        assert(base + sv.take(0) == base);
        while j < entries.len()
            invariant
                i < schemas@.len(),
                j <= entries@.len(),
                entries == &schemas@[i as int].metadata,
                sv == metas_view(entries@),
                ss == schemas_metadata(schemas@),
                base == all_metas(ss.take(i as int)),
                sv == ss[i as int],
                distinct_keys(metas_view(acc@)),
                merge_metas(base + sv.take(j as int)) == Ok::<Seq<MetaView>, MetaConflict>(
                    metas_view(acc@),
                ),
            decreases entries@.len() - j,
        {
            let ghost prefix = base + sv.take(j as int);
            proof {
                assert(prefix.push(sv[j as int]).drop_last() == prefix);
                assert(prefix.push(sv[j as int]) == base + sv.take(j + 1));
            }
            let step = merge_meta_into(&mut acc, &entries[j]);
            if let Err(e) = step {
                proof {
                    let done = base + sv.take(j + 1);
                    assert(ss.take(i + 1).drop_last() == ss.take(i as int));
                    lemma_all_metas_split(ss, i + 1);
                    assert(base + sv == done + sv.skip(j + 1));
                    lemma_meta_err_sticks(done, sv.skip(j + 1) + all_metas(ss.skip(i + 1)));
                    assert(all_metas(ss) == done + (sv.skip(j + 1) + all_metas(ss.skip(i + 1))));
                    assert(ss.take(ss.len() as int) == ss);
                }
                return Err(e);
            }
            j += 1;
        }
        proof {
            assert(sv.take(j as int) == sv);
            assert(ss.take(i + 1).drop_last() == ss.take(i as int));
        }
        i += 1;
    }
    proof {
        assert(ss.take(ss.len() as int) == ss);
    }
    Ok(acc)
}

} // verus!
