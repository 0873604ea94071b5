//! What a merge of schemas computes, stated without reference to the order in
//! which fields are visited, and the laws that follow from it.

use crate::schema::{
    all_fields, distinct_paths, has_path, merge_fields, merge_schemas, position_of, DataKind,
    FieldView, MergeConflict,
};
use vstd::prelude::*;

verus! {

/// Some field of `fs` is at `path` and has type `t`.
pub open spec fn occurs_with_type(fs: Seq<FieldView>, path: Seq<Seq<char>>, t: DataKind) -> bool {
    exists|i: int| 0 <= i < fs.len() && #[trigger] fs[i].path == path && fs[i].data_type == t
}

/// Some field of `fs` at `path` is nullable.
pub open spec fn nullable_in(fs: Seq<FieldView>, path: Seq<Seq<char>>) -> bool {
    exists|i: int| 0 <= i < fs.len() && #[trigger] fs[i].path == path && fs[i].nullable
}

/// Fields of `fs` that share a path share a type.
pub open spec fn consistent(fs: Seq<FieldView>) -> bool {
    forall|a: int, b: int|
        0 <= a < fs.len() && 0 <= b < fs.len() && #[trigger] fs[a].path == #[trigger] fs[b].path
            ==> fs[a].data_type == fs[b].data_type
}

/// `m` has one field per path of `fs`, with that path's type, nullable
/// exactly when some occurrence in `fs` is.
pub open spec fn summarizes(m: Seq<FieldView>, fs: Seq<FieldView>) -> bool {
    &&& distinct_paths(m)
    &&& forall|k: int|
        0 <= k < m.len() ==> occurs_with_type(fs, #[trigger] m[k].path, m[k].data_type) && (
        m[k].nullable == nullable_in(fs, m[k].path))
    &&& forall|i: int| 0 <= i < fs.len() ==> has_path(m, #[trigger] fs[i].path)
}

/// `c` is a conflict that `fs` exhibits: one path with two types.
pub open spec fn witnessed(c: MergeConflict, fs: Seq<FieldView>) -> bool {
    &&& c.existing != c.incoming
    &&& occurs_with_type(fs, c.field, c.existing)
    &&& occurs_with_type(fs, c.field, c.incoming)
}

proof fn lemma_occurs_push(fs: Seq<FieldView>, x: FieldView, n: Seq<Seq<char>>, t: DataKind)
    ensures
        occurs_with_type(fs.push(x), n, t) == (occurs_with_type(fs, n, t) || (x.path == n
            && x.data_type == t)),
        nullable_in(fs.push(x), n) == (nullable_in(fs, n) || (x.path == n && x.nullable)),
{
    let g = fs.push(x);
    if occurs_with_type(fs, n, t) {
        let i = choose|i: int| 0 <= i < fs.len() && #[trigger] fs[i].path == n && fs[i].data_type == t;
        assert(g[i] == fs[i]);
    }
    if occurs_with_type(g, n, t) {
        let i = choose|i: int| 0 <= i < g.len() && #[trigger] g[i].path == n && g[i].data_type == t;
        if i < fs.len() {
            assert(g[i] == fs[i]);
        }
    }
    if nullable_in(fs, n) {
        let i = choose|i: int| 0 <= i < fs.len() && #[trigger] fs[i].path == n && fs[i].nullable;
        assert(g[i] == fs[i]);
    }
    if nullable_in(g, n) {
        let i = choose|i: int| 0 <= i < g.len() && #[trigger] g[i].path == n && g[i].nullable;
        if i < fs.len() {
            assert(g[i] == fs[i]);
        }
    }
    if x.path == n && x.data_type == t {
        assert(g[fs.len() as int] == x);
    }
    if x.path == n && x.nullable {
        assert(g[fs.len() as int] == x);
    }
}

/// Merging succeeds exactly on consistent fields; its result then summarizes
/// them, and its conflict otherwise is one that they exhibit.
pub proof fn lemma_merge_fields_characterized(fs: Seq<FieldView>)
    ensures
        merge_fields(fs) is Ok <==> consistent(fs),
        merge_fields(fs) matches Ok(m) ==> summarizes(m, fs),
        merge_fields(fs) matches Err(c) ==> witnessed(c, fs),
    decreases fs.len(),
{
    if fs.len() == 0 {
        assert(summarizes(Seq::<FieldView>::empty(), fs));
    } else {
        let p = fs.drop_last();
        let x = fs.last();
        assert(fs == p.push(x));
        lemma_merge_fields_characterized(p);
        match merge_fields(p) {
            Err(c) => {
                let i = choose|i: int| 0 <= i < p.len() && #[trigger] p[i].path == c.field && p[i].data_type == c.existing;
                let j = choose|j: int| 0 <= j < p.len() && #[trigger] p[j].path == c.field && p[j].data_type == c.incoming;
                lemma_occurs_push(p, x, c.field, c.existing);
                lemma_occurs_push(p, x, c.field, c.incoming);
                assert(fs[i] == p[i] && fs[j] == p[j]);
            },
            Ok(m) => {
                if !has_path(m, x.path) {
                    let m2 = m.push(x);
                    assert(merge_fields(fs) == Ok::<Seq<FieldView>, MergeConflict>(m2));
                    assert forall|i: int| 0 <= i < p.len() implies p[i].path != x.path by {
                        assert(has_path(m, p[i].path));
                    }
                    assert forall|a: int, b: int|
                        0 <= a < fs.len() && 0 <= b < fs.len() && #[trigger] fs[a].path
                            == #[trigger] fs[b].path implies fs[a].data_type == fs[b].data_type by {
                        if a < p.len() && b < p.len() {
                            assert(fs[a] == p[a] && fs[b] == p[b]);
                        } else if a < p.len() {
                            assert(fs[a] == p[a]);
                        } else if b < p.len() {
                            assert(fs[b] == p[b]);
                        }
                    }
                    assert forall|k: int| 0 <= k < m2.len() implies occurs_with_type(fs, #[trigger] m2[k].path, m2[k].data_type) && (
                        m2[k].nullable == nullable_in(fs, m2[k].path)) by {
                        lemma_occurs_push(p, x, m2[k].path, m2[k].data_type);
                        if k < m.len() {
                            assert(m2[k] == m[k]);
                            assert(m[k].path != x.path);
                        } else {
                            assert(m2[k] == x);
                            if nullable_in(p, x.path) {
                                let i = choose|i: int| 0 <= i < p.len() && #[trigger] p[i].path == x.path && p[i].nullable;
                                assert(p[i].path != x.path);
                            }
                        }
                    }
                    assert forall|i: int| 0 <= i < fs.len() implies has_path(m2, #[trigger] fs[i].path) by {
                        if i < p.len() {
                            assert(fs[i] == p[i]);
                            assert(has_path(m, p[i].path));
                            let k = choose|k: int| 0 <= k < m.len() && #[trigger] m[k].path == p[i].path;
                            assert(m2[k] == m[k]);
                        } else {
                            assert(m2[m.len() as int] == x);
                        }
                    }
                    crate::schema::lemma_merge_step_distinct(m, x);
                } else {
                    let k = position_of(m, x.path);
                    assert(0 <= k < m.len() && m[k].path == x.path);
                    let i0 = choose|i: int| 0 <= i < p.len() && #[trigger] p[i].path == m[k].path && p[i].data_type == m[k].data_type;
                    assert(fs[i0] == p[i0]);
                    assert(fs[p.len() as int] == x);
                    if m[k].data_type == x.data_type {
                        let m2 = m.update(k, FieldView { nullable: m[k].nullable || x.nullable, ..m[k] });
                        assert(merge_fields(fs) == Ok::<Seq<FieldView>, MergeConflict>(m2));
                        assert forall|a: int, b: int|
                            0 <= a < fs.len() && 0 <= b < fs.len() && #[trigger] fs[a].path
                                == #[trigger] fs[b].path implies fs[a].data_type == fs[b].data_type by {
                            if a < p.len() && b < p.len() {
                                assert(fs[a] == p[a] && fs[b] == p[b]);
                            } else if a < p.len() {
                                assert(fs[a] == p[a]);
                                assert(p[a].path == p[i0].path);
                                assert(p[a].data_type == p[i0].data_type);
                            } else if b < p.len() {
                                assert(fs[b] == p[b]);
                                assert(p[b].path == p[i0].path);
                                assert(p[b].data_type == p[i0].data_type);
                            }
                        }
                        assert forall|l: int| 0 <= l < m2.len() implies occurs_with_type(fs, #[trigger] m2[l].path, m2[l].data_type) && (
                            m2[l].nullable == nullable_in(fs, m2[l].path)) by {
                            lemma_occurs_push(p, x, m2[l].path, m2[l].data_type);
                            assert(m[l].path == m2[l].path && m[l].data_type == m2[l].data_type);
                            if l != k {
                                assert(m2[l] == m[l]);
                                assert(m[l].path != m[k].path);
                            }
                        }
                        assert forall|i: int| 0 <= i < fs.len() implies has_path(m2, #[trigger] fs[i].path) by {
                            if i < p.len() {
                                assert(fs[i] == p[i]);
                                assert(has_path(m, p[i].path));
                                let l = choose|l: int| 0 <= l < m.len() && #[trigger] m[l].path == p[i].path;
                                assert(m2[l].path == m[l].path);
                            } else {
                                assert(m2[k].path == x.path);
                            }
                        }
                        crate::schema::lemma_merge_step_distinct(m, x);
                    } else {
                        let c = MergeConflict { field: x.path, existing: m[k].data_type, incoming: x.data_type };
                        assert(merge_fields(fs) == Err::<Seq<FieldView>, MergeConflict>(c));
                        assert(fs[i0].path == fs[p.len() as int].path);
                    }
                }
            },
        }
    }
}

/// Every element of `xs` is an element of `ys`.
pub open spec fn elements_within(xs: Seq<FieldView>, ys: Seq<FieldView>) -> bool {
    forall|x: FieldView| #[trigger] xs.contains(x) ==> ys.contains(x)
}

proof fn lemma_all_fields_contains(ss: Seq<Seq<FieldView>>, x: FieldView)
    ensures
        all_fields(ss).contains(x) <==> exists|i: int| 0 <= i < ss.len() && #[trigger] ss[i].contains(x),
    decreases ss.len(),
{
    if ss.len() > 0 {
        let dl = ss.drop_last();
        let l = ss.last();
        let f = all_fields(dl);
        lemma_all_fields_contains(dl, x);
        assert(all_fields(ss) == f + l);
        if all_fields(ss).contains(x) {
            let q = choose|q: int| 0 <= q < (f + l).len() && (f + l)[q] == x;
            if q < f.len() {
                assert(f[q] == x);
                assert(f.contains(x));
                let i = choose|i: int| 0 <= i < dl.len() && #[trigger] dl[i].contains(x);
                assert(ss[i] == dl[i]);
            } else {
                assert(l[q - f.len()] == x);
                assert(ss[ss.len() - 1].contains(x));
            }
        }
        if exists|i: int| 0 <= i < ss.len() && #[trigger] ss[i].contains(x) {
            let i = choose|i: int| 0 <= i < ss.len() && #[trigger] ss[i].contains(x);
            if i < dl.len() {
                assert(dl[i] == ss[i]);
                assert(f.contains(x));
                let q = choose|q: int| 0 <= q < f.len() && f[q] == x;
                assert((f + l)[q] == x);
            } else {
                let q = choose|q: int| 0 <= q < l.len() && l[q] == x;
                assert((f + l)[f.len() + q] == x);
            }
        }
    }
}

proof fn lemma_consistent_within(xs: Seq<FieldView>, ys: Seq<FieldView>)
    requires
        elements_within(xs, ys),
        consistent(ys),
    ensures
        consistent(xs),
{
    assert forall|a: int, b: int|
        0 <= a < xs.len() && 0 <= b < xs.len() && #[trigger] xs[a].path == #[trigger] xs[b].path
            implies xs[a].data_type == xs[b].data_type by {
        assert(xs.contains(xs[a]));
        assert(xs.contains(xs[b]));
        let i = choose|i: int| 0 <= i < ys.len() && ys[i] == xs[a];
        let j = choose|j: int| 0 <= j < ys.len() && ys[j] == xs[b];
        assert(ys[i].path == ys[j].path);
    }
}

proof fn lemma_summary_within(ma: Seq<FieldView>, fa: Seq<FieldView>, mb: Seq<FieldView>, fb: Seq<FieldView>)
    requires
        elements_within(fa, fb),
        elements_within(fb, fa),
        summarizes(ma, fa),
        summarizes(mb, fb),
        consistent(fb),
    ensures
        forall|k: int| 0 <= k < ma.len() ==> mb.contains(#[trigger] ma[k]),
{
    assert forall|k: int| 0 <= k < ma.len() implies mb.contains(#[trigger] ma[k]) by {
        let n = ma[k].path;
        assert(occurs_with_type(fa, n, ma[k].data_type));
        let i = choose|i: int| 0 <= i < fa.len() && #[trigger] fa[i].path == n && fa[i].data_type == ma[k].data_type;
        assert(fa.contains(fa[i]));
        let j = choose|j: int| 0 <= j < fb.len() && fb[j] == fa[i];
        assert(has_path(mb, fb[j].path));
        let l = choose|l: int| 0 <= l < mb.len() && #[trigger] mb[l].path == fb[j].path;
        assert(occurs_with_type(fb, n, mb[l].data_type));
        let j2 = choose|j2: int| 0 <= j2 < fb.len() && #[trigger] fb[j2].path == n && fb[j2].data_type == mb[l].data_type;
        assert(fb[j2].path == fb[j].path);
        if nullable_in(fa, n) {
            let q = choose|q: int| 0 <= q < fa.len() && #[trigger] fa[q].path == n && fa[q].nullable;
            assert(fa.contains(fa[q]));
            let r = choose|r: int| 0 <= r < fb.len() && fb[r] == fa[q];
            assert(fb[r].path == n);
        }
        if nullable_in(fb, n) {
            let q = choose|q: int| 0 <= q < fb.len() && #[trigger] fb[q].path == n && fb[q].nullable;
            assert(fb.contains(fb[q]));
            let r = choose|r: int| 0 <= r < fa.len() && fa[r] == fb[q];
            assert(fa[r].path == n);
        }
        assert(mb[l] == ma[k]);
    }
}

/// Merging schemas does not depend on their order: two orderings of the same
/// schemas both succeed or both fail, and on success they yield the same set
/// of fields, each with the same type and nullability.
pub proof fn lemma_merge_order_independent(a: Seq<Seq<FieldView>>, b: Seq<Seq<FieldView>>)
    requires
        a.to_multiset() == b.to_multiset(),
    ensures
        merge_schemas(a) is Ok <==> merge_schemas(b) is Ok,
        merge_schemas(a) matches Ok(ma) ==> merge_schemas(b) matches Ok(mb) && ma.to_set()
            == mb.to_set(),
{
    a.to_multiset_ensures();
    b.to_multiset_ensures();
    let fa = all_fields(a);
    let fb = all_fields(b);
    assert forall|x: FieldView| #[trigger] fa.contains(x) implies fb.contains(x) by {
        lemma_all_fields_contains(a, x);
        lemma_all_fields_contains(b, x);
        let i = choose|i: int| 0 <= i < a.len() && #[trigger] a[i].contains(x);
        assert(a.contains(a[i]));
        assert(a.to_multiset().count(a[i]) > 0);
        assert(b.to_multiset().count(a[i]) > 0);
        assert(b.contains(a[i]));
        let j = choose|j: int| 0 <= j < b.len() && b[j] == a[i];
        assert(b[j].contains(x));
    }
    assert forall|x: FieldView| #[trigger] fb.contains(x) implies fa.contains(x) by {
        lemma_all_fields_contains(a, x);
        lemma_all_fields_contains(b, x);
        let i = choose|i: int| 0 <= i < b.len() && #[trigger] b[i].contains(x);
        assert(b.contains(b[i]));
        assert(b.to_multiset().count(b[i]) > 0);
        assert(a.to_multiset().count(b[i]) > 0);
        assert(a.contains(b[i]));
        let j = choose|j: int| 0 <= j < a.len() && a[j] == b[i];
        assert(a[j].contains(x));
    }
    lemma_merge_fields_characterized(fa);
    lemma_merge_fields_characterized(fb);
    if consistent(fa) {
        lemma_consistent_within(fb, fa);
    }
    if consistent(fb) {
        lemma_consistent_within(fa, fb);
    }
    if let Ok(ma) = merge_schemas(a) {
        if let Ok(mb) = merge_schemas(b) {
            lemma_summary_within(ma, fa, mb, fb);
            lemma_summary_within(mb, fb, ma, fa);
            assert forall|y: FieldView| ma.to_set().contains(y) <==> mb.to_set().contains(y) by {
                if ma.contains(y) {
                    let k = choose|k: int| 0 <= k < ma.len() && ma[k] == y;
                    assert(mb.contains(ma[k]));
                }
                if mb.contains(y) {
                    let k = choose|k: int| 0 <= k < mb.len() && mb[k] == y;
                    assert(ma.contains(mb[k]));
                }
            }
            assert(ma.to_set() =~= mb.to_set());
        }
    }
}

proof fn lemma_all_fields_pair(a: Seq<FieldView>, b: Seq<FieldView>)
    ensures
        all_fields(seq![a, b]) == a + b,
{
    let ss = seq![a, b];
    assert(ss.drop_last() == seq![a]);
    assert(seq![a].drop_last() == Seq::<Seq<FieldView>>::empty());
    assert(seq![a].last() == a);
    assert(ss.last() == b);
    assert(all_fields(Seq::<Seq<FieldView>>::empty()) == Seq::<FieldView>::empty());
    assert(all_fields(seq![a]) == Seq::<FieldView>::empty() + a);
    assert(Seq::<FieldView>::empty() + a == a);
}

proof fn lemma_merge_distinct_is_identity(a: Seq<FieldView>)
    requires
        distinct_paths(a),
    ensures
        merge_fields(a) == Ok::<Seq<FieldView>, MergeConflict>(a),
    decreases a.len(),
{
    if a.len() == 0 {
        assert(a == Seq::<FieldView>::empty());
    } else {
        let dl = a.drop_last();
        assert forall|x: int, y: int|
            0 <= x < dl.len() && 0 <= y < dl.len() && x != y implies #[trigger] dl[x].path
            != #[trigger] dl[y].path by {
            assert(dl[x] == a[x] && dl[y] == a[y]);
        }
        lemma_merge_distinct_is_identity(dl);
        if has_path(dl, a.last().path) {
            let k = choose|k: int| 0 <= k < dl.len() && #[trigger] dl[k].path == a.last().path;
            assert(a[k] == dl[k]);
        }
        assert(dl.push(a.last()) == a);
    }
}

proof fn lemma_merge_absorbs(a: Seq<FieldView>, b: Seq<FieldView>, j: int)
    requires
        0 <= j <= b.len(),
        distinct_paths(a),
        forall|i: int| 0 <= i < b.len() ==> a.contains(#[trigger] b[i]),
    ensures
        merge_fields(a + b.take(j)) == Ok::<Seq<FieldView>, MergeConflict>(a),
    decreases j,
{
    if j == 0 {
        assert(a + b.take(0) == a);
        lemma_merge_distinct_is_identity(a);
    } else {
        lemma_merge_absorbs(a, b, j - 1);
        let x = b[j - 1];
        assert(a.contains(x));
        let q = choose|q: int| 0 <= q < a.len() && a[q] == x;
        assert(has_path(a, x.path));
        let k = position_of(a, x.path);
        assert(0 <= k < a.len() && a[k].path == x.path);
        assert(k == q);
        assert((a + b.take(j)).drop_last() == a + b.take(j - 1));
        assert((a + b.take(j)).last() == x);
        assert(a.update(k, FieldView { nullable: a[k].nullable || x.nullable, ..a[k] }) == a);
    }
}

/// When every field of `b` is a field of `a` (whose paths are distinct),
/// merging `a` then `b` yields exactly `a`, and merging `b` then `a` yields
/// the fields of `a`.
pub proof fn lemma_merge_superset(a: Seq<FieldView>, b: Seq<FieldView>)
    requires
        distinct_paths(a),
        forall|i: int| 0 <= i < b.len() ==> a.contains(#[trigger] b[i]),
    ensures
        merge_schemas(seq![a, b]) == Ok::<Seq<FieldView>, MergeConflict>(a),
        merge_schemas(seq![b, a]) matches Ok(m) && m.to_set() == a.to_set(),
{
    lemma_all_fields_pair(a, b);
    lemma_merge_distinct_is_identity(a);
    lemma_merge_absorbs(a, b, b.len() as int);
    assert(b.take(b.len() as int) == b);
    let ab = seq![a, b];
    let ba = seq![b, a];
    assert(ab == Seq::<Seq<FieldView>>::empty().push(a).push(b));
    assert(ba == Seq::<Seq<FieldView>>::empty().push(b).push(a));
    Seq::<Seq<FieldView>>::empty().push(a).to_multiset_ensures();
    Seq::<Seq<FieldView>>::empty().push(b).to_multiset_ensures();
    Seq::<Seq<FieldView>>::empty().to_multiset_ensures();
    assert(ab.to_multiset() =~= ba.to_multiset());
    lemma_merge_order_independent(ab, ba);
}

/// When two schemas declare one path with different types, merging them
/// fails, reporting a path that their fields declare with both reported
/// types. When neither schema repeats a path, the reported path is one that
/// the two declare with different types.
pub proof fn lemma_merge_conflict(a: Seq<FieldView>, b: Seq<FieldView>)
    requires
        exists|i: int, j: int|
            0 <= i < a.len() && 0 <= j < b.len() && #[trigger] a[i].path == #[trigger] b[j].path
                && a[i].data_type != b[j].data_type,
    ensures
        merge_schemas(seq![a, b]) matches Err(c) && witnessed(c, a + b),
        merge_schemas(seq![a, b]) matches Err(c) && (distinct_paths(a) && distinct_paths(b)
            ==> exists|i: int, j: int|
            0 <= i < a.len() && 0 <= j < b.len() && #[trigger] a[i].path == c.field
                && #[trigger] b[j].path == c.field && a[i].data_type != b[j].data_type),
{
    lemma_all_fields_pair(a, b);
    let fs = a + b;
    let (i, j) = choose|i: int, j: int|
        0 <= i < a.len() && 0 <= j < b.len() && #[trigger] a[i].path == #[trigger] b[j].path
            && a[i].data_type != b[j].data_type;
    assert(fs[i] == a[i] && fs[a.len() + j] == b[j]);
    assert(fs[i].path == fs[a.len() + j].path);
    lemma_merge_fields_characterized(fs);
    if let Err(c) = merge_fields(fs) {
        let x = choose|x: int| 0 <= x < fs.len() && #[trigger] fs[x].path == c.field && fs[x].data_type == c.existing;
        let y = choose|y: int| 0 <= y < fs.len() && #[trigger] fs[y].path == c.field && fs[y].data_type == c.incoming;
        if x < a.len() && y < a.len() {
            assert(fs[x] == a[x] && fs[y] == a[y]);
            assert(!distinct_paths(a));
        } else if x >= a.len() && y >= a.len() {
            assert(fs[x] == b[x - a.len()] && fs[y] == b[y - a.len()]);
            assert(!distinct_paths(b));
        } else if x < a.len() {
            assert(fs[x] == a[x] && fs[y] == b[y - a.len()]);
        } else {
            assert(fs[y] == a[y] && fs[x] == b[x - a.len()]);
        }
    }
}

} // verus!
