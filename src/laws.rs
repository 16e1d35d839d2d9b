use vstd::prelude::*;

use crate::config::{texts, Config};
use crate::import::{import_edits, pair_texts, References};
use crate::model::{Catalog, Edit, Text};
use crate::plan::{
    absent, category_edits, category_sanctioned, names, reconcile_edits, tag_edits,
    tag_sanctioned, update_edits, value_edits, values_at, StoreReads,
};

verus! {

proof fn lemma_apply_all_append(m: Catalog, a: Seq<Edit>, b: Seq<Edit>)
    ensures
        m.apply_all(a + b) == m.apply_all(a).apply_all(b),
    decreases b.len(),
{
    if b.len() == 0 {
        assert(a + b =~= a);
    } else {
        lemma_apply_all_append(m, a, b.drop_last());
        assert((a + b).drop_last() =~= a + b.drop_last());
        assert((a + b).last() == b.last());
    }
}

proof fn lemma_contains_last<A>(s: Seq<A>, y: A)
    requires
        s.len() > 0,
    ensures
        s.contains(y) <==> (s.drop_last().contains(y) || s.last() == y),
{
    if s.contains(y) {
        let i = choose|i: int| 0 <= i < s.len() && s[i] == y;
        if i < s.len() - 1 {
            assert(s.drop_last()[i] == y);
        }
    }
    if s.drop_last().contains(y) {
        let i = choose|i: int| 0 <= i < s.drop_last().len() && s.drop_last()[i] == y;
        assert(s[i] == y);
    }
    if s.last() == y {
        assert(s[s.len() - 1] == y);
    }
}

/// Membership in `absent`.
proof fn lemma_absent(xs: Seq<Text>, ys: Seq<Text>)
    ensures
        forall|x: Text| #[trigger] absent(xs, ys).contains(x) <==> (xs.contains(x) && !ys.contains(x)),
    decreases xs.len(),
{
    if xs.len() > 0 {
        lemma_absent(xs.drop_last(), ys);
        let rest = absent(xs.drop_last(), ys);
        assert forall|x: Text| #[trigger] absent(xs, ys).contains(x) <==> (xs.contains(x) && !ys.contains(x)) by {
            lemma_contains_last(xs, x);
            assert(rest.contains(x) <==> (xs.drop_last().contains(x) && !ys.contains(x)));
            if ys.contains(xs.last()) {
                assert(absent(xs, ys) == rest);
            } else {
                assert(absent(xs, ys) == rest.push(xs.last()));
                lemma_contains_last(rest.push(xs.last()), x);
                assert(rest.push(xs.last()).drop_last() =~= rest);
            }
        }
    }
}

/// `absent` is empty when `ys` holds every member of `xs`.
proof fn lemma_absent_empty(xs: Seq<Text>, ys: Seq<Text>)
    requires
        forall|x: Text| xs.contains(x) ==> ys.contains(x),
    ensures
        absent(xs, ys) == Seq::<Text>::empty(),
{
    lemma_absent(xs, ys);
    if absent(xs, ys).len() > 0 {
        assert(absent(xs, ys).contains(absent(xs, ys)[0]));
    }
    assert(absent(xs, ys) =~= Seq::<Text>::empty());
}

proof fn lemma_delete_tags(m: Catalog, ts: Seq<Text>)
    ensures
        ({
            let r = m.apply_all(ts.map_values(|t: Text| Edit::DeleteTag(t)));
            &&& r.tags == m.tags.difference(ts.to_set())
            &&& r.file_tags == m.file_tags.filter(|a: (Text, Text)| !ts.contains(a.1))
            &&& r.categories == m.categories
            &&& r.files == m.files
            &&& r.file_values == m.file_values
        }),
    decreases ts.len(),
{
    let f = |t: Text| Edit::DeleteTag(t);
    if ts.len() == 0 {
        assert(m.tags.difference(ts.to_set()) =~= m.tags);
        assert(m.file_tags.filter(|a: (Text, Text)| !ts.contains(a.1)) =~= m.file_tags);
    } else {
        lemma_delete_tags(m, ts.drop_last());
        assert(ts.map_values(f).drop_last() =~= ts.drop_last().map_values(f));
        let p = m.apply_all(ts.drop_last().map_values(f));
        let r = m.apply_all(ts.map_values(f));
        assert(r == p.delete_tag(ts.last()));
        assert forall|x: Text| ts.contains(x) <==> (ts.drop_last().contains(x) || ts.last() == x) by {
            lemma_contains_last(ts, x);
        }
        assert(r.tags =~= m.tags.difference(ts.to_set()));
        assert(r.file_tags =~= m.file_tags.filter(|a: (Text, Text)| !ts.contains(a.1)));
    }
}

proof fn lemma_insert_tags(m: Catalog, ts: Seq<Text>)
    ensures
        ({
            let r = m.apply_all(ts.map_values(|t: Text| Edit::InsertTag(t)));
            &&& r.tags == m.tags.union(ts.to_set())
            &&& r.file_tags == m.file_tags
            &&& r.categories == m.categories
            &&& r.files == m.files
            &&& r.file_values == m.file_values
        }),
    decreases ts.len(),
{
    let f = |t: Text| Edit::InsertTag(t);
    if ts.len() == 0 {
        assert(m.tags.union(ts.to_set()) =~= m.tags);
    } else {
        lemma_insert_tags(m, ts.drop_last());
        assert(ts.map_values(f).drop_last() =~= ts.drop_last().map_values(f));
        assert forall|x: Text| ts.contains(x) <==> (ts.drop_last().contains(x) || ts.last() == x) by {
            lemma_contains_last(ts, x);
        }
        assert(m.apply_all(ts.map_values(f)).tags =~= m.tags.union(ts.to_set()));
    }
}

proof fn lemma_delete_categories(m: Catalog, cs: Seq<Text>)
    ensures
        ({
            let r = m.apply_all(cs.map_values(|c: Text| Edit::DeleteCategory(c)));
            &&& r.categories == m.categories.remove_keys(cs.to_set())
            &&& r.file_values == m.file_values.filter(|a: (Text, Text, Text)| !cs.contains(a.1))
            &&& r.tags == m.tags
            &&& r.files == m.files
            &&& r.file_tags == m.file_tags
        }),
    decreases cs.len(),
{
    let f = |c: Text| Edit::DeleteCategory(c);
    if cs.len() == 0 {
        assert(m.categories.remove_keys(cs.to_set()) =~= m.categories);
        assert(m.file_values.filter(|a: (Text, Text, Text)| !cs.contains(a.1)) =~= m.file_values);
    } else {
        lemma_delete_categories(m, cs.drop_last());
        assert(cs.map_values(f).drop_last() =~= cs.drop_last().map_values(f));
        assert forall|x: Text| cs.contains(x) <==> (cs.drop_last().contains(x) || cs.last() == x) by {
            lemma_contains_last(cs, x);
        }
        let r = m.apply_all(cs.map_values(f));
        assert(r.categories =~= m.categories.remove_keys(cs.to_set()));
        assert(r.file_values =~= m.file_values.filter(|a: (Text, Text, Text)| !cs.contains(a.1)));
    }
}

proof fn lemma_delete_values(m: Catalog, name: Text, vs: Seq<Text>)
    requires
        m.categories.contains_key(name),
    ensures
        ({
            let r = m.apply_all(vs.map_values(|v: Text| Edit::DeleteValue(name, v)));
            &&& r.categories == m.categories.insert(name, m.categories[name].difference(vs.to_set()))
            &&& r.file_values == m.file_values.filter(
                |a: (Text, Text, Text)| !(a.1 == name && vs.contains(a.2)),
            )
            &&& r.tags == m.tags
            &&& r.files == m.files
            &&& r.file_tags == m.file_tags
        }),
    decreases vs.len(),
{
    let f = |v: Text| Edit::DeleteValue(name, v);
    if vs.len() == 0 {
        assert(m.categories[name].difference(vs.to_set()) =~= m.categories[name]);
        assert(m.categories.insert(name, m.categories[name].difference(vs.to_set())) =~= m.categories);
        assert(m.file_values.filter(|a: (Text, Text, Text)| !(a.1 == name && vs.contains(a.2)))
            =~= m.file_values);
    } else {
        lemma_delete_values(m, name, vs.drop_last());
        assert(vs.map_values(f).drop_last() =~= vs.drop_last().map_values(f));
        assert forall|x: Text| vs.contains(x) <==> (vs.drop_last().contains(x) || vs.last() == x) by {
            lemma_contains_last(vs, x);
        }
        let p = m.apply_all(vs.drop_last().map_values(f));
        let r = m.apply_all(vs.map_values(f));
        assert(p.categories[name].remove(vs.last()) =~= m.categories[name].difference(vs.to_set()));
        assert(r.categories =~= m.categories.insert(name, m.categories[name].difference(vs.to_set())));
        assert(r.file_values =~= m.file_values.filter(
            |a: (Text, Text, Text)| !(a.1 == name && vs.contains(a.2)),
        ));
    }
}

proof fn lemma_insert_values(m: Catalog, name: Text, vs: Seq<Text>)
    requires
        m.categories.contains_key(name),
    ensures
        ({
            let r = m.apply_all(vs.map_values(|v: Text| Edit::InsertValue(name, v)));
            &&& r.categories == m.categories.insert(name, m.categories[name].union(vs.to_set()))
            &&& r.file_values == m.file_values
            &&& r.tags == m.tags
            &&& r.files == m.files
            &&& r.file_tags == m.file_tags
        }),
    decreases vs.len(),
{
    let f = |v: Text| Edit::InsertValue(name, v);
    if vs.len() == 0 {
        assert(m.categories[name].union(vs.to_set()) =~= m.categories[name]);
        assert(m.categories.insert(name, m.categories[name].union(vs.to_set())) =~= m.categories);
    } else {
        lemma_insert_values(m, name, vs.drop_last());
        assert(vs.map_values(f).drop_last() =~= vs.drop_last().map_values(f));
        assert forall|x: Text| vs.contains(x) <==> (vs.drop_last().contains(x) || vs.last() == x) by {
            lemma_contains_last(vs, x);
        }
        let p = m.apply_all(vs.drop_last().map_values(f));
        let r = m.apply_all(vs.map_values(f));
        assert(p.categories[name].insert(vs.last()) =~= m.categories[name].union(vs.to_set()));
        assert(r.categories =~= m.categories.insert(name, m.categories[name].union(vs.to_set())));
    }
}

proof fn lemma_apply_one(m: Catalog, e: Edit)
    ensures
        m.apply_all(seq![e]) == m.apply(e),
{
    assert(seq![e].len() == 1);
    assert(seq![e].last() == e);
    assert(seq![e].drop_last() =~= Seq::<Edit>::empty());
    assert(m.apply_all(Seq::<Edit>::empty()) == m);
}

/// The writes for one wanted category leave it holding exactly the wanted
/// values and touch nothing outside it.
proof fn lemma_value_edits(m: Catalog, name: Text, exists: bool, cur: Seq<Text>, want: Seq<Text>)
    requires
        exists ==> m.categories.contains_key(name) && m.categories[name] == cur.to_set(),
        !exists ==> !m.categories.contains_key(name),
    ensures
        ({
            let r = m.apply_all(value_edits(name, exists, cur, want));
            &&& r.categories == m.categories.insert(name, want.to_set())
            &&& r.tags == m.tags
            &&& r.files == m.files
            &&& r.file_tags == m.file_tags
            &&& r.file_values.subset_of(m.file_values)
            &&& forall|a: (Text, Text, Text)| a.1 != name ==> (#[trigger] r.file_values.contains(a)
                <==> m.file_values.contains(a))
        }),
{
    if exists {
        let d = absent(cur, want);
        let i = absent(want, cur);
        let fd = |v: Text| Edit::DeleteValue(name, v);
        let fi = |v: Text| Edit::InsertValue(name, v);
        lemma_apply_all_append(m, d.map_values(fd), i.map_values(fi));
        lemma_delete_values(m, name, d);
        let m1 = m.apply_all(d.map_values(fd));
        lemma_insert_values(m1, name, i);
        lemma_absent(cur, want);
        lemma_absent(want, cur);
        assert(m1.categories[name].union(i.to_set()) =~= want.to_set());
        assert(m1.categories.insert(name, want.to_set()) =~= m.categories.insert(name, want.to_set()));
    } else {
        let fi = |v: Text| Edit::InsertValue(name, v);
        lemma_apply_all_append(m, seq![Edit::InsertCategory(name)], want.map_values(fi));
        lemma_apply_one(m, Edit::InsertCategory(name));
        let m1 = m.insert_category(name);
        lemma_insert_values(m1, name, want);
        assert(m1.categories[name].union(want.to_set()) =~= want.to_set());
        assert(m1.categories.insert(name, want.to_set()) =~= m.categories.insert(name, want.to_set()));
    }
}

/// Whether `e` writes a category or one of its values.
spec fn is_category_write(e: Edit) -> bool {
    e is InsertCategory || e is DeleteValue || e is InsertValue
}

/// The category that a category write concerns.
spec fn category_of(e: Edit) -> Text {
    match e {
        Edit::InsertCategory(n) => n,
        Edit::DeleteValue(n, _) => n,
        Edit::InsertValue(n, _) => n,
        _ => Seq::empty(),
    }
}

/// Writes on categories other than `c` leave `c`, its values and their
/// associations as they were, and touch no tag or file row.
proof fn lemma_category_frame(m: Catalog, es: Seq<Edit>, c: Text)
    requires
        forall|k: int| 0 <= k < es.len() ==> is_category_write(#[trigger] es[k]) && category_of(es[k]) != c,
    ensures
        ({
            let r = m.apply_all(es);
            &&& r.tags == m.tags
            &&& r.files == m.files
            &&& r.file_tags == m.file_tags
            &&& r.file_values.subset_of(m.file_values)
            &&& r.categories.contains_key(c) == m.categories.contains_key(c)
            &&& m.categories.contains_key(c) ==> r.categories[c] == m.categories[c]
            &&& forall|a: (Text, Text, Text)| a.1 == c ==> (#[trigger] r.file_values.contains(a)
                <==> m.file_values.contains(a))
        }),
    decreases es.len(),
{
    if es.len() > 0 {
        assert forall|k: int| 0 <= k < es.drop_last().len() implies is_category_write(#[trigger] es.drop_last()[k])
            && category_of(es.drop_last()[k]) != c by {
            assert(es.drop_last()[k] == es[k]);
        }
        lemma_category_frame(m, es.drop_last(), c);
        let k = es.len() - 1;
        assert(is_category_write(es[k]) && category_of(es[k]) != c);
    }
}

proof fn lemma_value_edits_write(name: Text, exists: bool, cur: Seq<Text>, want: Seq<Text>)
    ensures
        forall|k: int| 0 <= k < value_edits(name, exists, cur, want).len() ==> {
            let e = #[trigger] value_edits(name, exists, cur, want)[k];
            is_category_write(e) && category_of(e) == name
        },
{
}

proof fn lemma_update_edits_write(want: Seq<(Text, Seq<Text>)>, cur_cats: Seq<Text>, vals: Seq<Seq<Text>>)
    ensures
        forall|k: int| 0 <= k < update_edits(want, cur_cats, vals).len() ==> {
            let e = #[trigger] update_edits(want, cur_cats, vals)[k];
            is_category_write(e) && names(want).contains(category_of(e))
        },
    decreases want.len(),
{
    if want.len() > 0 {
        let w = want.drop_last();
        let j = want.len() - 1;
        lemma_update_edits_write(w, cur_cats, vals);
        let a = update_edits(w, cur_cats, vals);
        let b = value_edits(want[j].0, cur_cats.contains(want[j].0), values_at(vals, j), want[j].1);
        lemma_value_edits_write(want[j].0, cur_cats.contains(want[j].0), values_at(vals, j), want[j].1);
        assert(update_edits(want, cur_cats, vals) == a + b);
        assert forall|n: Text| names(w).contains(n) implies names(want).contains(n) by {
            let i = choose|i: int| 0 <= i < names(w).len() && names(w)[i] == n;
            assert(names(want)[i] == n);
        }
        assert(names(want)[j] == want[j].0);
        assert forall|k: int| 0 <= k < (a + b).len() implies is_category_write(#[trigger] (a + b)[k])
            && names(want).contains(category_of((a + b)[k])) by {
            if k < a.len() {
                assert((a + b)[k] == a[k]);
            } else {
                assert((a + b)[k] == b[k - a.len()]);
            }
        }
    }
}

/// With distinct names, the updates bring each wanted category to its wanted
/// values and leave every other category as it was.
proof fn lemma_updates(m: Catalog, want: Seq<(Text, Seq<Text>)>, cur_cats: Seq<Text>, vals: Seq<Seq<Text>>)
    requires
        names(want).no_duplicates(),
        forall|i: int| 0 <= i < want.len() ==> (cur_cats.contains(#[trigger] want[i].0)
            <==> m.categories.contains_key(want[i].0)),
        forall|i: int| 0 <= i < want.len() && m.categories.contains_key(#[trigger] want[i].0)
            ==> m.categories[want[i].0] == values_at(vals, i).to_set(),
    ensures
        ({
            let r = m.apply_all(update_edits(want, cur_cats, vals));
            &&& forall|i: int| 0 <= i < want.len() ==> r.categories.contains_key(#[trigger] want[i].0)
                && r.categories[want[i].0] == want[i].1.to_set()
            &&& forall|c: Text| !names(want).contains(c) ==> (#[trigger] r.categories.contains_key(c)
                == m.categories.contains_key(c) && (m.categories.contains_key(c) ==> r.categories[c] == m.categories[c]))
            &&& r.tags == m.tags
            &&& r.files == m.files
            &&& r.file_tags == m.file_tags
        }),
    decreases want.len(),
{
    if want.len() > 0 {
        let w = want.drop_last();
        let j = want.len() - 1;
        let name = want[j].0;
        assert(names(w) =~= names(want).drop_last());
        assert forall|i: int| 0 <= i < w.len() implies w[i] == want[i] by {}
        assert forall|i: int| 0 <= i < want.len() implies names(want)[i] == #[trigger] want[i].0 by {}
        lemma_updates(m, w, cur_cats, vals);
        let r1 = m.apply_all(update_edits(w, cur_cats, vals));
        assert(!names(w).contains(name)) by {
            if names(w).contains(name) {
                let i = choose|i: int| 0 <= i < names(w).len() && names(w)[i] == name;
                assert(names(want)[i] == names(want)[j]);
            }
        }
        let exists = cur_cats.contains(name);
        assert(r1.categories.contains_key(name) == m.categories.contains_key(name));
        assert(exists <==> m.categories.contains_key(want[j].0));
        if exists {
            assert(m.categories[want[j].0] == values_at(vals, j).to_set());
        }
        let b = value_edits(name, exists, values_at(vals, j), want[j].1);
        lemma_value_edits(r1, name, exists, values_at(vals, j), want[j].1);
        lemma_apply_all_append(m, update_edits(w, cur_cats, vals), b);
        assert(update_edits(want, cur_cats, vals) == update_edits(w, cur_cats, vals) + b);
        let r = m.apply_all(update_edits(want, cur_cats, vals));
        assert forall|i: int| 0 <= i < want.len() implies r.categories.contains_key(#[trigger] want[i].0)
            && r.categories[want[i].0] == want[i].1.to_set() by {
            if i < j {
                assert(names(want)[i] != names(want)[j]);
                assert(w[i].0 == want[i].0);
            }
        }
        assert forall|c: Text| !names(want).contains(c) implies (#[trigger] r.categories.contains_key(c)
            == m.categories.contains_key(c) && (m.categories.contains_key(c) ==> r.categories[c] == m.categories[c])) by {
            assert(c != name) by {
                assert(names(want)[j] == name);
            }
            if names(w).contains(c) {
                let i = choose|i: int| 0 <= i < names(w).len() && names(w)[i] == c;
                assert(names(want)[i] == c);
            }
        }
    }
}

proof fn lemma_wf_apply(m: Catalog, e: Edit)
    requires
        m.wf(),
    ensures
        m.apply(e).wf(),
{
    let r = m.apply(e);
    match e {
        Edit::DeleteValue(c, v) => {
            if m.categories.contains_key(c) {
                assert forall|p: Text, c2: Text, v2: Text| #[trigger] r.file_values.contains((p, c2, v2)) implies {
                    &&& r.files.contains_key(p)
                    &&& r.categories.contains_key(c2)
                    &&& r.categories[c2].contains(v2)
                } by {
                    assert(m.file_values.contains((p, c2, v2)));
                }
            }
        },
        Edit::DeleteCategory(c) => {
            assert forall|p: Text, c2: Text, v2: Text| #[trigger] r.file_values.contains((p, c2, v2)) implies {
                &&& r.files.contains_key(p)
                &&& r.categories.contains_key(c2)
                &&& r.categories[c2].contains(v2)
            } by {
                assert(m.file_values.contains((p, c2, v2)));
            }
        },
        Edit::DeleteTag(t) => {
            assert forall|p: Text, t2: Text| #[trigger] r.file_tags.contains((p, t2)) implies r.files.contains_key(p)
                && r.tags.contains(t2) by {
                assert(m.file_tags.contains((p, t2)));
            }
        },
        Edit::InsertCategory(c) => {
            assert forall|p: Text, c2: Text, v2: Text| #[trigger] r.file_values.contains((p, c2, v2)) implies {
                &&& r.files.contains_key(p)
                &&& r.categories.contains_key(c2)
                &&& r.categories[c2].contains(v2)
            } by {
                assert(m.file_values.contains((p, c2, v2)));
            }
        },
        Edit::InsertValue(c, v) => {
            assert forall|p: Text, c2: Text, v2: Text| #[trigger] r.file_values.contains((p, c2, v2)) implies {
                &&& r.files.contains_key(p)
                &&& r.categories.contains_key(c2)
                &&& r.categories[c2].contains(v2)
            } by {
                assert(m.file_values.contains((p, c2, v2)));
            }
        },
        _ => {},
    }
}

proof fn lemma_wf_apply_all(m: Catalog, es: Seq<Edit>)
    requires
        m.wf(),
    ensures
        m.apply_all(es).wf(),
    decreases es.len(),
{
    if es.len() > 0 {
        lemma_wf_apply_all(m, es.drop_last());
        lemma_wf_apply(m.apply_all(es.drop_last()), es.last());
    }
}

/// The store `m` holds what `reads` says: its tags, its category names, and
/// the values of each configured category that it holds.
pub open spec fn reflects(m: Catalog, reads: &StoreReads, config: &Config) -> bool {
    &&& m.tags == texts(reads.tags@).to_set()
    &&& m.categories.dom() == texts(reads.categories@).to_set()
    &&& forall|i: int|
        0 <= i < config.category_views().len() && m.categories.contains_key(
            #[trigger] config.category_views()[i].0,
        ) ==> m.categories[config.category_views()[i].0] == values_at(reads.value_texts(), i).to_set()
}

/// The tag writes and the category deletes, and what they leave.
proof fn lemma_first_steps(m: Catalog, reads: StoreReads, config: Config)
    requires
        reflects(m, &reads, &config),
    ensures
        ({
            let ct = texts(reads.tags@);
            let cc = texts(reads.categories@);
            let want = config.category_views();
            let cd = absent(cc, names(want)).map_values(|c: Text| Edit::DeleteCategory(c));
            let m3 = m.apply_all(tag_edits(ct, config.tag_texts())).apply_all(cd);
            &&& m.apply_all(reconcile_edits(&reads, &config)) == m3.apply_all(
                update_edits(want, cc, reads.value_texts()),
            )
            &&& m3.tags == config.tag_texts().to_set()
            &&& m3.categories == m.categories.remove_keys(absent(cc, names(want)).to_set())
            &&& m3.files == m.files
        }),
{
    let ct = texts(reads.tags@);
    let cc = texts(reads.categories@);
    let wt = config.tag_texts();
    let want = config.category_views();
    let vals = reads.value_texts();
    let d = absent(ct, wt).map_values(|t: Text| Edit::DeleteTag(t));
    let i = absent(wt, ct).map_values(|t: Text| Edit::InsertTag(t));
    let cd = absent(cc, names(want)).map_values(|c: Text| Edit::DeleteCategory(c));
    let u = update_edits(want, cc, vals);
    assert(reconcile_edits(&reads, &config) == (d + i) + (cd + u));
    lemma_apply_all_append(m, d + i, cd + u);
    lemma_apply_all_append(m, d, i);
    let m2 = m.apply_all(d + i);
    lemma_apply_all_append(m2, cd, u);
    lemma_delete_tags(m, absent(ct, wt));
    lemma_insert_tags(m.apply_all(d), absent(wt, ct));
    lemma_delete_categories(m2, absent(cc, names(want)));
    lemma_absent(ct, wt);
    lemma_absent(wt, ct);
    assert(m2.tags =~= wt.to_set());
}

/// Convergence: applying the writes that a reconciliation plans to the store
/// they were planned from leaves exactly the configured tags, exactly the
/// configured categories, and each category with exactly its configured
/// values. Category names in the configuration are taken to be distinct.
pub proof fn convergence(m: Catalog, reads: StoreReads, config: Config)
    requires
        reflects(m, &reads, &config),
        names(config.category_views()).no_duplicates(),
    ensures
        matches_config(m.apply_all(reconcile_edits(&reads, &config)), &config),
{
    let cc = texts(reads.categories@);
    let want = config.category_views();
    let vals = reads.value_texts();
    lemma_first_steps(m, reads, config);
    let cd = absent(cc, names(want)).map_values(|c: Text| Edit::DeleteCategory(c));
    let m3 = m.apply_all(tag_edits(texts(reads.tags@), config.tag_texts())).apply_all(cd);
    lemma_absent(cc, names(want));
    assert forall|i: int| 0 <= i < want.len() implies names(want)[i] == #[trigger] want[i].0 by {}
    assert forall|i: int| 0 <= i < want.len() implies (cc.contains(#[trigger] want[i].0)
        <==> m3.categories.contains_key(want[i].0)) by {
        assert(names(want).contains(want[i].0)) by {
            assert(names(want)[i] == want[i].0);
        }
    }
    assert forall|i: int| 0 <= i < want.len() && m3.categories.contains_key(#[trigger] want[i].0)
        implies m3.categories[want[i].0] == values_at(vals, i).to_set() by {
        assert(names(want)[i] == want[i].0);
    }
    lemma_updates(m3, want, cc, vals);
    let r = m.apply_all(reconcile_edits(&reads, &config));
    assert forall|c: Text| #[trigger] r.categories.contains_key(c) <==> names(want).to_set().contains(c) by {
        if names(want).contains(c) {
            let i = choose|i: int| 0 <= i < names(want).len() && names(want)[i] == c;
            assert(want[i].0 == c);
        } else {
            assert(r.categories.contains_key(c) == m3.categories.contains_key(c));
            if m.categories.contains_key(c) {
                assert(cc.to_set().contains(c));
            }
        }
    }
    assert(r.categories.dom() =~= names(want).to_set());
}

proof fn lemma_updates_empty(want: Seq<(Text, Seq<Text>)>, cc: Seq<Text>, vals: Seq<Seq<Text>>)
    requires
        forall|i: int| 0 <= i < want.len() ==> cc.contains(#[trigger] want[i].0) && values_at(vals, i).to_set()
            == want[i].1.to_set(),
    ensures
        update_edits(want, cc, vals) == Seq::<Edit>::empty(),
    decreases want.len(),
{
    if want.len() > 0 {
        let w = want.drop_last();
        let j = want.len() - 1;
        assert forall|i: int| 0 <= i < w.len() implies cc.contains(#[trigger] w[i].0) && values_at(vals, i).to_set()
            == w[i].1.to_set() by {
            assert(w[i] == want[i]);
        }
        lemma_updates_empty(w, cc, vals);
        let cur = values_at(vals, j);
        let wv = want[j].1;
        assert(cc.contains(want[j].0) && cur.to_set() == wv.to_set());
        assert forall|x: Text| cur.contains(x) implies wv.contains(x) by {
            assert(cur.to_set().contains(x));
        }
        assert forall|x: Text| wv.contains(x) implies cur.contains(x) by {
            assert(wv.to_set().contains(x));
        }
        lemma_absent_empty(cur, wv);
        lemma_absent_empty(wv, cur);
        assert(update_edits(want, cc, vals) =~= Seq::<Edit>::empty());
    }
}

/// Idempotence: once a reconciliation's writes are applied, reading the store
/// again and reconciling with the same configuration plans no write at all.
/// Category names in the configuration are taken to be distinct.
pub proof fn idempotence(m: Catalog, reads: StoreReads, config: Config, again: StoreReads)
    requires
        reflects(m, &reads, &config),
        names(config.category_views()).no_duplicates(),
        reflects(m.apply_all(reconcile_edits(&reads, &config)), &again, &config),
    ensures
        reconcile_edits(&again, &config) == Seq::<Edit>::empty(),
{
    convergence(m, reads, config);
    plan_empty_when_converged(m.apply_all(reconcile_edits(&reads, &config)), again, config);
}

/// Cascade: a stored category that the configuration drops is gone once the
/// reconciliation's writes are applied, and no file association is left
/// pointing at it or at one of its values; the store stays well formed.
pub proof fn cascade(m: Catalog, reads: StoreReads, config: Config, c: Text)
    requires
        m.wf(),
        reflects(m, &reads, &config),
        m.categories.contains_key(c),
        !names(config.category_views()).contains(c),
    ensures
        ({
            let r = m.apply_all(reconcile_edits(&reads, &config));
            &&& r.wf()
            &&& !r.categories.contains_key(c)
            &&& forall|p: Text, v: Text| !r.file_values.contains((p, c, v))
        }),
{
    let cc = texts(reads.categories@);
    let want = config.category_views();
    let vals = reads.value_texts();
    lemma_first_steps(m, reads, config);
    let cd = absent(cc, names(want)).map_values(|x: Text| Edit::DeleteCategory(x));
    let m3 = m.apply_all(tag_edits(texts(reads.tags@), config.tag_texts())).apply_all(cd);
    lemma_absent(cc, names(want));
    assert(cc.to_set().contains(c));
    assert(!m3.categories.contains_key(c));
    let u = update_edits(want, cc, vals);
    lemma_update_edits_write(want, cc, vals);
    assert forall|k: int| 0 <= k < u.len() implies is_category_write(#[trigger] u[k]) && category_of(u[k]) != c by {}
    lemma_category_frame(m3, u, c);
    lemma_wf_apply_all(m, reconcile_edits(&reads, &config));
    let r = m.apply_all(reconcile_edits(&reads, &config));
    assert forall|p: Text, v: Text| !r.file_values.contains((p, c, v)) by {
        if r.file_values.contains((p, c, v)) {
            assert(r.categories.contains_key(c));
        }
    }
}

/// Whether `e` only adds a tag, a category or a value.
spec fn is_reference_insert(e: Edit) -> bool {
    e is InsertTag || e is InsertCategory || e is InsertValue
}

proof fn lemma_reference_inserts_keep(m: Catalog, es: Seq<Edit>)
    requires
        forall|k: int| 0 <= k < es.len() ==> is_reference_insert(#[trigger] es[k]),
    ensures
        m.apply_all(es).files == m.files,
        m.apply_all(es).file_tags == m.file_tags,
        m.apply_all(es).file_values == m.file_values,
    decreases es.len(),
{
    if es.len() > 0 {
        assert forall|k: int| 0 <= k < es.drop_last().len() implies is_reference_insert(#[trigger] es.drop_last()[k]) by {
            assert(es.drop_last()[k] == es[k]);
        }
        lemma_reference_inserts_keep(m, es.drop_last());
        assert(is_reference_insert(es[es.len() - 1]));
    }
}

proof fn lemma_updates_inserts(want: Seq<(Text, Seq<Text>)>, cc: Seq<Text>, vals: Seq<Seq<Text>>)
    requires
        forall|i: int| 0 <= i < want.len() && cc.contains(#[trigger] want[i].0) ==> forall|x: Text|
            values_at(vals, i).contains(x) ==> want[i].1.contains(x),
    ensures
        forall|k: int| 0 <= k < update_edits(want, cc, vals).len() ==> is_reference_insert(
            #[trigger] update_edits(want, cc, vals)[k],
        ),
    decreases want.len(),
{
    if want.len() > 0 {
        let w = want.drop_last();
        let j = want.len() - 1;
        assert forall|i: int| 0 <= i < w.len() && cc.contains(#[trigger] w[i].0) implies forall|x: Text|
            values_at(vals, i).contains(x) ==> w[i].1.contains(x) by {
            assert(w[i] == want[i]);
        }
        lemma_updates_inserts(w, cc, vals);
        let a = update_edits(w, cc, vals);
        let name = want[j].0;
        let exists = cc.contains(name);
        let b = value_edits(name, exists, values_at(vals, j), want[j].1);
        if exists {
            lemma_absent_empty(values_at(vals, j), want[j].1);
        }
        assert forall|k: int| 0 <= k < b.len() implies is_reference_insert(#[trigger] b[k]) by {}
        assert(update_edits(want, cc, vals) == a + b);
        assert forall|k: int| 0 <= k < (a + b).len() implies is_reference_insert(#[trigger] (a + b)[k]) by {
            if k < a.len() {
                assert((a + b)[k] == a[k]);
            } else {
                assert((a + b)[k] == b[k - a.len()]);
            }
        }
    }
}

/// The configuration keeps every tag, category and value that `m` holds.
pub open spec fn keeps_all(m: Catalog, config: &Config) -> bool {
    &&& m.tags.subset_of(config.tag_texts().to_set())
    &&& m.categories.dom().subset_of(names(config.category_views()).to_set())
    &&& forall|i: int|
        0 <= i < config.category_views().len() && m.categories.contains_key(
            #[trigger] config.category_views()[i].0,
        ) ==> m.categories[config.category_views()[i].0].subset_of(
            config.category_views()[i].1.to_set(),
        )
}

proof fn lemma_superset_plan_inserts(m: Catalog, reads: StoreReads, config: Config)
    requires
        reflects(m, &reads, &config),
        keeps_all(m, &config),
    ensures
        forall|k: int| 0 <= k < reconcile_edits(&reads, &config).len() ==> is_reference_insert(
            #[trigger] reconcile_edits(&reads, &config)[k],
        ),
{
    let ct = texts(reads.tags@);
    let cc = texts(reads.categories@);
    let wt = config.tag_texts();
    let want = config.category_views();
    let vals = reads.value_texts();
    assert forall|x: Text| ct.contains(x) implies wt.contains(x) by {
        assert(ct.to_set().contains(x));
        assert(wt.to_set().contains(x));
    }
    assert forall|x: Text| cc.contains(x) implies names(want).contains(x) by {
        assert(cc.to_set().contains(x));
        assert(names(want).to_set().contains(x));
    }
    lemma_absent_empty(ct, wt);
    lemma_absent_empty(cc, names(want));
    assert forall|i: int| 0 <= i < want.len() && cc.contains(#[trigger] want[i].0) implies forall|x: Text|
        values_at(vals, i).contains(x) ==> want[i].1.contains(x) by {
        assert(cc.to_set().contains(want[i].0));
        assert forall|x: Text| values_at(vals, i).contains(x) implies want[i].1.contains(x) by {
            assert(values_at(vals, i).to_set().contains(x));
            assert(want[i].1.to_set().contains(x));
        }
    }
    lemma_updates_inserts(want, cc, vals);
    let ins = absent(wt, ct).map_values(|t: Text| Edit::InsertTag(t));
    let u = update_edits(want, cc, vals);
    assert(reconcile_edits(&reads, &config) =~= ins + u);
    assert forall|k: int| 0 <= k < (ins + u).len() implies is_reference_insert(#[trigger] (ins + u)[k]) by {
        if k < ins.len() {
            assert((ins + u)[k] == ins[k]);
        } else {
            assert((ins + u)[k] == u[k - ins.len()]);
        }
    }
}



/// Additive safety: when the configuration keeps every stored tag, every
/// stored category and every stored value, reconciliation plans only inserts,
/// and no file row and no file association is removed.
pub proof fn additive_safety(m: Catalog, reads: StoreReads, config: Config)
    requires
        reflects(m, &reads, &config),
        keeps_all(m, &config),
    ensures
        forall|k: int| 0 <= k < reconcile_edits(&reads, &config).len() ==> (#[trigger] reconcile_edits(
            &reads,
            &config,
        )[k]).is_insert(),
        m.apply_all(reconcile_edits(&reads, &config)).files == m.files,
        m.apply_all(reconcile_edits(&reads, &config)).file_tags == m.file_tags,
        m.apply_all(reconcile_edits(&reads, &config)).file_values == m.file_values,
{
    lemma_superset_plan_inserts(m, reads, config);
    lemma_reference_inserts_keep(m, reconcile_edits(&reads, &config));
}

/// Additive safety holds too when some of the planned writes are refused.
pub proof fn additive_safety_skipping(m: Catalog, reads: StoreReads, config: Config, skip: Set<int>)
    requires
        reflects(m, &reads, &config),
        keeps_all(m, &config),
    ensures
        m.apply_skipping(reconcile_edits(&reads, &config), skip).files == m.files,
        m.apply_skipping(reconcile_edits(&reads, &config), skip).file_tags == m.file_tags,
        m.apply_skipping(reconcile_edits(&reads, &config), skip).file_values == m.file_values,
{
    lemma_superset_plan_inserts(m, reads, config);
    lemma_skip_reference_inserts_keep(m, reconcile_edits(&reads, &config), skip);
}

proof fn lemma_skip_reference_inserts_keep(m: Catalog, es: Seq<Edit>, skip: Set<int>)
    requires
        forall|k: int| 0 <= k < es.len() ==> is_reference_insert(#[trigger] es[k]),
    ensures
        m.apply_skipping(es, skip).files == m.files,
        m.apply_skipping(es, skip).file_tags == m.file_tags,
        m.apply_skipping(es, skip).file_values == m.file_values,
    decreases es.len(),
{
    if es.len() > 0 {
        assert forall|k: int| 0 <= k < es.drop_last().len() implies is_reference_insert(#[trigger] es.drop_last()[k]) by {
            assert(es.drop_last()[k] == es[k]);
        }
        lemma_skip_reference_inserts_keep(m, es.drop_last(), skip);
        assert(is_reference_insert(es[es.len() - 1]));
    }
}

/// With no write refused, the writes take effect one after the other.
pub proof fn lemma_skip_none(m: Catalog, es: Seq<Edit>)
    ensures
        m.apply_skipping(es, Set::empty()) == m.apply_all(es),
    decreases es.len(),
{
    if es.len() > 0 {
        lemma_skip_none(m, es.drop_last());
    }
}

/// Only the positions within `es` matter.
pub proof fn lemma_skip_within(m: Catalog, es: Seq<Edit>, a: Set<int>, b: Set<int>)
    requires
        forall|k: int| 0 <= k < es.len() ==> (a.contains(k) <==> b.contains(k)),
    ensures
        m.apply_skipping(es, a) == m.apply_skipping(es, b),
    decreases es.len(),
{
    if es.len() > 0 {
        lemma_skip_within(m, es.drop_last(), a, b);
        assert(a.contains(es.len() - 1) <==> b.contains(es.len() - 1));
    }
}

/// The last of `es` taken back off.
pub proof fn lemma_skip_take(m: Catalog, es: Seq<Edit>, skip: Set<int>, i: int)
    requires
        0 <= i < es.len(),
    ensures
        m.apply_skipping(es.take(i + 1), skip) == if skip.contains(i) {
            m.apply_skipping(es.take(i), skip)
        } else {
            m.apply_skipping(es.take(i), skip).apply(es[i])
        },
{
    assert(es.take(i + 1).drop_last() =~= es.take(i));
}

/// Applying writes, some refused, keeps the store well formed.
pub proof fn lemma_skip_wf(m: Catalog, es: Seq<Edit>, skip: Set<int>)
    requires
        m.wf(),
    ensures
        m.apply_skipping(es, skip).wf(),
    decreases es.len(),
{
    if es.len() > 0 {
        lemma_skip_wf(m, es.drop_last(), skip);
        if !skip.contains(es.len() - 1) {
            lemma_wf_apply(m.apply_skipping(es.drop_last(), skip), es.last());
        }
    }
}

/// An import is admitted only when the store holds every chosen reference:
/// a chosen tag that the store lacks makes the references read from it refuse
/// the import, before any row is written.
pub proof fn import_needs_references(
    m: Catalog,
    refs: References,
    tags: Seq<Text>,
    values: Seq<(Text, Text)>,
    t: Text,
)
    requires
        texts(refs.tags@).to_set() == m.tags,
        tags.contains(t),
        !m.tags.contains(t),
    ensures
        !refs.admits(tags, values),
{
    let i = choose|i: int| 0 <= i < tags.len() && tags[i] == t;
    assert(!texts(refs.tags@).to_set().contains(tags[i]));
}

pub proof fn lemma_tag_edits_sanctioned(cur: Seq<Text>, want_tags: Seq<Text>)
    ensures
        forall|k: int| 0 <= k < tag_edits(cur, want_tags).len() ==> tag_sanctioned(
            #[trigger] tag_edits(cur, want_tags)[k],
            want_tags,
        ),
{
    lemma_absent(cur, want_tags);
    lemma_absent(want_tags, cur);
    let d = absent(cur, want_tags).map_values(|t: Text| Edit::DeleteTag(t));
    let i = absent(want_tags, cur).map_values(|t: Text| Edit::InsertTag(t));
    assert forall|k: int| 0 <= k < (d + i).len() implies tag_sanctioned(#[trigger] (d + i)[k], want_tags) by {
        if k < d.len() {
            assert((d + i)[k] == d[k]);
            assert(absent(cur, want_tags).contains(absent(cur, want_tags)[k]));
        } else {
            let j = k - d.len();
            assert((d + i)[k] == i[j]);
            assert(absent(want_tags, cur).contains(absent(want_tags, cur)[j]));
        }
    }
}

proof fn lemma_update_edits_sanctioned(want: Seq<(Text, Seq<Text>)>, cc: Seq<Text>, vals: Seq<Seq<Text>>)
    ensures
        forall|k: int| 0 <= k < update_edits(want, cc, vals).len() ==> category_sanctioned(
            #[trigger] update_edits(want, cc, vals)[k],
            want,
        ),
    decreases want.len(),
{
    if want.len() > 0 {
        let w = want.drop_last();
        let j = want.len() - 1;
        lemma_update_edits_sanctioned(w, cc, vals);
        let a = update_edits(w, cc, vals);
        let name = want[j].0;
        let cur = values_at(vals, j);
        let wv = want[j].1;
        let b = value_edits(name, cc.contains(name), cur, wv);
        assert(update_edits(want, cc, vals) == a + b);
        assert(names(want)[j] == name);
        lemma_absent(cur, wv);
        lemma_absent(wv, cur);
        assert forall|k: int| 0 <= k < a.len() implies category_sanctioned(#[trigger] a[k], want) by {
            assert(category_sanctioned(a[k], w));
            assert forall|i: int| 0 <= i < w.len() implies #[trigger] w[i] == want[i] by {}
            if let Edit::InsertCategory(c) = a[k] {
                let i = choose|i: int| 0 <= i < names(w).len() && names(w)[i] == c;
                assert(names(want)[i] == c);
            }
            if let Edit::DeleteCategory(c) = a[k] {
                assert(false) by {
                    lemma_update_edits_write(w, cc, vals);
                }
            }
        }
        assert forall|k: int| 0 <= k < b.len() implies category_sanctioned(#[trigger] b[k], want) by {
            if cc.contains(name) {
                let d = absent(cur, wv).map_values(|v: Text| Edit::DeleteValue(name, v));
                if k < d.len() {
                    assert(absent(cur, wv).contains(absent(cur, wv)[k]));
                    assert(want[j].0 == name);
                } else {
                    let m = k - d.len();
                    assert(absent(wv, cur).contains(absent(wv, cur)[m]));
                    assert(want[j].0 == name);
                }
            } else {
                if k > 0 {
                    assert(wv.contains(wv[k - 1]));
                    assert(want[j].0 == name);
                }
            }
        }
        assert forall|k: int| 0 <= k < (a + b).len() implies category_sanctioned(#[trigger] (a + b)[k], want) by {
            if k < a.len() {
                assert((a + b)[k] == a[k]);
            } else {
                assert((a + b)[k] == b[k - a.len()]);
            }
        }
    }
}

pub proof fn lemma_category_edits_sanctioned(cc: Seq<Text>, vals: Seq<Seq<Text>>, want: Seq<(Text, Seq<Text>)>)
    ensures
        forall|k: int| 0 <= k < category_edits(cc, vals, want).len() ==> category_sanctioned(
            #[trigger] category_edits(cc, vals, want)[k],
            want,
        ),
{
    lemma_absent(cc, names(want));
    lemma_update_edits_sanctioned(want, cc, vals);
    let d = absent(cc, names(want)).map_values(|c: Text| Edit::DeleteCategory(c));
    let u = update_edits(want, cc, vals);
    assert forall|k: int| 0 <= k < (d + u).len() implies category_sanctioned(#[trigger] (d + u)[k], want) by {
        if k < d.len() {
            assert((d + u)[k] == d[k]);
            assert(absent(cc, names(want)).contains(absent(cc, names(want))[k]));
        } else {
            assert((d + u)[k] == u[k - d.len()]);
        }
    }
}

/// Reconciliation only does what the configuration calls for, whatever the
/// store held: it inserts only configured tags, categories and values, and
/// deletes only those that the configuration leaves out.
pub proof fn plan_sanctioned(reads: StoreReads, config: Config)
    ensures
        forall|k: int| 0 <= k < reconcile_edits(&reads, &config).len() ==> {
            let e = #[trigger] reconcile_edits(&reads, &config)[k];
            tag_sanctioned(e, config.tag_texts()) || category_sanctioned(e, config.category_views())
        },
{
    let t = tag_edits(texts(reads.tags@), config.tag_texts());
    let c = category_edits(texts(reads.categories@), reads.value_texts(), config.category_views());
    lemma_tag_edits_sanctioned(texts(reads.tags@), config.tag_texts());
    lemma_category_edits_sanctioned(texts(reads.categories@), reads.value_texts(), config.category_views());
    assert forall|k: int| 0 <= k < (t + c).len() implies {
        let e = #[trigger] (t + c)[k];
        tag_sanctioned(e, config.tag_texts()) || category_sanctioned(e, config.category_views())
    } by {
        if k < t.len() {
            assert((t + c)[k] == t[k]);
        } else {
            assert((t + c)[k] == c[k - t.len()]);
        }
    }
}

proof fn lemma_associate_tags(m: Catalog, p: Text, ts: Seq<Text>)
    requires
        m.files.contains_key(p),
        forall|i: int| 0 <= i < ts.len() ==> m.tags.contains(#[trigger] ts[i]),
    ensures
        ({
            let r = m.apply_all(ts.map_values(|t: Text| Edit::AssociateTag(p, t)));
            &&& r.file_tags == m.file_tags.union(ts.to_set().map(|t: Text| (p, t)))
            &&& r.tags == m.tags
            &&& r.categories == m.categories
            &&& r.files == m.files
            &&& r.file_values == m.file_values
        }),
    decreases ts.len(),
{
    let f = |t: Text| Edit::AssociateTag(p, t);
    if ts.len() == 0 {
        assert(ts.to_set().map(|t: Text| (p, t)) =~= Set::empty());
        assert(m.file_tags.union(ts.to_set().map(|t: Text| (p, t))) =~= m.file_tags);
    } else {
        assert forall|i: int| 0 <= i < ts.drop_last().len() implies m.tags.contains(#[trigger] ts.drop_last()[i]) by {
            assert(ts.drop_last()[i] == ts[i]);
        }
        lemma_associate_tags(m, p, ts.drop_last());
        assert(ts.map_values(f).drop_last() =~= ts.drop_last().map_values(f));
        assert(m.tags.contains(ts[ts.len() - 1]));
        let r = m.apply_all(ts.map_values(f));
        assert forall|a: (Text, Text)| r.file_tags.contains(a) <==> m.file_tags.union(ts.to_set().map(|t: Text| (p, t))).contains(a) by {
            lemma_contains_last(ts, a.1);
            if ts.to_set().map(|t: Text| (p, t)).contains(a) {
                let t = choose|t: Text| ts.to_set().contains(t) && (p, t) == a;
            }
            if ts.drop_last().to_set().map(|t: Text| (p, t)).contains(a) {
                let t = choose|t: Text| ts.drop_last().to_set().contains(t) && (p, t) == a;
                lemma_contains_last(ts, t);
                assert(ts.to_set().contains(t));
            }
            if a.0 == p && ts.contains(a.1) {
                assert(ts.to_set().contains(a.1));
                if ts.drop_last().contains(a.1) {
                    assert(ts.drop_last().to_set().contains(a.1));
                }
            }
        }
        assert(r.file_tags =~= m.file_tags.union(ts.to_set().map(|t: Text| (p, t))));
    }
}

proof fn lemma_associate_values(m: Catalog, p: Text, vs: Seq<(Text, Text)>)
    requires
        m.files.contains_key(p),
        forall|i: int| 0 <= i < vs.len() ==> m.categories.contains_key(#[trigger] vs[i].0) && m.categories[vs[i].0].contains(vs[i].1),
    ensures
        ({
            let r = m.apply_all(vs.map_values(|x: (Text, Text)| Edit::AssociateValue(p, x.0, x.1)));
            &&& r.file_values == m.file_values.union(vs.to_set().map(|x: (Text, Text)| (p, x.0, x.1)))
            &&& r.tags == m.tags
            &&& r.categories == m.categories
            &&& r.files == m.files
            &&& r.file_tags == m.file_tags
        }),
    decreases vs.len(),
{
    let f = |x: (Text, Text)| Edit::AssociateValue(p, x.0, x.1);
    let g = |x: (Text, Text)| (p, x.0, x.1);
    if vs.len() == 0 {
        assert(vs.to_set().map(g) =~= Set::empty());
        assert(m.file_values.union(vs.to_set().map(g)) =~= m.file_values);
    } else {
        assert forall|i: int| 0 <= i < vs.drop_last().len() implies m.categories.contains_key(#[trigger] vs.drop_last()[i].0)
            && m.categories[vs.drop_last()[i].0].contains(vs.drop_last()[i].1) by {
            assert(vs.drop_last()[i] == vs[i]);
        }
        lemma_associate_values(m, p, vs.drop_last());
        assert(vs.map_values(f).drop_last() =~= vs.drop_last().map_values(f));
        let last = vs[vs.len() - 1];
        assert(m.categories.contains_key(last.0) && m.categories[last.0].contains(last.1));
        let r = m.apply_all(vs.map_values(f));
        assert forall|a: (Text, Text, Text)| r.file_values.contains(a) <==> m.file_values.union(vs.to_set().map(g)).contains(a) by {
            lemma_contains_last(vs, (a.1, a.2));
            if vs.to_set().map(g).contains(a) {
                let x = choose|x: (Text, Text)| vs.to_set().contains(x) && g(x) == a;
                lemma_contains_last(vs, x);
                if vs.drop_last().contains(x) {
                    assert(vs.drop_last().to_set().contains(x));
                }
            }
            if vs.drop_last().to_set().map(g).contains(a) {
                let x = choose|x: (Text, Text)| vs.drop_last().to_set().contains(x) && g(x) == a;
                lemma_contains_last(vs, x);
                assert(vs.to_set().contains(x));
            }
            if a.0 == p && vs.contains((a.1, a.2)) {
                assert(vs.to_set().contains((a.1, a.2)));
                assert(g((a.1, a.2)) == a);
                if vs.drop_last().contains((a.1, a.2)) {
                    assert(vs.drop_last().to_set().contains((a.1, a.2)));
                }
            }
        }
        assert(r.file_values =~= m.file_values.union(vs.to_set().map(g)));
    }
}

/// An admitted import registers the file: once its writes are applied to a
/// store that holds the references it was checked against and has no file
/// under `path`, the store holds the file under `path` with its name, linked
/// to each chosen tag and (category, value) pair, and nothing else changes.
pub proof fn import_registers(
    m: Catalog,
    refs: References,
    path: Text,
    name: Text,
    tags: Seq<Text>,
    values: Seq<(Text, Text)>,
)
    requires
        texts(refs.tags@).to_set() == m.tags,
        forall|c: Text, v: Text| #[trigger] pair_texts(refs.values@).contains((c, v)) ==> m.categories.contains_key(c)
            && m.categories[c].contains(v),
        refs.admits(tags, values),
        !m.files.contains_key(path),
    ensures
        ({
            let r = m.apply_all(import_edits(path, name, tags, values));
            &&& r.files == m.files.insert(path, name)
            &&& r.file_tags == m.file_tags.union(tags.to_set().map(|t: Text| (path, t)))
            &&& r.file_values == m.file_values.union(values.to_set().map(|x: (Text, Text)| (path, x.0, x.1)))
            &&& r.tags == m.tags
            &&& r.categories == m.categories
        }),
{
    let fi = seq![Edit::InsertFile(path, name)];
    let ft = tags.map_values(|t: Text| Edit::AssociateTag(path, t));
    let fv = values.map_values(|x: (Text, Text)| Edit::AssociateValue(path, x.0, x.1));
    assert(import_edits(path, name, tags, values) == fi + ft + fv);
    lemma_apply_all_append(m, fi + ft, fv);
    lemma_apply_all_append(m, fi, ft);
    lemma_apply_one(m, Edit::InsertFile(path, name));
    let m1 = m.insert_file(path, name);
    assert forall|i: int| 0 <= i < tags.len() implies m1.tags.contains(#[trigger] tags[i]) by {
        assert(texts(refs.tags@).contains(tags[i]));
        assert(texts(refs.tags@).to_set().contains(tags[i]));
    }
    lemma_associate_tags(m1, path, tags);
    let m2 = m1.apply_all(ft);
    assert forall|i: int| 0 <= i < values.len() implies m2.categories.contains_key(#[trigger] values[i].0)
        && m2.categories[values[i].0].contains(values[i].1) by {
        assert(pair_texts(refs.values@).contains(values[i]));
        assert(pair_texts(refs.values@).contains((values[i].0, values[i].1)));
    }
    lemma_associate_values(m2, path, values);
}

/// The store holds exactly the configured tags and categories, each with
/// exactly its configured values.
pub open spec fn matches_config(m: Catalog, config: &Config) -> bool {
    let want = config.category_views();
    &&& m.tags == config.tag_texts().to_set()
    &&& m.categories.dom() == names(want).to_set()
    &&& forall|i: int| 0 <= i < want.len() ==> m.categories[#[trigger] want[i].0] == want[i].1.to_set()
}

/// A store that already matches the configuration, read and reconciled
/// again, gets no write at all.
pub proof fn plan_empty_when_converged(m: Catalog, reads: StoreReads, config: Config)
    requires
        reflects(m, &reads, &config),
        matches_config(m, &config),
    ensures
        reconcile_edits(&reads, &config) == Seq::<Edit>::empty(),
{
    let r = m;
    let ct = texts(reads.tags@);
    let cc = texts(reads.categories@);
    let wt = config.tag_texts();
    let want = config.category_views();
    let vals = reads.value_texts();
    assert forall|x: Text| ct.contains(x) implies wt.contains(x) by {
        assert(ct.to_set().contains(x));
    }
    assert forall|x: Text| wt.contains(x) implies ct.contains(x) by {
        assert(wt.to_set().contains(x));
    }
    assert forall|x: Text| cc.contains(x) implies names(want).contains(x) by {
        assert(cc.to_set().contains(x));
    }
    lemma_absent_empty(ct, wt);
    lemma_absent_empty(wt, ct);
    lemma_absent_empty(cc, names(want));
    assert forall|i: int| 0 <= i < want.len() implies cc.contains(#[trigger] want[i].0) && values_at(vals, i).to_set()
        == want[i].1.to_set() by {
        assert(names(want)[i] == want[i].0);
        assert(names(want).to_set().contains(want[i].0));
        assert(r.categories.dom().contains(want[i].0));
        assert(cc.to_set().contains(want[i].0));
        assert(r.categories[want[i].0] == values_at(vals, i).to_set());
        assert(r.categories[want[i].0] == want[i].1.to_set());
    }
    lemma_updates_empty(want, cc, vals);
    assert(reconcile_edits(&reads, &config) =~= Seq::<Edit>::empty());
}

proof fn lemma_category_writes_keep(m: Catalog, es: Seq<Edit>)
    requires
        forall|k: int| 0 <= k < es.len() ==> is_category_write(#[trigger] es[k]),
    ensures
        m.apply_all(es).tags == m.tags,
        m.apply_all(es).files == m.files,
        m.apply_all(es).file_tags == m.file_tags,
    decreases es.len(),
{
    if es.len() > 0 {
        assert forall|k: int| 0 <= k < es.drop_last().len() implies is_category_write(#[trigger] es.drop_last()[k]) by {
            assert(es.drop_last()[k] == es[k]);
        }
        lemma_category_writes_keep(m, es.drop_last());
        assert(is_category_write(es[es.len() - 1]));
    }
}

/// Tag convergence: applying the planned writes leaves exactly the configured
/// tags, whatever the configured categories are.
pub proof fn tags_converge(m: Catalog, reads: StoreReads, config: Config)
    requires
        reflects(m, &reads, &config),
    ensures
        m.apply_all(reconcile_edits(&reads, &config)).tags == config.tag_texts().to_set(),
{
    lemma_first_steps(m, reads, config);
    let cc = texts(reads.categories@);
    let want = config.category_views();
    let cd = absent(cc, names(want)).map_values(|c: Text| Edit::DeleteCategory(c));
    let m3 = m.apply_all(tag_edits(texts(reads.tags@), config.tag_texts())).apply_all(cd);
    let u = update_edits(want, cc, reads.value_texts());
    lemma_update_edits_write(want, cc, reads.value_texts());
    assert forall|k: int| 0 <= k < u.len() implies is_category_write(#[trigger] u[k]) by {}
    lemma_category_writes_keep(m3, u);
}

/// The configuration drops the value `v` of the category `c`: it names no
/// category `c`, or names one without `v`.
pub open spec fn value_dropped(c: Text, v: Text, want: Seq<(Text, Seq<Text>)>) -> bool {
    !names(want).contains(c) || exists|i: int| 0 <= i < want.len() && #[trigger] want[i].0 == c && !want[i].1.contains(v)
}

/// Writes that the configuration calls for, some refused, never touch a file
/// row, never add a link, and remove only the links of tags, categories and
/// values that the configuration drops.
pub proof fn sanctioned_frame(m: Catalog, es: Seq<Edit>, skip: Set<int>, want_tags: Seq<Text>, want: Seq<(Text, Seq<Text>)>)
    requires
        forall|k: int| 0 <= k < es.len() ==> tag_sanctioned(#[trigger] es[k], want_tags) || category_sanctioned(es[k], want),
    ensures
        ({
            let r = m.apply_skipping(es, skip);
            &&& r.files == m.files
            &&& r.file_tags.subset_of(m.file_tags)
            &&& r.file_values.subset_of(m.file_values)
            &&& forall|a: (Text, Text)| #[trigger] m.file_tags.contains(a) && !r.file_tags.contains(a) ==> !want_tags.contains(a.1)
            &&& forall|a: (Text, Text, Text)| #[trigger] m.file_values.contains(a) && !r.file_values.contains(a)
                ==> value_dropped(a.1, a.2, want)
        }),
    decreases es.len(),
{
    if es.len() > 0 {
        let d = es.drop_last();
        assert forall|k: int| 0 <= k < d.len() implies tag_sanctioned(#[trigger] d[k], want_tags) || category_sanctioned(d[k], want) by {
            assert(d[k] == es[k]);
        }
        sanctioned_frame(m, d, skip, want_tags, want);
        let p = m.apply_skipping(d, skip);
        let e = es[es.len() - 1];
        assert(tag_sanctioned(e, want_tags) || category_sanctioned(e, want));
        if !skip.contains(es.len() - 1) {
            let r = p.apply(e);
            assert forall|a: (Text, Text)| #[trigger] m.file_tags.contains(a) && !r.file_tags.contains(a) implies !want_tags.contains(a.1) by {
                if p.file_tags.contains(a) {
                    if let Edit::DeleteTag(t) = e {
                        assert(a.1 == t);
                    }
                }
            }
            assert forall|a: (Text, Text, Text)| #[trigger] m.file_values.contains(a) && !r.file_values.contains(a)
                implies value_dropped(a.1, a.2, want) by {
                if p.file_values.contains(a) {
                    if let Edit::DeleteCategory(c) = e {
                        assert(a.1 == c);
                    }
                    if let Edit::DeleteValue(c, v) = e {
                        assert(a.1 == c && a.2 == v);
                        let i = choose|i: int| 0 <= i < want.len() && #[trigger] want[i].0 == c && !want[i].1.contains(v);
                    }
                }
            }
        }
    }
}

} // verus!
