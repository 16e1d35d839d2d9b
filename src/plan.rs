use vstd::prelude::*;

use crate::config::{texts, Category, Config};
use crate::model::{Edit, Text};

verus! {

/// The members of `xs` that `ys` lacks, in the order of `xs`.
pub open spec fn absent(xs: Seq<Text>, ys: Seq<Text>) -> Seq<Text>
    decreases xs.len(),
{
    if xs.len() == 0 {
        seq![]
    } else {
        let rest = absent(xs.drop_last(), ys);
        if ys.contains(xs.last()) {
            rest
        } else {
            rest.push(xs.last())
        }
    }
}

/// Delete the stored tags that are not wanted, then insert the wanted tags
/// that are not stored.
pub open spec fn tag_edits(cur: Seq<Text>, want: Seq<Text>) -> Seq<Edit> {
    absent(cur, want).map_values(|t: Text| Edit::DeleteTag(t)) + absent(want, cur).map_values(
        |t: Text| Edit::InsertTag(t),
    )
}

/// The writes for one wanted category: a value diff where the category is
/// stored, else the category followed by all of its values.
pub open spec fn value_edits(name: Text, exists: bool, cur: Seq<Text>, want: Seq<Text>) -> Seq<
    Edit,
> {
    if exists {
        absent(cur, want).map_values(|v: Text| Edit::DeleteValue(name, v)) + absent(
            want,
            cur,
        ).map_values(|v: Text| Edit::InsertValue(name, v))
    } else {
        seq![Edit::InsertCategory(name)] + want.map_values(|v: Text| Edit::InsertValue(name, v))
    }
}

pub open spec fn names(cats: Seq<(Text, Seq<Text>)>) -> Seq<Text> {
    cats.map_values(|c: (Text, Seq<Text>)| c.0)
}

/// The stored values read for the `i`-th wanted category (none if not read).
pub open spec fn values_at(vals: Seq<Seq<Text>>, i: int) -> Seq<Text> {
    if 0 <= i < vals.len() {
        vals[i]
    } else {
        seq![]
    }
}

pub open spec fn update_edits(
    want: Seq<(Text, Seq<Text>)>,
    cur_cats: Seq<Text>,
    vals: Seq<Seq<Text>>,
) -> Seq<Edit>
    decreases want.len(),
{
    if want.len() == 0 {
        seq![]
    } else {
        let k = want.len() - 1;
        update_edits(want.drop_last(), cur_cats, vals) + value_edits(
            want[k].0,
            cur_cats.contains(want[k].0),
            values_at(vals, k),
            want[k].1,
        )
    }
}

/// Delete the stored categories that are not wanted, then bring each wanted
/// category in turn to its wanted values.
pub open spec fn category_edits(
    cur_cats: Seq<Text>,
    vals: Seq<Seq<Text>>,
    want: Seq<(Text, Seq<Text>)>,
) -> Seq<Edit> {
    absent(cur_cats, names(want)).map_values(|c: Text| Edit::DeleteCategory(c)) + update_edits(
        want,
        cur_cats,
        vals,
    )
}

/// All writes of one reconciliation, tags first.
pub open spec fn plan(
    cur_tags: Seq<Text>,
    cur_cats: Seq<Text>,
    vals: Seq<Seq<Text>>,
    want_tags: Seq<Text>,
    want: Seq<(Text, Seq<Text>)>,
) -> Seq<Edit> {
    tag_edits(cur_tags, want_tags) + category_edits(cur_cats, vals, want)
}

/// A tag write that the configured tags call for: insert a configured tag,
/// or delete one the configuration leaves out.
pub open spec fn tag_sanctioned(e: Edit, want_tags: Seq<Text>) -> bool {
    match e {
        Edit::DeleteTag(t) => !want_tags.contains(t),
        Edit::InsertTag(t) => want_tags.contains(t),
        _ => false,
    }
}

/// A category or value write that the configured categories call for.
pub open spec fn category_sanctioned(e: Edit, want: Seq<(Text, Seq<Text>)>) -> bool {
    match e {
        Edit::DeleteCategory(c) => !names(want).contains(c),
        Edit::InsertCategory(c) => names(want).contains(c),
        Edit::DeleteValue(c, v) => exists|i: int|
            0 <= i < want.len() && #[trigger] want[i].0 == c && !want[i].1.contains(v),
        Edit::InsertValue(c, v) => exists|i: int|
            0 <= i < want.len() && #[trigger] want[i].0 == c && want[i].1.contains(v),
        _ => false,
    }
}

/// One write against the store.
#[derive(Debug)]
pub enum Change {
    DeleteTag(String),
    InsertTag(String),
    DeleteCategory(String),
    InsertCategory(String),
    /// category, value
    DeleteValue(String, String),
    /// category, value
    InsertValue(String, String),
    /// storage-relative path, display name
    InsertFile(String, String),
    /// path, tag
    AssociateTag(String, String),
    /// path, category, value
    AssociateValue(String, String, String),
}

impl View for Change {
    type V = Edit;

    open spec fn view(&self) -> Edit {
        match self {
            Change::DeleteTag(t) => Edit::DeleteTag(t@),
            Change::InsertTag(t) => Edit::InsertTag(t@),
            Change::DeleteCategory(c) => Edit::DeleteCategory(c@),
            Change::InsertCategory(c) => Edit::InsertCategory(c@),
            Change::DeleteValue(c, v) => Edit::DeleteValue(c@, v@),
            Change::InsertValue(c, v) => Edit::InsertValue(c@, v@),
            Change::InsertFile(p, n) => Edit::InsertFile(p@, n@),
            Change::AssociateTag(p, t) => Edit::AssociateTag(p@, t@),
            Change::AssociateValue(p, c, v) => Edit::AssociateValue(p@, c@, v@),
        }
    }
}

pub open spec fn edits(v: Seq<Change>) -> Seq<Edit> {
    v.map_values(|c: Change| c@)
}

/// What the store held when a reconciliation began.
pub struct StoreReads {
    pub tags: Vec<String>,
    pub categories: Vec<String>,
    /// The stored values of each configured category, in the configuration's
    /// order (empty where the category is not stored).
    pub values: Vec<Vec<String>>,
}

impl StoreReads {
    pub open spec fn value_texts(&self) -> Seq<Seq<Text>> {
        value_lists(self.values@)
    }
}

/// The writes that make the store match `config`, given what it held.
pub open spec fn reconcile_edits(reads: &StoreReads, config: &Config) -> Seq<Edit> {
    plan(
        texts(reads.tags@),
        texts(reads.categories@),
        reads.value_texts(),
        config.tag_texts(),
        config.category_views(),
    )
}

enum Kind {
    DeleteTag,
    InsertTag,
    DeleteCategory,
    DeleteValue,
    InsertValue,
}

spec fn edit_of(k: Kind, cat: Text, t: Text) -> Edit {
    match k {
        Kind::DeleteTag => Edit::DeleteTag(t),
        Kind::InsertTag => Edit::InsertTag(t),
        Kind::DeleteCategory => Edit::DeleteCategory(t),
        Kind::DeleteValue => Edit::DeleteValue(cat, t),
        Kind::InsertValue => Edit::InsertValue(cat, t),
    }
}

fn make_change(k: &Kind, cat: &String, t: &String) -> (r: Change)
    ensures
        r@ == edit_of(*k, cat@, t@),
{
    match k {
        Kind::DeleteTag => Change::DeleteTag(t.clone()),
        Kind::InsertTag => Change::InsertTag(t.clone()),
        Kind::DeleteCategory => Change::DeleteCategory(t.clone()),
        Kind::DeleteValue => Change::DeleteValue(cat.clone(), t.clone()),
        Kind::InsertValue => Change::InsertValue(cat.clone(), t.clone()),
    }
}

/// Whether `v` holds a string equal to `s`.
pub fn contains_text(v: &Vec<String>, s: &String) -> (r: bool)
    ensures
        r == texts(v@).contains(s@),
{
    let mut i: usize = 0;
    while i < v.len()
        invariant
            i <= v.len(),
            forall|j: int| 0 <= j < i ==> v@[j]@ != s@,
        decreases v.len() - i,
    {
        if v[i] == *s {
            assert(texts(v@)[i as int] == s@);
            return true;
        }
        i += 1;
    }
    assert forall|j: int| 0 <= j < texts(v@).len() implies texts(v@)[j] != s@ by {
        assert(texts(v@)[j] == v@[j]@);
    }
    false
}

proof fn lemma_absent_take(xs: Seq<Text>, ys: Seq<Text>, i: int)
    requires
        0 <= i < xs.len(),
    ensures
        absent(xs.take(i + 1), ys) == if ys.contains(xs[i]) {
            absent(xs.take(i), ys)
        } else {
            absent(xs.take(i), ys).push(xs[i])
        },
{
    assert(xs.take(i + 1).drop_last() =~= xs.take(i));
}

/// Appends to `out` one change of kind `k` for each member of `xs` that `ys` lacks.
fn push_absent(out: &mut Vec<Change>, k: Kind, cat: &String, xs: &Vec<String>, ys: &Vec<String>)
    ensures
        edits(final(out)@) == edits(old(out)@) + absent(texts(xs@), texts(ys@)).map_values(
            |t: Text| edit_of(k, cat@, t),
        ),
{
    let ghost start = edits(out@);
    let ghost f = |t: Text| edit_of(k, cat@, t);
    let mut i: usize = 0;
    while i < xs.len()
        invariant
            i <= xs.len(),
            f == (|t: Text| edit_of(k, cat@, t)),
            edits(out@) == start + absent(texts(xs@).take(i as int), texts(ys@)).map_values(f),
        decreases xs.len() - i,
    {
        proof {
            lemma_absent_take(texts(xs@), texts(ys@), i as int);
        }
        let ghost before = out@;
        if !contains_text(ys, &xs[i]) {
            let c = make_change(&k, cat, &xs[i]);
            out.push(c);
            assert(edits(out@) =~= edits(before).push(c@));
            assert(absent(texts(xs@).take(i as int), texts(ys@)).push(xs@[i as int]@).map_values(f)
                =~= absent(texts(xs@).take(i as int), texts(ys@)).map_values(f).push(f(xs@[i as int]@)));
        }
        i += 1;
    }
    assert(texts(xs@).take(xs.len() as int) =~= texts(xs@));
}

/// The changes that bring the stored tags `current` to `desired`.
pub fn tag_changes(current: &Vec<String>, desired: &Vec<String>) -> (r: Vec<Change>)
    ensures
        edits(r@) == tag_edits(texts(current@), texts(desired@)),
{
    let mut out: Vec<Change> = Vec::new();
    let empty = String::new();
    assert(edits(out@) =~= seq![]);
    push_absent(&mut out, Kind::DeleteTag, &empty, current, desired);
    push_absent(&mut out, Kind::InsertTag, &empty, desired, current);
    assert(absent(texts(current@), texts(desired@)).map_values(
        |t: Text| edit_of(Kind::DeleteTag, empty@, t),
    ) =~= absent(texts(current@), texts(desired@)).map_values(|t: Text| Edit::DeleteTag(t)));
    assert(absent(texts(desired@), texts(current@)).map_values(
        |t: Text| edit_of(Kind::InsertTag, empty@, t),
    ) =~= absent(texts(desired@), texts(current@)).map_values(|t: Text| Edit::InsertTag(t)));
    assert(edits(out@) =~= tag_edits(texts(current@), texts(desired@)));
    out
}

proof fn lemma_absent_none(xs: Seq<Text>)
    ensures
        absent(xs, seq![]) == xs,
    decreases xs.len(),
{
    if xs.len() > 0 {
        lemma_absent_none(xs.drop_last());
        assert(xs.drop_last().push(xs.last()) =~= xs);
    }
}

/// The changes for one configured category `name` whose stored values are
/// `current`; `exists` tells whether the category is stored.
pub fn value_changes(name: &String, exists: bool, current: &Vec<String>, desired: &Vec<String>) -> (r: Vec<Change>)
    ensures
        edits(r@) == value_edits(name@, exists, texts(current@), texts(desired@)),
{
    let mut out: Vec<Change> = Vec::new();
    assert(edits(out@) =~= seq![]);
    if exists {
        push_absent(&mut out, Kind::DeleteValue, name, current, desired);
        push_absent(&mut out, Kind::InsertValue, name, desired, current);
        assert(absent(texts(current@), texts(desired@)).map_values(
            |t: Text| edit_of(Kind::DeleteValue, name@, t),
        ) =~= absent(texts(current@), texts(desired@)).map_values(|v: Text| Edit::DeleteValue(name@, v)));
        assert(absent(texts(desired@), texts(current@)).map_values(
            |t: Text| edit_of(Kind::InsertValue, name@, t),
        ) =~= absent(texts(desired@), texts(current@)).map_values(|v: Text| Edit::InsertValue(name@, v)));
    } else {
        let c = Change::InsertCategory(name.clone());
        out.push(c);
        assert(edits(out@) =~= seq![Edit::InsertCategory(name@)]);
        let none: Vec<String> = Vec::new();
        push_absent(&mut out, Kind::InsertValue, name, desired, &none);
        proof {
            assert(texts(none@) =~= seq![]);
            lemma_absent_none(texts(desired@));
        }
        assert(texts(desired@).map_values(|t: Text| edit_of(Kind::InsertValue, name@, t))
            =~= texts(desired@).map_values(|v: Text| Edit::InsertValue(name@, v)));
    }
    assert(edits(out@) =~= value_edits(name@, exists, texts(current@), texts(desired@)));
    out
}

/// Appends the changes of `more` to `out`.
fn append_changes(out: &mut Vec<Change>, more: Vec<Change>)
    ensures
        edits(final(out)@) == edits(old(out)@) + edits(more@),
{
    let mut more = more;
    let ghost a = out@;
    let ghost b = more@;
    out.append(&mut more);
    assert(edits(a + b) =~= edits(a) + edits(b));
}

pub open spec fn category_texts(cats: Seq<Category>) -> Seq<(Text, Seq<Text>)> {
    cats.map_values(|c: Category| c@)
}

pub open spec fn value_lists(vals: Seq<Vec<String>>) -> Seq<Seq<Text>> {
    vals.map_values(|v: Vec<String>| texts(v@))
}

/// The changes that bring the stored categories `stored` to `desired`;
/// `values[k]` holds the stored values of `desired[k]`.
pub fn category_changes(stored: &Vec<String>, values: &Vec<Vec<String>>, desired: &Vec<Category>) -> (r: Vec<Change>)
    ensures
        edits(r@) == category_edits(texts(stored@), value_lists(values@), category_texts(desired@)),
{
    let ghost want = category_texts(desired@);
    let mut wanted: Vec<String> = Vec::new();
    let mut k: usize = 0;
    while k < desired.len()
        invariant
            k <= desired.len(),
            want == category_texts(desired@),
            texts(wanted@) == names(want.take(k as int)),
        decreases desired.len() - k,
    {
        let ghost w0 = wanted@;
        wanted.push(desired[k].name.clone());
        assert(want[k as int] == desired@[k as int]@);
        assert(texts(wanted@) =~= texts(w0).push(desired@[k as int].name@));
        assert(names(want.take(k as int + 1)) =~= names(want.take(k as int)).push(want[k as int].0));
        k += 1;
    }
    assert(want.take(desired.len() as int) =~= want);
    let mut out: Vec<Change> = Vec::new();
    let empty = String::new();
    push_absent(&mut out, Kind::DeleteCategory, &empty, stored, &wanted);
    assert(absent(texts(stored@), names(want)).map_values(
        |t: Text| edit_of(Kind::DeleteCategory, empty@, t),
    ) =~= absent(texts(stored@), names(want)).map_values(|c: Text| Edit::DeleteCategory(c)));
    let ghost head = edits(out@);
    let ghost cur_cats = texts(stored@);
    let ghost vals = value_lists(values@);
    assert(update_edits(want.take(0), cur_cats, vals) =~= seq![]);
    assert(edits(out@) =~= head + update_edits(want.take(0), cur_cats, vals));
    let none: Vec<String> = Vec::new();
    let mut k: usize = 0;
    while k < desired.len()
        invariant
            k <= desired.len(),
            want == category_texts(desired@),
            cur_cats == texts(stored@),
            vals == value_lists(values@),
            texts(none@) == Seq::<Text>::empty(),
            edits(out@) == head + update_edits(want.take(k as int), cur_cats, vals),
        decreases desired.len() - k,
    {
        let cat = &desired[k];
        let exists = contains_text(stored, &cat.name);
        let current = if k < values.len() {
            &values[k]
        } else {
            &none
        };
        assert(texts(current@) == values_at(vals, k as int));
        let more = value_changes(&cat.name, exists, current, &cat.values);
        append_changes(&mut out, more);
        proof {
            assert(want[k as int] == cat@);
            assert(want.take(k as int + 1).drop_last() =~= want.take(k as int));
            assert(want.take(k as int + 1)[k as int] == want[k as int]);
        }
        k += 1;
    }
    assert(want.take(desired.len() as int) =~= want);
    out
}

/// The changes that make the store match `config`, given what it held:
/// tags first, then categories.
pub fn reconcile_plan(reads: &StoreReads, config: &Config) -> (r: Vec<Change>)
    ensures
        edits(r@) == reconcile_edits(reads, config),
{
    let mut out = tag_changes(&reads.tags, config.tags());
    let more = category_changes(&reads.categories, &reads.values, config.categories());
    append_changes(&mut out, more);
    out
}

} // verus!
