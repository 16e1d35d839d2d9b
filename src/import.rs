use vstd::prelude::*;

use crate::config::texts;
use crate::error::StoreError;
use crate::model::{Edit, Text};
use crate::plan::{contains_text, edits, Change};

verus! {

pub open spec fn pair_texts(v: Seq<(String, String)>) -> Seq<(Text, Text)> {
    v.map_values(|p: (String, String)| (p.0@, p.1@))
}

/// The reference rows an import may point at.
pub struct References {
    pub tags: Vec<String>,
    /// (category, value)
    pub values: Vec<(String, String)>,
}

impl References {
    /// Whether every chosen tag and every chosen (category, value) pair exists.
    pub open spec fn admits(&self, tags: Seq<Text>, values: Seq<(Text, Text)>) -> bool {
        &&& forall|i: int| 0 <= i < tags.len() ==> texts(self.tags@).contains(#[trigger] tags[i])
        &&& forall|i: int|
            0 <= i < values.len() ==> pair_texts(self.values@).contains(#[trigger] values[i])
    }
}

/// The file row first, then one association per chosen tag and value.
pub open spec fn import_edits(path: Text, name: Text, tags: Seq<Text>, values: Seq<(Text, Text)>) -> Seq<Edit> {
    seq![Edit::InsertFile(path, name)] + tags.map_values(|t: Text| Edit::AssociateTag(path, t))
        + values.map_values(|p: (Text, Text)| Edit::AssociateValue(path, p.0, p.1))
}

/// Whether `v` holds the pair (`c`, `x`).
pub fn contains_pair(v: &Vec<(String, String)>, c: &String, x: &String) -> (r: bool)
    ensures
        r == pair_texts(v@).contains((c@, x@)),
{
    let mut i: usize = 0;
    while i < v.len()
        invariant
            i <= v.len(),
            forall|j: int| 0 <= j < i ==> (v@[j].0@, v@[j].1@) != (c@, x@),
        decreases v.len() - i,
    {
        if v[i].0 == *c && v[i].1 == *x {
            assert(pair_texts(v@)[i as int] == (c@, x@));
            return true;
        }
        i += 1;
    }
    assert forall|j: int| 0 <= j < pair_texts(v@).len() implies pair_texts(v@)[j] != (c@, x@) by {
        assert(pair_texts(v@)[j] == (v@[j].0@, v@[j].1@));
    }
    false
}

/// The writes that register a file stored under `path` with its chosen tags
/// and (category, value) pairs. Every chosen reference must already exist:
/// otherwise nothing is to be written and the missing name is reported.
pub fn import_plan(
    refs: &References,
    path: &String,
    name: &String,
    tags: &Vec<String>,
    values: &Vec<(String, String)>,
) -> (r: Result<Vec<Change>, StoreError>)
    ensures
        r is Ok <==> refs.admits(texts(tags@), pair_texts(values@)),
        r matches Ok(cs) ==> edits(cs@) == import_edits(path@, name@, texts(tags@), pair_texts(values@)),
        r matches Err(e) ==> e matches StoreError::ReferenceNotFound(m) && (
            (exists|i: int| 0 <= i < tags.len() && #[trigger] tags@[i]@ == m@
                && !texts(refs.tags@).contains(m@))
            || (exists|i: int| 0 <= i < values.len() && #[trigger] values@[i].1@ == m@
                && !pair_texts(refs.values@).contains((values@[i].0@, m@)))),
{
    let mut i: usize = 0;
    while i < tags.len()
        invariant
            i <= tags.len(),
            forall|j: int| 0 <= j < i ==> texts(refs.tags@).contains(#[trigger] texts(tags@)[j]),
        decreases tags.len() - i,
    {
        if !contains_text(&refs.tags, &tags[i]) {
            assert(!refs.admits(texts(tags@), pair_texts(values@))) by {
                assert(texts(tags@)[i as int] == tags@[i as int]@);
            }
            return Err(StoreError::ReferenceNotFound(tags[i].clone()));
        }
        i += 1;
    }
    let mut i: usize = 0;
    while i < values.len()
        invariant
            i <= values.len(),
            forall|j: int| 0 <= j < i ==> pair_texts(refs.values@).contains(#[trigger] pair_texts(values@)[j]),
        decreases values.len() - i,
    {
        if !contains_pair(&refs.values, &values[i].0, &values[i].1) {
            assert(!refs.admits(texts(tags@), pair_texts(values@))) by {
                assert(pair_texts(values@)[i as int] == (values@[i as int].0@, values@[i as int].1@));
            }
            return Err(StoreError::ReferenceNotFound(values[i].1.clone()));
        }
        i += 1;
    }
    let mut out: Vec<Change> = Vec::new();
    out.push(Change::InsertFile(path.clone(), name.clone()));
    let mut i: usize = 0;
    while i < tags.len()
        invariant
            i <= tags.len(),
            edits(out@) == seq![Edit::InsertFile(path@, name@)] + texts(tags@).take(i as int).map_values(
                |t: Text| Edit::AssociateTag(path@, t),
            ),
        decreases tags.len() - i,
    {
        let ghost before = out@;
        out.push(Change::AssociateTag(path.clone(), tags[i].clone()));
        assert(edits(out@) =~= edits(before).push(Edit::AssociateTag(path@, tags@[i as int]@)));
        assert(texts(tags@).take(i as int + 1).map_values(|t: Text| Edit::AssociateTag(path@, t))
            =~= texts(tags@).take(i as int).map_values(|t: Text| Edit::AssociateTag(path@, t)).push(
            Edit::AssociateTag(path@, tags@[i as int]@)));
        i += 1;
    }
    assert(texts(tags@).take(tags.len() as int) =~= texts(tags@));
    let ghost head = edits(out@);
    let mut i: usize = 0;
    while i < values.len()
        invariant
            i <= values.len(),
            edits(out@) == head + pair_texts(values@).take(i as int).map_values(
                |p: (Text, Text)| Edit::AssociateValue(path@, p.0, p.1),
            ),
        decreases values.len() - i,
    {
        let ghost before = out@;
        out.push(Change::AssociateValue(path.clone(), values[i].0.clone(), values[i].1.clone()));
        let ghost e = Edit::AssociateValue(path@, values@[i as int].0@, values@[i as int].1@);
        assert(edits(out@) =~= edits(before).push(e));
        assert(pair_texts(values@).take(i as int + 1).map_values(
            |p: (Text, Text)| Edit::AssociateValue(path@, p.0, p.1),
        ) =~= pair_texts(values@).take(i as int).map_values(
            |p: (Text, Text)| Edit::AssociateValue(path@, p.0, p.1),
        ).push(e));
        i += 1;
    }
    assert(pair_texts(values@).take(values.len() as int) =~= pair_texts(values@));
    assert(edits(out@) =~= import_edits(path@, name@, texts(tags@), pair_texts(values@)));
    Ok(out)
}

} // verus!
