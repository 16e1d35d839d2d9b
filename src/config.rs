use vstd::prelude::*;

use crate::model::Text;

verus! {

/// The texts of a list of strings.
pub open spec fn texts(v: Seq<String>) -> Seq<Text> {
    v.map_values(|s: String| s@)
}

/// A configured category and the closed set of values it permits.
#[derive(Debug)]
pub struct Category {
    pub name: String,
    pub values: Vec<String>,
}

impl View for Category {
    type V = (Text, Seq<Text>);

    open spec fn view(&self) -> (Text, Seq<Text>) {
        (self.name@, texts(self.values@))
    }
}

/// The desired state: allowed tags and categories, and where imported files go.
#[derive(Debug)]
pub struct Config {
    folder: String,
    save_date: bool,
    categories: Vec<Category>,
    tags: Vec<String>,
}

impl Config {
    pub fn new(folder: String, save_date: bool, categories: Vec<Category>, tags: Vec<String>) -> (r: Config)
        ensures
            r.folder_view() == folder@,
            r.save_date_view() == save_date,
            r.category_views() == categories@.map_values(|c: Category| c@),
            r.tag_texts() == texts(tags@),
    {
        Config { folder, save_date, categories, tags }
    }

    pub closed spec fn folder_view(&self) -> Text {
        self.folder@
    }

    pub closed spec fn save_date_view(&self) -> bool {
        self.save_date
    }

    /// The configured categories, in order.
    pub closed spec fn category_views(&self) -> Seq<(Text, Seq<Text>)> {
        self.categories@.map_values(|c: Category| c@)
    }

    /// The configured tags, in order.
    pub closed spec fn tag_texts(&self) -> Seq<Text> {
        texts(self.tags@)
    }

    /// The managed storage root.
    pub fn folder(&self) -> (r: &String)
        ensures
            r@ == self.folder_view(),
    {
        &self.folder
    }

    pub fn save_date(&self) -> (r: bool)
        ensures
            r == self.save_date_view(),
    {
        self.save_date
    }

    pub fn categories(&self) -> (r: &Vec<Category>)
        ensures
            r@.map_values(|c: Category| c@) == self.category_views(),
    {
        &self.categories
    }

    pub fn tags(&self) -> (r: &Vec<String>)
        ensures
            texts(r@) == self.tag_texts(),
    {
        &self.tags
    }
}

/// A copy of `v`.
pub fn copy_strings(v: &Vec<String>) -> (r: Vec<String>)
    ensures
        r@ == v@,
{
    let mut out: Vec<String> = Vec::new();
    let mut i: usize = 0;
    while i < v.len()
        invariant
            i <= v.len(),
            out@ == v@.take(i as int),
        decreases v.len() - i,
    {
        out.push(v[i].clone());
        assert(out@ =~= v@.take(i as int + 1));
        i += 1;
    }
    assert(v@.take(v.len() as int) =~= v@);
    out
}

impl Category {
    pub fn copy(&self) -> (r: Category)
        ensures
            r@ == self@,
    {
        Category { name: self.name.clone(), values: copy_strings(&self.values) }
    }
}

impl Config {
    /// A copy of this configuration.
    pub fn copy(&self) -> (r: Config)
        ensures
            r.folder_view() == self.folder_view(),
            r.save_date_view() == self.save_date_view(),
            r.category_views() == self.category_views(),
            r.tag_texts() == self.tag_texts(),
    {
        let mut cats: Vec<Category> = Vec::new();
        let mut i: usize = 0;
        while i < self.categories.len()
            invariant
                i <= self.categories.len(),
                cats@.map_values(|c: Category| c@) == self.categories@.map_values(|c: Category| c@).take(i as int),
            decreases self.categories.len() - i,
        {
            let ghost c0 = cats@;
            cats.push(self.categories[i].copy());
            assert(cats@.map_values(|c: Category| c@) =~= c0.map_values(|c: Category| c@).push(self.categories@[i as int]@));
            assert(self.categories@.map_values(|c: Category| c@).take(i as int + 1) =~= self.categories@.map_values(|c: Category| c@).take(i as int).push(self.categories@[i as int]@));
            i += 1;
        }
        assert(self.categories@.map_values(|c: Category| c@).take(self.categories.len() as int) =~= self.categories@.map_values(|c: Category| c@));
        Config {
            folder: self.folder.clone(),
            save_date: self.save_date,
            categories: cats,
            tags: copy_strings(&self.tags),
        }
    }
}

} // verus!
