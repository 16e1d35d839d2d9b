use vstd::prelude::*;

verus! {

/// A name or a value as the contracts see it.
pub type Text = Seq<char>;

/// The abstract contents of the schema store: the reference tables (tags,
/// categories with their values) and the file tables with their associations.
#[verifier::ext_equal]
pub struct Catalog {
    pub tags: Set<Text>,
    /// Category name to the set of values it permits.
    pub categories: Map<Text, Set<Text>>,
    /// Storage-relative path to display name.
    pub files: Map<Text, Text>,
    /// (file path, tag name)
    pub file_tags: Set<(Text, Text)>,
    /// (file path, category name, value)
    pub file_values: Set<(Text, Text, Text)>,
}

/// One write against the store, as the model sees it.
pub enum Edit {
    DeleteTag(Text),
    InsertTag(Text),
    DeleteCategory(Text),
    InsertCategory(Text),
    DeleteValue(Text, Text),
    InsertValue(Text, Text),
    InsertFile(Text, Text),
    AssociateTag(Text, Text),
    AssociateValue(Text, Text, Text),
}

impl Edit {
    /// Whether this write only adds rows.
    pub open spec fn is_insert(self) -> bool {
        !(self is DeleteTag || self is DeleteCategory || self is DeleteValue)
    }
}

impl Catalog {
    /// A store with no rows.
    pub open spec fn empty() -> Catalog {
        Catalog {
            tags: Set::empty(),
            categories: Map::empty(),
            files: Map::empty(),
            file_tags: Set::empty(),
            file_values: Set::empty(),
        }
    }

    /// Every association refers to rows that exist.
    pub open spec fn wf(self) -> bool {
        &&& forall|p: Text, t: Text| #[trigger]
            self.file_tags.contains((p, t)) ==> self.files.contains_key(p) && self.tags.contains(t)
        &&& forall|p: Text, c: Text, v: Text| #[trigger]
            self.file_values.contains((p, c, v)) ==> {
                &&& self.files.contains_key(p)
                &&& self.categories.contains_key(c)
                &&& self.categories[c].contains(v)
            }
    }

    /// Deleting a tag cascades to its file associations.
    pub open spec fn delete_tag(self, t: Text) -> Catalog {
        Catalog {
            tags: self.tags.remove(t),
            file_tags: self.file_tags.filter(|a: (Text, Text)| a.1 != t),
            ..self
        }
    }

    /// Inserting a tag that exists already is refused and changes nothing.
    pub open spec fn insert_tag(self, t: Text) -> Catalog {
        Catalog { tags: self.tags.insert(t), ..self }
    }

    /// Deleting a category cascades to its values and their file associations.
    pub open spec fn delete_category(self, c: Text) -> Catalog {
        Catalog {
            categories: self.categories.remove(c),
            file_values: self.file_values.filter(|a: (Text, Text, Text)| a.1 != c),
            ..self
        }
    }

    pub open spec fn insert_category(self, c: Text) -> Catalog {
        if self.categories.contains_key(c) {
            self
        } else {
            Catalog { categories: self.categories.insert(c, Set::empty()), ..self }
        }
    }

    /// Deleting a value cascades to its file associations.
    pub open spec fn delete_value(self, c: Text, v: Text) -> Catalog {
        if self.categories.contains_key(c) {
            Catalog {
                categories: self.categories.insert(c, self.categories[c].remove(v)),
                file_values: self.file_values.filter(
                    |a: (Text, Text, Text)| !(a.1 == c && a.2 == v),
                ),
                ..self
            }
        } else {
            self
        }
    }

    /// A value can only be added under a category that exists.
    pub open spec fn insert_value(self, c: Text, v: Text) -> Catalog {
        if self.categories.contains_key(c) {
            Catalog { categories: self.categories.insert(c, self.categories[c].insert(v)), ..self }
        } else {
            self
        }
    }

    pub open spec fn insert_file(self, p: Text, n: Text) -> Catalog {
        if self.files.contains_key(p) {
            self
        } else {
            Catalog { files: self.files.insert(p, n), ..self }
        }
    }

    pub open spec fn associate_tag(self, p: Text, t: Text) -> Catalog {
        if self.files.contains_key(p) && self.tags.contains(t) {
            Catalog { file_tags: self.file_tags.insert((p, t)), ..self }
        } else {
            self
        }
    }

    pub open spec fn associate_value(self, p: Text, c: Text, v: Text) -> Catalog {
        if self.files.contains_key(p) && self.categories.contains_key(c)
            && self.categories[c].contains(v) {
            Catalog { file_values: self.file_values.insert((p, c, v)), ..self }
        } else {
            self
        }
    }

    pub open spec fn apply(self, e: Edit) -> Catalog {
        match e {
            Edit::DeleteTag(t) => self.delete_tag(t),
            Edit::InsertTag(t) => self.insert_tag(t),
            Edit::DeleteCategory(c) => self.delete_category(c),
            Edit::InsertCategory(c) => self.insert_category(c),
            Edit::DeleteValue(c, v) => self.delete_value(c, v),
            Edit::InsertValue(c, v) => self.insert_value(c, v),
            Edit::InsertFile(p, n) => self.insert_file(p, n),
            Edit::AssociateTag(p, t) => self.associate_tag(p, t),
            Edit::AssociateValue(p, c, v) => self.associate_value(p, c, v),
        }
    }

    /// The store after the writes `es`, one after the other, where those at
    /// the positions in `skip` were refused and changed nothing.
    pub open spec fn apply_skipping(self, es: Seq<Edit>, skip: Set<int>) -> Catalog
        decreases es.len(),
    {
        if es.len() == 0 {
            self
        } else if skip.contains(es.len() - 1) {
            self.apply_skipping(es.drop_last(), skip)
        } else {
            self.apply_skipping(es.drop_last(), skip).apply(es.last())
        }
    }

    /// The store after the writes `es`, one after the other.
    pub open spec fn apply_all(self, es: Seq<Edit>) -> Catalog
        decreases es.len(),
    {
        if es.len() == 0 {
            self
        } else {
            self.apply_all(es.drop_last()).apply(es.last())
        }
    }
}

} // verus!
