//! Category model for content organization.

use vstd::prelude::*;

verus! {

/// A category for organizing content.
#[derive(Debug, Clone, PartialEq)]
pub struct Category {
    /// Unique identifier
    pub id: String,
    /// Human-readable name
    pub name: String,
    /// Description
    pub description: Option<String>,
    /// Parent category ID (for hierarchies)
    pub parent_id: Option<String>,
    /// Icon identifier
    pub icon: Option<String>,
}

/// The default categories as `(id, name)` pairs, in order.
pub open spec fn default_categories() -> Seq<(Seq<char>, Seq<char>)> {
    seq![
        ("music"@, "Music"@),
        ("movies"@, "Movies"@),
        ("tv"@, "TV Shows"@),
        ("games"@, "Games"@),
        ("books"@, "Books"@),
        ("software"@, "Software"@),
    ]
}

impl Category {
    /// Create a new category with no description, parent or icon.
    pub fn new(id: String, name: String) -> (c: Category)
        ensures
            c == (Category { id, name, description: None, parent_id: None, icon: None }),
    {
        Category { id, name, description: None, parent_id: None, icon: None }
    }

    /// Default categories for common content types.
    pub fn defaults() -> (cats: Vec<Category>)
        ensures
            cats@.len() == default_categories().len(),
            forall|k: int| 0 <= k < cats@.len() ==> {
                &&& (#[trigger] cats@[k]).id@ == default_categories()[k].0
                &&& cats@[k].name@ == default_categories()[k].1
                &&& cats@[k].description is None
                &&& cats@[k].parent_id is None
                &&& cats@[k].icon is None
            },
    {
        let mut cats: Vec<Category> = Vec::new();
        cats.push(Category::new(String::from_str("music"), String::from_str("Music")));
        cats.push(Category::new(String::from_str("movies"), String::from_str("Movies")));
        cats.push(Category::new(String::from_str("tv"), String::from_str("TV Shows")));
        cats.push(Category::new(String::from_str("games"), String::from_str("Games")));
        cats.push(Category::new(String::from_str("books"), String::from_str("Books")));
        cats.push(Category::new(String::from_str("software"), String::from_str("Software")));
        cats
    }
}

} // verus!
