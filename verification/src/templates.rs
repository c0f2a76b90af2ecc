//! What the recipe page is rendered from.

use crate::recipe::{Recipe, RecipeView};
use vstd::prelude::*;

verus! {

/// The values that the recipe page shows: a recipe, and the stylesheet that
/// the page links to.
#[derive(Debug, PartialEq, Eq)]
pub struct IndexTemplate {
    pub recipe: Recipe,
    pub stylesheet: &'static str,
}

/// The values of a page, plain.
pub struct IndexTemplateView {
    pub recipe: RecipeView,
    pub stylesheet: Seq<char>,
}

impl View for IndexTemplate {
    type V = IndexTemplateView;

    open spec fn view(&self) -> IndexTemplateView {
        IndexTemplateView { recipe: self.recipe@, stylesheet: self.stylesheet@ }
    }
}

/// The page of `recipe`, linked to the stylesheet of the service.
pub open spec fn page_of(recipe: RecipeView) -> IndexTemplateView {
    IndexTemplateView { recipe, stylesheet: "/recipe.css"@ }
}

impl IndexTemplate {
    /// Makes the page of `recipe`.
    pub fn recipe(recipe: Recipe) -> (page: Self)
        ensures
            page@ == page_of(recipe@),
    {
        Self { recipe, stylesheet: "/recipe.css" }
    }
}

} // verus!
