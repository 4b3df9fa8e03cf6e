//! The catalog's data model: recipe and ingredient rows, request and
//! response shapes, and the error taxonomy.
//!
//! A recipe's cost is transported as the raw bit pattern of a 32-bit
//! IEEE-754 value (`cost_bits`): the catalog never interprets it, it only
//! carries it between the caller and the stored row.

use vstd::prelude::*;

verus! {

/// A stored recipe row. Exactly one row exists per `id`.
pub struct Recipe {
    pub id: String,
    pub title: String,
    pub description: String,
    pub rating: i32,
    pub time: i32,
    pub cost_bits: u32,
}

/// The mathematical value of a [`Recipe`].
#[verifier::ext_equal]
pub ghost struct RecipeView {
    pub id: Seq<char>,
    pub title: Seq<char>,
    pub description: Seq<char>,
    pub rating: int,
    pub time: int,
    pub cost_bits: int,
}

impl View for Recipe {
    type V = RecipeView;

    open spec fn view(&self) -> RecipeView {
        RecipeView {
            id: self.id@,
            title: self.title@,
            description: self.description@,
            rating: self.rating as int,
            time: self.time as int,
            cost_bits: self.cost_bits as int,
        }
    }
}

impl Recipe {
    /// A fresh row: a generated identifier beside the given fields.
    pub fn new(title: &str, description: &str, rating: u8, time_minutes: i32, cost_bits: u32) -> (r:
        Recipe)
        ensures
            r@.title == title@,
            r@.description == description@,
            r@.rating == rating as int,
            r@.time == time_minutes as int,
            r@.cost_bits == cost_bits as int,
            r@.id.len() == 11,
            forall|i: int|
                0 <= i < r@.id.len() ==> crate::ids::is_b64url_char(#[trigger] r@.id[i]),
    {
        Recipe {
            id: crate::ids::generate_uid(),
            title: title.to_owned(),
            description: description.to_owned(),
            rating: rating as i32,
            time: time_minutes,
            cost_bits,
        }
    }
}

impl Clone for Recipe {
    fn clone(&self) -> (r: Self)
        ensures
            r@ == self@,
    {
        Recipe {
            id: self.id.clone(),
            title: self.title.clone(),
            description: self.description.clone(),
            rating: self.rating,
            time: self.time,
            cost_bits: self.cost_bits,
        }
    }
}

/// A stored ingredient row; `recipe_id` references an existing [`Recipe`].
pub struct Ingredient {
    pub id: i32,
    pub title: String,
    pub recipe_id: String,
}

/// The mathematical value of an [`Ingredient`].
#[verifier::ext_equal]
pub ghost struct IngredientView {
    pub id: int,
    pub title: Seq<char>,
    pub recipe_id: Seq<char>,
}

impl View for Ingredient {
    type V = IngredientView;

    open spec fn view(&self) -> IngredientView {
        IngredientView { id: self.id as int, title: self.title@, recipe_id: self.recipe_id@ }
    }
}

impl Clone for Ingredient {
    fn clone(&self) -> (r: Self)
        ensures
            r@ == self@,
    {
        Ingredient { id: self.id, title: self.title.clone(), recipe_id: self.recipe_id.clone() }
    }
}

/// An ingredient to be inserted: the row id is assigned by the store.
pub struct NewIngredient {
    pub recipe_id: String,
    pub title: String,
}

/// The mathematical value of a [`NewIngredient`].
#[verifier::ext_equal]
pub ghost struct NewIngredientView {
    pub recipe_id: Seq<char>,
    pub title: Seq<char>,
}

impl View for NewIngredient {
    type V = NewIngredientView;

    open spec fn view(&self) -> NewIngredientView {
        NewIngredientView { recipe_id: self.recipe_id@, title: self.title@ }
    }
}

/// The body of a create request.
pub struct CreateRecipeBody {
    pub title: String,
    pub description: String,
    pub rating: i32,
    pub time: i32,
    pub cost_bits: u32,
    pub ingredients: Vec<String>,
    pub image_blob: Option<String>,
}

/// The mathematical value of a [`CreateRecipeBody`].
#[verifier::ext_equal]
pub ghost struct CreateRecipeBodyView {
    pub title: Seq<char>,
    pub description: Seq<char>,
    pub rating: int,
    pub time: int,
    pub cost_bits: int,
    pub ingredients: Seq<Seq<char>>,
    pub image_blob: Option<Seq<char>>,
}

impl View for CreateRecipeBody {
    type V = CreateRecipeBodyView;

    open spec fn view(&self) -> CreateRecipeBodyView {
        CreateRecipeBodyView {
            title: self.title@,
            description: self.description@,
            rating: self.rating as int,
            time: self.time as int,
            cost_bits: self.cost_bits as int,
            ingredients: string_views(self.ingredients@),
            image_blob: match self.image_blob {
                Some(s) => Some(s@),
                None => None,
            },
        }
    }
}

/// A recipe as responses carry it: the stored fields, the ingredient
/// titles in insertion order, and the image file name if an asset exists.
pub struct ResponseRecipe {
    pub id: String,
    pub title: String,
    pub description: String,
    pub rating: i32,
    pub time: i32,
    pub cost_bits: u32,
    pub image: Option<String>,
    pub ingredients: Vec<String>,
}

/// The mathematical value of a [`ResponseRecipe`].
#[verifier::ext_equal]
pub ghost struct ResponseRecipeView {
    pub id: Seq<char>,
    pub title: Seq<char>,
    pub description: Seq<char>,
    pub rating: int,
    pub time: int,
    pub cost_bits: int,
    pub image: Option<Seq<char>>,
    pub ingredients: Seq<Seq<char>>,
}

impl View for ResponseRecipe {
    type V = ResponseRecipeView;

    open spec fn view(&self) -> ResponseRecipeView {
        ResponseRecipeView {
            id: self.id@,
            title: self.title@,
            description: self.description@,
            rating: self.rating as int,
            time: self.time as int,
            cost_bits: self.cost_bits as int,
            image: match self.image {
                Some(s) => Some(s@),
                None => None,
            },
            ingredients: string_views(self.ingredients@),
        }
    }
}

/// The views of a sequence of strings.
pub open spec fn string_views(s: Seq<String>) -> Seq<Seq<char>> {
    s.map_values(|x: String| x@)
}

/// The views of a sequence of recipes.
pub open spec fn recipe_views(s: Seq<Recipe>) -> Seq<RecipeView> {
    s.map_values(|x: Recipe| x@)
}

/// The views of a sequence of ingredients.
pub open spec fn ingredient_views(s: Seq<Ingredient>) -> Seq<IngredientView> {
    s.map_values(|x: Ingredient| x@)
}

/// The views of a sequence of response recipes.
pub open spec fn response_views(s: Seq<ResponseRecipe>) -> Seq<ResponseRecipeView> {
    s.map_values(|x: ResponseRecipe| x@)
}

/// A failure of the relational layer. Constraint violations carry their
/// own variants; `Full` says the row-id space is exhausted.
#[derive(Clone, Copy, Debug, PartialEq, Eq, Structural)]
pub enum StoreError {
    DuplicateId,
    MissingRecipe,
    Full,
}

/// Why an uploaded image payload was rejected.
#[derive(Clone, Copy, Debug, PartialEq, Eq, Structural)]
pub enum ClientImageError {
    InvalidBase64,
    InvalidFormat,
    IoError,
}

} // verus!
