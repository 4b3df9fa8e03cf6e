//! The data store: recipe and ingredient rows held as one catalog value.
//!
//! The catalog plays the part of the relational layer: recipe ids are
//! unique, every ingredient row references an existing recipe, and
//! ingredient row ids are assigned from an increasing counter, so a
//! recipe's ingredients come back in creation order. Callers that share a
//! catalog serialize access to it around the whole operation, exactly as
//! the one shared connection would.

use vstd::prelude::*;
use crate::model::Recipe;
use crate::model::RecipeView;
use crate::model::Ingredient;
use crate::model::IngredientView;
use crate::model::NewIngredient;
use crate::model::NewIngredientView;
use crate::model::StoreError;
use crate::model::recipe_views;
use crate::model::ingredient_views;

verus! {

/// The store of recipe and ingredient rows.
pub struct Catalog {
    pub recipes: Vec<Recipe>,
    pub ingredients: Vec<Ingredient>,
    pub next_ingredient_id: i32,
}

/// The mathematical value of a [`Catalog`].
#[verifier::ext_equal]
pub ghost struct CatalogView {
    pub recipes: Seq<RecipeView>,
    pub ingredients: Seq<IngredientView>,
    pub next_id: int,
}

impl View for Catalog {
    type V = CatalogView;

    open spec fn view(&self) -> CatalogView {
        CatalogView {
            recipes: recipe_views(self.recipes@),
            ingredients: ingredient_views(self.ingredients@),
            next_id: self.next_ingredient_id as int,
        }
    }
}

/// The ingredient rows created from `items`, with row ids assigned from
/// `base` upward.
pub open spec fn assigned_rows(items: Seq<NewIngredientView>, base: int) -> Seq<IngredientView> {
    Seq::new(
        items.len(),
        |i: int|
            IngredientView { id: base + i, title: items[i].title, recipe_id: items[i].recipe_id },
    )
}

impl CatalogView {
    /// Some stored recipe carries this id.
    pub open spec fn has_recipe(self, id: Seq<char>) -> bool {
        exists|i: int| 0 <= i < self.recipes.len() && #[trigger] self.recipes[i].id == id
    }

    /// The stored recipe carrying this id; meaningful only under
    /// [`Self::wf`] when [`Self::has_recipe`] holds.
    pub open spec fn recipe_at(self, id: Seq<char>) -> RecipeView {
        self.recipes[choose|i: int|
            0 <= i < self.recipes.len() && #[trigger] self.recipes[i].id == id]
    }

    /// The store's invariant: unique recipe ids, referencing ingredient
    /// rows, and ingredient row ids increasing below the counter.
    pub open spec fn wf(self) -> bool {
        &&& forall|i: int, j: int|
            0 <= i < j < self.recipes.len() ==> (#[trigger] self.recipes[i].id) != (
            #[trigger] self.recipes[j].id)
        &&& forall|k: int|
            0 <= k < self.ingredients.len() ==> self.has_recipe(
                (#[trigger] self.ingredients[k]).recipe_id,
            )
        &&& forall|k: int|
            0 <= k < self.ingredients.len() ==> 0 < (#[trigger] self.ingredients[k]).id
                < self.next_id
        &&& forall|k: int, l: int|
            0 <= k < l < self.ingredients.len() ==> (#[trigger] self.ingredients[k]).id < (
            #[trigger] self.ingredients[l]).id
        &&& 1 <= self.next_id <= i32::MAX as int
    }
}

/// The ingredient rows that reference the recipe with the given id, in
/// insertion order.
pub open spec fn rows_for(ings: Seq<IngredientView>, id: Seq<char>) -> Seq<IngredientView>
    decreases ings.len(),
{
    if ings.len() == 0 {
        Seq::empty()
    } else {
        rows_for(ings.drop_last(), id) + if ings.last().recipe_id == id {
            seq![ings.last()]
        } else {
            Seq::empty()
        }
    }
}

/// The titles of the ingredient rows that reference the recipe with the
/// given id, in insertion order.
pub open spec fn titles_for(ings: Seq<IngredientView>, id: Seq<char>) -> Seq<Seq<char>> {
    rows_for(ings, id).map_values(|g: IngredientView| g.title)
}

/// Filtering rows for one recipe distributes over concatenation.
pub proof fn lemma_rows_for_concat(a: Seq<IngredientView>, b: Seq<IngredientView>, id: Seq<char>)
    ensures
        rows_for(a + b, id) == rows_for(a, id) + rows_for(b, id),
    decreases b.len(),
{
    if b.len() == 0 {
        assert(a + b =~= a);
        assert(rows_for(a, id) + rows_for(b, id) =~= rows_for(a, id));
    } else {
        assert((a + b).drop_last() =~= a + b.drop_last());
        lemma_rows_for_concat(a, b.drop_last(), id);
        assert((a + b).last() == b.last());
        assert(rows_for(a + b, id) =~= rows_for(a, id) + rows_for(b, id));
    }
}

/// Rows that all reference other recipes contribute nothing.
pub proof fn lemma_rows_for_absent(ings: Seq<IngredientView>, id: Seq<char>)
    requires
        forall|k: int| 0 <= k < ings.len() ==> (#[trigger] ings[k]).recipe_id != id,
    ensures
        rows_for(ings, id) == Seq::<IngredientView>::empty(),
    decreases ings.len(),
{
    if ings.len() > 0 {
        assert(ings[ings.len() - 1].recipe_id != id);
        lemma_rows_for_absent(ings.drop_last(), id);
        assert(rows_for(ings, id) =~= Seq::<IngredientView>::empty());
    }
}

/// Rows that all reference this recipe survive whole.
pub proof fn lemma_rows_for_all(ings: Seq<IngredientView>, id: Seq<char>)
    requires
        forall|k: int| 0 <= k < ings.len() ==> (#[trigger] ings[k]).recipe_id == id,
    ensures
        rows_for(ings, id) == ings,
    decreases ings.len(),
{
    if ings.len() > 0 {
        assert(ings[ings.len() - 1].recipe_id == id);
        lemma_rows_for_all(ings.drop_last(), id);
        assert(rows_for(ings, id) =~= ings);
    }
}

impl Catalog {
    /// An empty store.
    pub fn new() -> (c: Catalog)
        ensures
            c@.wf(),
            c@.recipes.len() == 0,
            c@.ingredients.len() == 0,
            c@.next_id == 1,
    {
        Catalog { recipes: Vec::new(), ingredients: Vec::new(), next_ingredient_id: 1 }
    }

    /// The index of the recipe row carrying `id`, if one does.
    fn find_index(&self, id: &String) -> (r: Option<usize>)
        ensures
            match r {
                Some(i) => i < self.recipes.len() && self@.recipes[i as int].id == id@,
                None => !self@.has_recipe(id@),
            },
    {
        let n = self.recipes.len();
        for j in 0..n
            invariant
                n == self.recipes.len(),
                forall|k: int| 0 <= k < j ==> (#[trigger] self@.recipes[k].id) != id@,
        {
            if self.recipes[j].id == *id {
                return Some(j);
            }
        }
        None
    }

    /// Whether a recipe row carries `id`.
    pub fn contains_recipe(&self, id: &String) -> (r: bool)
        ensures
            r == self@.has_recipe(id@),
    {
        self.find_index(id).is_some()
    }

    /// Appends a recipe row; rejects a duplicate id and changes nothing
    /// then.
    pub fn insert_recipe(&mut self, recipe: Recipe) -> (r: Result<(), StoreError>)
        requires
            old(self)@.wf(),
        ensures
            final(self)@.wf(),
            r.is_ok() <==> !old(self)@.has_recipe(recipe@.id),
            r.is_ok() ==> final(self)@.recipes == old(self)@.recipes.push(recipe@)
                && final(self)@.ingredients == old(self)@.ingredients && final(self)@.next_id == old(
                self,
            )@.next_id,
            r.is_err() ==> final(self)@ == old(self)@ && r == Err::<(), StoreError>(
                StoreError::DuplicateId,
            ),
    {
        if self.contains_recipe(&recipe.id) {
            return Err(StoreError::DuplicateId);
        }
        let ghost pre = self@;
        self.recipes.push(recipe);
        proof {
            assert(self@.recipes =~= pre.recipes.push(recipe@));
            assert(self@.ingredients =~= pre.ingredients);
            assert forall|k: int|
                0 <= k < self@.ingredients.len() implies self@.has_recipe(
                (#[trigger] self@.ingredients[k]).recipe_id,
            ) by {
                let id = pre.ingredients[k].recipe_id;
                let i = choose|i: int|
                    0 <= i < pre.recipes.len() && #[trigger] pre.recipes[i].id == id;
                assert(self@.recipes[i].id == id);
            }
        }
        Ok(())
    }

    /// Appends one ingredient row per item, assigning row ids from the
    /// counter in order. Rejects the batch whole — and changes nothing —
    /// when an item references no stored recipe, or when the id space
    /// cannot seat every row.
    pub fn insert_ingredients(&mut self, items: Vec<NewIngredient>) -> (r: Result<(), StoreError>)
        requires
            old(self)@.wf(),
        ensures
            final(self)@.wf(),
            r.is_ok() <==> (forall|k: int|
                0 <= k < items@.len() ==> old(self)@.has_recipe(
                    (#[trigger] items@[k])@.recipe_id,
                )) && old(self)@.next_id + items@.len() <= i32::MAX as int,
            r.is_ok() ==> final(self)@.ingredients == old(self)@.ingredients + assigned_rows(
                items@.map_values(|x: NewIngredient| x@),
                old(self)@.next_id,
            ) && final(self)@.recipes == old(self)@.recipes && final(self)@.next_id == old(self)@.next_id
                + items@.len(),
            r.is_err() ==> final(self)@ == old(self)@,
            r == Err::<(), StoreError>(StoreError::MissingRecipe) <==> (exists|k: int|
                0 <= k < items@.len() && !old(self)@.has_recipe((#[trigger] items@[k])@.recipe_id)),
            r == Err::<(), StoreError>(StoreError::Full) <==> (forall|k: int|
                0 <= k < items@.len() ==> old(self)@.has_recipe((#[trigger] items@[k])@.recipe_id))
                && old(self)@.next_id + items@.len() > i32::MAX as int,
    {
        let n = items.len();
        let ghost pre0 = self@;
        for k in 0..n
            invariant
                n == items.len(),
                self@ == pre0,
                pre0.wf(),
                forall|t: int| 0 <= t < k ==> self@.has_recipe((#[trigger] items@[t])@.recipe_id),
        {
            if !self.contains_recipe(&items[k].recipe_id) {
                return Err(StoreError::MissingRecipe);
            }
        }
        if n > (i32::MAX - self.next_ingredient_id) as usize {
            return Err(StoreError::Full);
        }
        let ghost pre = self@;
        let ghost rows = assigned_rows(items@.map_values(|x: NewIngredient| x@), pre.next_id);
        for k in 0..n
            invariant
                n == items.len(),
                self@.recipes == pre.recipes,
                self@.next_id == pre.next_id + k,
                pre.next_id + n <= i32::MAX as int,
                self@.ingredients =~= pre.ingredients + rows.take(k as int),
                rows == assigned_rows(items@.map_values(|x: NewIngredient| x@), pre.next_id),
                forall|t: int| 0 <= t < n ==> pre.has_recipe((#[trigger] items@[t])@.recipe_id),
                pre.wf(),
        {
            let row = Ingredient {
                id: self.next_ingredient_id,
                title: items[k].title.clone(),
                recipe_id: items[k].recipe_id.clone(),
            };
            let ghost rowv = row@;
            let ghost prev = self@.ingredients;
            self.ingredients.push(row);
            self.next_ingredient_id = self.next_ingredient_id + 1;
            proof {
                let m = items@.map_values(|x: NewIngredient| x@);
                assert(m[k as int] == items@[k as int]@);
                assert(rows[k as int] == IngredientView {
                    id: pre.next_id + k,
                    title: m[k as int].title,
                    recipe_id: m[k as int].recipe_id,
                });
                assert(rowv == rows[k as int]);
                assert(self@.ingredients =~= prev.push(rowv));
                assert(rows.take(k as int + 1) =~= rows.take(k as int).push(rows[k as int]));
                assert(self@.ingredients =~= pre.ingredients + rows.take(k as int + 1));
            }
        }
        proof {
            assert(rows.take(n as int) =~= rows);
            assert(self@.ingredients =~= pre.ingredients + rows);
            assert(self@.wf()) by {
                assert forall|t: int|
                    0 <= t < self@.ingredients.len() implies self@.has_recipe(
                    (#[trigger] self@.ingredients[t]).recipe_id,
                ) by {
                    let id = self@.ingredients[t].recipe_id;
                    if t < pre.ingredients.len() {
                        assert(pre.has_recipe(id));
                    } else {
                        assert(id == items@[t - pre.ingredients.len()]@.recipe_id);
                        assert(pre.has_recipe(id));
                    }
                    let i = choose|i: int|
                        0 <= i < pre.recipes.len() && #[trigger] pre.recipes[i].id == id;
                    assert(self@.recipes[i].id == id);
                }
            }
        }
        Ok(())
    }

    /// The recipe row carrying `id`, when one does.
    pub fn fetch_recipe_by_id(&self, id: &String) -> (r: Option<Recipe>)
        requires
            self@.wf(),
        ensures
            r.is_some() <==> self@.has_recipe(id@),
            match r {
                Some(rec) => rec@ == self@.recipe_at(id@) && rec@.id == id@,
                None => true,
            },
    {
        match self.find_index(id) {
            Some(i) => {
                let rec = self.recipes[i].clone();
                proof {
                    let j = choose|j: int|
                        0 <= j < self@.recipes.len() && #[trigger] self@.recipes[j].id == id@;
                    assert(j == i);
                }
                Some(rec)
            },
            None => None,
        }
    }

    /// The ingredient rows referencing `id`, in insertion order.
    pub fn fetch_ingredients_for_recipe(&self, id: &String) -> (r: Vec<Ingredient>)
        ensures
            ingredient_views(r@) == rows_for(self@.ingredients, id@),
    {
        let mut out: Vec<Ingredient> = Vec::new();
        let n = self.ingredients.len();
        for k in 0..n
            invariant
                n == self.ingredients.len(),
                ingredient_views(out@) =~= rows_for(self@.ingredients.take(k as int), id@),
        {
            proof {
                assert(self@.ingredients.take(k + 1).drop_last() =~= self@.ingredients.take(
                    k as int,
                ));
                assert(self@.ingredients.take(k + 1).last() == self@.ingredients[k as int]);
            }
            if self.ingredients[k].recipe_id == *id {
                out.push(self.ingredients[k].clone());
            }
            proof {
                assert(ingredient_views(out@) =~= rows_for(
                    self@.ingredients.take(k + 1),
                    id@,
                ));
            }
        }
        proof {
            assert(self@.ingredients.take(n as int) =~= self@.ingredients);
        }
        out
    }

    /// The titles of the ingredient rows referencing `id`, in insertion
    /// order.
    pub fn ingredient_titles_for_recipe(&self, id: &String) -> (r: Vec<String>)
        ensures
            crate::model::string_views(r@) == titles_for(self@.ingredients, id@),
    {
        let rows = self.fetch_ingredients_for_recipe(id);
        let mut out: Vec<String> = Vec::new();
        let n = rows.len();
        for k in 0..n
            invariant
                n == rows.len(),
                ingredient_views(rows@) == rows_for(self@.ingredients, id@),
                crate::model::string_views(out@) =~= ingredient_views(rows@).take(
                    k as int,
                ).map_values(|g: IngredientView| g.title),
        {
            let ghost prev = out@;
            out.push(rows[k].title.clone());
            proof {
                let rv = ingredient_views(rows@);
                assert(rv[k as int] == rows@[k as int]@);
                assert(crate::model::string_views(out@) =~= crate::model::string_views(
                    prev,
                ).push(rows@[k as int].title@));
                assert(rv.take(k as int + 1) =~= rv.take(k as int).push(rv[k as int]));
                assert(rv.take(k as int + 1).map_values(|g: IngredientView| g.title) =~= rv.take(
                    k as int,
                ).map_values(|g: IngredientView| g.title).push(rv[k as int].title));
                assert(crate::model::string_views(out@) =~= rv.take(k as int + 1).map_values(
                    |g: IngredientView| g.title,
                ));
            }
        }
        proof {
            assert(ingredient_views(rows@).take(n as int) =~= ingredient_views(rows@));
        }
        out
    }

    /// Every recipe row beside its ingredient rows, recipes in insertion
    /// order, each ingredient list in insertion order; a recipe with no
    /// ingredients appears with an empty list.
    pub fn fetch_all_recipes_with_ingredients(&self) -> (r: Vec<(Recipe, Vec<Ingredient>)>)
        requires
            self@.wf(),
        ensures
            r@.len() == self@.recipes.len(),
            forall|i: int|
                0 <= i < r@.len() ==> (#[trigger] r@[i]).0@ == self@.recipes[i] && ingredient_views(
                    r@[i].1@,
                ) == rows_for(self@.ingredients, self@.recipes[i].id),
    {
        let mut out: Vec<(Recipe, Vec<Ingredient>)> = Vec::new();
        let n = self.recipes.len();
        for i in 0..n
            invariant
                n == self.recipes.len(),
                self@.wf(),
                out@.len() == i,
                forall|t: int|
                    0 <= t < i ==> (#[trigger] out@[t]).0@ == self@.recipes[t] && ingredient_views(
                        out@[t].1@,
                    ) == rows_for(self@.ingredients, self@.recipes[t].id),
        {
            let rec = self.recipes[i].clone();
            let rows = self.fetch_ingredients_for_recipe(&rec.id);
            out.push((rec, rows));
        }
        out
    }
}

} // verus!
