//! Request orchestration: the create, get-by-id and search operations
//! composed from the identifier generator, the image pipeline, the store
//! and the ranking engine, together with the laws that relate them.
//!
//! Disk work — writing a prepared image and checking an asset's existence
//! — belongs to the caller, which passes its outcome in (`has_image`,
//! `image_flags`) and writes a prepared payload out between
//! [`prepare_create`] and [`handle_create_recipe`].

use vstd::prelude::*;
use crate::model::Recipe;
use crate::model::RecipeView;
use crate::model::NewIngredient;
use crate::model::NewIngredientView;
use crate::model::CreateRecipeBody;
use crate::model::CreateRecipeBodyView;
use crate::model::ResponseRecipe;
use crate::model::ResponseRecipeView;
use crate::model::StoreError;
use crate::model::ClientImageError;
use crate::model::string_views;
use crate::model::response_views;
use crate::store::Catalog;
use crate::store::CatalogView;
use crate::store::assigned_rows;
use crate::store::rows_for;
use crate::store::titles_for;
use crate::store::lemma_rows_for_absent;
use crate::store::lemma_rows_for_all;
use crate::search::matched_of;
use crate::search::matches_query;
use crate::search::scores_sorted;
use crate::search::score_val;
use crate::search::spec_paginate;
use crate::search::paginate_len;
use crate::images::prepare_image;
use crate::images::image_file_name;

verus! {

/// The recipe row a create request stores.
pub open spec fn created_recipe(body: CreateRecipeBodyView, uid: Seq<char>) -> RecipeView {
    RecipeView {
        id: uid,
        title: body.title,
        description: body.description,
        rating: body.rating,
        time: body.time,
        cost_bits: body.cost_bits,
    }
}

/// The ingredient items a create request stores, all referencing the new
/// recipe.
pub open spec fn new_rows_view(titles: Seq<Seq<char>>, uid: Seq<char>) -> Seq<NewIngredientView> {
    titles.map_values(|t: Seq<char>| NewIngredientView { recipe_id: uid, title: t })
}

/// The catalog after a successful create: the recipe row appended, one
/// ingredient row per title appended in order, the id counter advanced.
pub open spec fn spec_create(c: CatalogView, body: CreateRecipeBodyView, uid: Seq<char>) -> CatalogView {
    CatalogView {
        recipes: c.recipes.push(created_recipe(body, uid)),
        ingredients: c.ingredients + assigned_rows(
            new_rows_view(body.ingredients, uid),
            c.next_id,
        ),
        next_id: c.next_id + body.ingredients.len(),
    }
}

/// The response shape assembled for one recipe.
pub open spec fn response_of(r: RecipeView, titles: Seq<Seq<char>>, has_image: bool) -> ResponseRecipeView {
    ResponseRecipeView {
        id: r.id,
        title: r.title,
        description: r.description,
        rating: r.rating,
        time: r.time,
        cost_bits: r.cost_bits,
        image: if has_image {
            Some(r.id + ".jpeg"@)
        } else {
            None
        },
        ingredients: titles,
    }
}

/// What a get-by-id request answers: the stored fields, the ingredient
/// titles in insertion order, and the asset name when one exists.
pub open spec fn spec_lookup(c: CatalogView, uid: Seq<char>, has_image: bool) -> Option<
    ResponseRecipeView,
> {
    if c.has_recipe(uid) {
        Some(response_of(c.recipe_at(uid), titles_for(c.ingredients, uid), has_image))
    } else {
        None
    }
}

/// Validates and normalizes a create request's image payload before
/// anything is persisted: no payload asks for no asset, a payload either
/// becomes JPEG bytes for the caller to write or rejects the request.
pub fn prepare_create(body: &CreateRecipeBody) -> (r: Result<Option<Vec<u8>>, ClientImageError>)
    ensures
        body@.image_blob.is_none() ==> r == Ok::<Option<Vec<u8>>, ClientImageError>(
            None::<Vec<u8>>,
        ),
        body@.image_blob.is_some() ==> {
            let blob = body@.image_blob.unwrap();
            &&& (r == Err::<Option<Vec<u8>>, ClientImageError>(ClientImageError::InvalidBase64)
                <==> crate::images::b64_decode_of(blob).is_none())
            &&& ((r == Err::<Option<Vec<u8>>, ClientImageError>(ClientImageError::InvalidFormat)
                || r == Err::<Option<Vec<u8>>, ClientImageError>(ClientImageError::IoError))
                ==> crate::images::b64_decode_of(blob).is_some())
            &&& (r.is_ok() ==> r.unwrap().is_some() && crate::images::b64_decode_of(blob).is_some()
                && r.unwrap().unwrap()@.len() > 0)
        },
{
    match &body.image_blob {
        None => Ok(None),
        Some(blob) => match prepare_image(blob) {
            Ok(bytes) => Ok(Some(bytes)),
            Err(e) => Err(e),
        },
    }
}

/// Creates a recipe: appends the recipe row, then the ingredient rows, as
/// two separate inserts. A duplicate id rejects the request before
/// anything is written; a full id space is detected only by the second
/// insert, so the recipe row persists without its ingredients — the
/// store's unguarded two-statement window.
pub fn handle_create_recipe(catalog: &mut Catalog, body: CreateRecipeBody, uid: String) -> (r:
    Result<(), StoreError>)
    requires
        old(catalog)@.wf(),
    ensures
        final(catalog)@.wf(),
        r.is_ok() <==> (!old(catalog)@.has_recipe(uid@) && old(catalog)@.next_id
            + body@.ingredients.len() <= i32::MAX as int),
        r.is_ok() ==> final(catalog)@ == spec_create(old(catalog)@, body@, uid@),
        r == Err::<(), StoreError>(StoreError::DuplicateId) <==> old(catalog)@.has_recipe(uid@),
        r == Err::<(), StoreError>(StoreError::DuplicateId) ==> final(catalog)@ == old(catalog)@,
        r == Err::<(), StoreError>(StoreError::Full) <==> (!old(catalog)@.has_recipe(uid@) && old(
            catalog,
        )@.next_id + body@.ingredients.len() > i32::MAX as int),
        r == Err::<(), StoreError>(StoreError::Full) ==> final(catalog)@.recipes == old(
            catalog,
        )@.recipes.push(created_recipe(body@, uid@)) && final(catalog)@.ingredients == old(
            catalog,
        )@.ingredients && final(catalog)@.next_id == old(catalog)@.next_id,
        r != Err::<(), StoreError>(StoreError::MissingRecipe),
{
    let ghost bv = body@;
    let CreateRecipeBody { title, description, rating, time, cost_bits, ingredients, image_blob: _ } =
        body;
    let recipe = Recipe { id: uid.clone(), title, description, rating, time, cost_bits };
    proof {
        assert(recipe@ =~= created_recipe(bv, uid@));
    }
    let mut items: Vec<NewIngredient> = Vec::new();
    let n = ingredients.len();
    for k in 0..n
        invariant
            n == ingredients.len(),
            string_views(ingredients@) == bv.ingredients,
            items@.map_values(|x: NewIngredient| x@) =~= new_rows_view(
                bv.ingredients.take(k as int),
                uid@,
            ),
    {
        let ghost prev = items@;
        items.push(NewIngredient { recipe_id: uid.clone(), title: ingredients[k].clone() });
        proof {
            assert(items@.map_values(|x: NewIngredient| x@) =~= prev.map_values(
                |x: NewIngredient| x@,
            ).push(NewIngredientView { recipe_id: uid@, title: bv.ingredients[k as int] }));
            assert(new_rows_view(bv.ingredients.take(k as int + 1), uid@) =~= new_rows_view(
                bv.ingredients.take(k as int),
                uid@,
            ).push(NewIngredientView { recipe_id: uid@, title: bv.ingredients[k as int] }));
        }
    }
    proof {
        assert(bv.ingredients.take(n as int) =~= bv.ingredients);
    }
    let ghost pre = catalog@;
    match catalog.insert_recipe(recipe) {
        Err(e) => {
            return Err(e);
        },
        Ok(()) => {},
    }
    let ghost mid = catalog@;
    proof {
        assert(mid.recipes[pre.recipes.len() as int].id == uid@);
        assert forall|k: int| 0 <= k < items@.len() implies mid.has_recipe(
            (#[trigger] items@[k])@.recipe_id,
        ) by {
            let m = items@.map_values(|x: NewIngredient| x@);
            assert(m[k] == items@[k]@);
            assert(m == new_rows_view(bv.ingredients, uid@));
            assert(new_rows_view(bv.ingredients, uid@)[k].recipe_id == uid@);
            assert(items@[k]@.recipe_id == uid@);
        }
    }
    let res = catalog.insert_ingredients(items);
    match res {
        Ok(()) => {
            proof {
                assert(final(catalog)@ =~~= spec_create(pre, bv, uid@));
            }
            Ok(())
        },
        Err(e) => {
            proof {
                assert(e != StoreError::MissingRecipe);
                assert(e == StoreError::Full);
            }
            Err(e)
        },
    }
}

/// Answers a get-by-id request from the catalog; `has_image` reports
/// whether the caller found an asset file for this id.
pub fn handle_get_recipe_by_id(catalog: &Catalog, uid: &String, has_image: bool) -> (r: Option<
    ResponseRecipe,
>)
    requires
        catalog@.wf(),
    ensures
        r.is_some() <==> catalog@.has_recipe(uid@),
        match r {
            Some(resp) => Some(resp@) == spec_lookup(catalog@, uid@, has_image),
            None => true,
        },
{
    match catalog.fetch_recipe_by_id(uid) {
        None => None,
        Some(rec) => {
            let titles = catalog.ingredient_titles_for_recipe(uid);
            let image = if has_image {
                Some(image_file_name(&rec.id))
            } else {
                None
            };
            let resp = ResponseRecipe {
                id: rec.id,
                title: rec.title,
                description: rec.description,
                rating: rec.rating,
                time: rec.time,
                cost_bits: rec.cost_bits,
                image,
                ingredients: titles,
            };
            proof {
                assert(resp@ =~~= response_of(
                    catalog@.recipe_at(uid@),
                    titles_for(catalog@.ingredients, uid@),
                    has_image,
                ));
            }
            Some(resp)
        },
    }
}

/// The response list the search pipeline ranks: one entry per recipe row,
/// in storage order, with its ingredient titles and its asset flag.
pub open spec fn responses_of(c: CatalogView, flags: Seq<bool>) -> Seq<ResponseRecipeView> {
    Seq::new(
        c.recipes.len(),
        |i: int|
            response_of(c.recipes[i], titles_for(c.ingredients, c.recipes[i].id), flags[i]),
    )
}

/// Assembles the response list for every recipe row; `image_flags[i]`
/// reports whether the caller found an asset file for row `i`.
pub fn collect_responses(catalog: &Catalog, image_flags: &Vec<bool>) -> (r: Vec<ResponseRecipe>)
    requires
        catalog@.wf(),
        image_flags@.len() == catalog@.recipes.len(),
    ensures
        response_views(r@) == responses_of(catalog@, image_flags@),
{
    let mut out: Vec<ResponseRecipe> = Vec::new();
    let n = catalog.recipes.len();
    for i in 0..n
        invariant
            n == catalog.recipes.len(),
            catalog@.wf(),
            image_flags@.len() == catalog@.recipes.len(),
            response_views(out@) =~= responses_of(catalog@, image_flags@).take(i as int),
    {
        let ghost prev = out@;
        let rec = catalog.recipes[i].clone();
        let titles = catalog.ingredient_titles_for_recipe(&rec.id);
        let image = if image_flags[i] {
            Some(image_file_name(&rec.id))
        } else {
            None
        };
        let resp = ResponseRecipe {
            id: rec.id,
            title: rec.title,
            description: rec.description,
            rating: rec.rating,
            time: rec.time,
            cost_bits: rec.cost_bits,
            image,
            ingredients: titles,
        };
        proof {
            assert(resp@ =~~= responses_of(catalog@, image_flags@)[i as int]);
        }
        out.push(resp);
        proof {
            assert(response_views(out@) =~= response_views(prev).push(resp@));
            assert(responses_of(catalog@, image_flags@).take(i as int + 1) =~= responses_of(
                catalog@,
                image_flags@,
            ).take(i as int).push(responses_of(catalog@, image_flags@)[i as int]));
        }
    }
    proof {
        assert(responses_of(catalog@, image_flags@).take(n as int) =~= responses_of(
            catalog@,
            image_flags@,
        ));
    }
    out
}

/// Answers a search request: ranks every recipe's document against the
/// query — ascending score, lowest-quality match first, equal scores in
/// storage order — and cuts the requested page. The page is a function
/// of the catalog, the asset flags, the query, the offset and the
/// limit: repeated identical requests answer identically.
pub fn handle_get_recipes_filtered(
    catalog: &Catalog,
    query: &String,
    offset: Option<usize>,
    limit: Option<usize>,
    image_flags: &Vec<bool>,
) -> (r: Vec<ResponseRecipe>)
    requires
        catalog@.wf(),
        image_flags@.len() == catalog@.recipes.len(),
    ensures
        response_views(r@) == spec_paginate(
            crate::search::stable_rank(
                matched_of(responses_of(catalog@, image_flags@), query@),
                query@,
            ),
            offset,
            limit,
        ),
        r@.len() == paginate_len(
            matched_of(responses_of(catalog@, image_flags@), query@).len() as int,
            offset,
            limit,
        ),
        scores_sorted(response_views(r@), query@),
        forall|k: int| 0 <= k < r@.len() ==> matches_query(response_views(r@)[k], query@),
        (forall|k: int|
            0 <= k < responses_of(catalog@, image_flags@).len() ==> !matches_query(
                responses_of(catalog@, image_flags@)[k],
                query@,
            )) ==> r@.len() == 0,
{
    let responses = collect_responses(catalog, image_flags);
    let sorted = crate::search::fuzzy_sort_recipes(responses, query);
    let ghost rankedv = response_views(sorted@);
    let page = paginate_with_rank_facts(sorted, offset, limit, Ghost(query@));
    proof {
        assert(response_views(page@) == spec_paginate(rankedv, offset, limit));
    }
    page
}

/// Pagination of an already ranked list, carrying the ranking facts
/// through to the page: order and membership survive cutting.
fn paginate_with_rank_facts(
    items: Vec<ResponseRecipe>,
    offset: Option<usize>,
    limit: Option<usize>,
    Ghost(q): Ghost<Seq<char>>,
) -> (r: Vec<ResponseRecipe>)
    requires
        scores_sorted(response_views(items@), q),
        forall|k: int|
            0 <= k < items@.len() ==> matches_query(response_views(items@)[k], q),
    ensures
        response_views(r@) == spec_paginate(response_views(items@), offset, limit),
        r@.len() == paginate_len(items@.len() as int, offset, limit),
        scores_sorted(response_views(r@), q),
        forall|k: int| 0 <= k < r@.len() ==> matches_query(response_views(r@)[k], q),
{
    let ghost orig = response_views(items@);
    let r = crate::search::paginate(items, offset, limit);
    proof {
        let rv = response_views(r@);
        assert forall|k: int| 0 <= k < rv.len() implies matches_query(rv[k], q) by {
            lemma_paginate_index(orig, offset, limit, k);
            let t = paginate_base(orig, offset) + k;
            assert(rv[k] == orig[t]);
        }
        assert forall|i: int, j: int| 0 <= i <= j < rv.len() implies score_val(
            #[trigger] rv[i],
            q,
        ) <= score_val(#[trigger] rv[j], q) by {
            lemma_paginate_index(orig, offset, limit, i);
            lemma_paginate_index(orig, offset, limit, j);
            let b = paginate_base(orig, offset);
            assert(rv[i] == orig[b + i] && rv[j] == orig[b + j]);
        }
    }
    r
}

/// The index in the ranked list where the returned page starts.
pub open spec fn paginate_base(s: Seq<ResponseRecipeView>, offset: Option<usize>) -> int {
    match offset {
        Some(o) => if (o as int) < s.len() {
            o as int
        } else {
            0
        },
        None => 0,
    }
}

/// A successful create preserves the store's invariant and makes the new
/// id present.
pub proof fn lemma_create_wf(c: CatalogView, body: CreateRecipeBodyView, uid: Seq<char>)
    requires
        c.wf(),
        !c.has_recipe(uid),
        c.next_id + body.ingredients.len() <= i32::MAX as int,
    ensures
        spec_create(c, body, uid).wf(),
        spec_create(c, body, uid).has_recipe(uid),
{
    let c2 = spec_create(c, body, uid);
    let added = assigned_rows(new_rows_view(body.ingredients, uid), c.next_id);
    assert(c2.recipes[c.recipes.len() as int].id == uid);
    assert(c2.has_recipe(uid));
    assert forall|i: int, j: int| 0 <= i < j < c2.recipes.len() implies (
    #[trigger] c2.recipes[i].id) != (#[trigger] c2.recipes[j].id) by {
        if j == c.recipes.len() {
            assert(c2.recipes[i] == c.recipes[i]);
            if c.recipes[i].id == uid {
                assert(c.has_recipe(uid));
            }
        }
    }
    assert forall|k: int| 0 <= k < c2.ingredients.len() implies c2.has_recipe(
        (#[trigger] c2.ingredients[k]).recipe_id,
    ) by {
        if k < c.ingredients.len() {
            let id0 = c.ingredients[k].recipe_id;
            assert(c.has_recipe(id0));
            let i = choose|i: int| 0 <= i < c.recipes.len() && #[trigger] c.recipes[i].id == id0;
            assert(c2.recipes[i].id == id0);
        } else {
            assert(c2.ingredients[k] == added[k - c.ingredients.len()]);
            assert(c2.ingredients[k].recipe_id == uid);
        }
    }
    assert forall|k: int| 0 <= k < c2.ingredients.len() implies 0 < (
    #[trigger] c2.ingredients[k]).id < c2.next_id by {
        if k >= c.ingredients.len() {
            assert(c2.ingredients[k] == added[k - c.ingredients.len()]);
        }
    }
    assert forall|k: int, l: int| 0 <= k < l < c2.ingredients.len() implies (
    #[trigger] c2.ingredients[k]).id < (#[trigger] c2.ingredients[l]).id by {
        if k >= c.ingredients.len() {
            assert(c2.ingredients[k] == added[k - c.ingredients.len()]);
            assert(c2.ingredients[l] == added[l - c.ingredients.len()]);
        } else if l >= c.ingredients.len() {
            assert(c2.ingredients[l] == added[l - c.ingredients.len()]);
        }
    }
}

/// In a well-formed catalog every row carrying the id is the one
/// [`CatalogView::recipe_at`] names.
pub proof fn lemma_recipe_at_unique(c: CatalogView, uid: Seq<char>, i: int)
    requires
        c.wf(),
        0 <= i < c.recipes.len(),
        c.recipes[i].id == uid,
    ensures
        c.recipe_at(uid) == c.recipes[i],
{
    let j = choose|j: int| 0 <= j < c.recipes.len() && #[trigger] c.recipes[j].id == uid;
    assert(c.recipes[i].id == uid);
    if i != j {
        if i < j {
            assert(c.recipes[i].id != c.recipes[j].id);
        } else {
            assert(c.recipes[j].id != c.recipes[i].id);
        }
    }
}

/// Reading a freshly created id gives back the submitted fields and the
/// submitted ingredient titles in the submitted order.
pub proof fn lemma_get_after_create(
    c: CatalogView,
    body: CreateRecipeBodyView,
    uid: Seq<char>,
    has_image: bool,
)
    requires
        c.wf(),
        !c.has_recipe(uid),
        c.next_id + body.ingredients.len() <= i32::MAX as int,
    ensures
        spec_lookup(spec_create(c, body, uid), uid, has_image) == Some(
            response_of(created_recipe(body, uid), body.ingredients, has_image),
        ),
{
    let c2 = spec_create(c, body, uid);
    let added = assigned_rows(new_rows_view(body.ingredients, uid), c.next_id);
    lemma_create_wf(c, body, uid);
    assert(c2.recipes[c.recipes.len() as int] == created_recipe(body, uid));
    lemma_recipe_at_unique(c2, uid, c.recipes.len() as int);
    assert forall|k: int| 0 <= k < c.ingredients.len() implies (
    #[trigger] c.ingredients[k]).recipe_id != uid by {
        if c.ingredients[k].recipe_id == uid {
            assert(c.has_recipe(uid));
        }
    }
    lemma_rows_for_absent(c.ingredients, uid);
    assert forall|k: int| 0 <= k < added.len() implies (#[trigger] added[k]).recipe_id == uid by {}
    lemma_rows_for_all(added, uid);
    crate::store::lemma_rows_for_concat(c.ingredients, added, uid);
    assert(rows_for(c2.ingredients, uid) =~= added);
    assert(titles_for(c2.ingredients, uid) =~= body.ingredients);
    assert(spec_lookup(c2, uid, has_image) == Some(
        response_of(created_recipe(body, uid), body.ingredients, has_image),
    ));
}

/// A create under one id answers every other id's lookup as before: the
/// new rows reference only the new recipe. Applied create by create,
/// this makes any serialized run of creates under pairwise distinct ids
/// fully visible to later reads.
pub proof fn lemma_create_preserves_other_lookup(
    c: CatalogView,
    body: CreateRecipeBodyView,
    uid: Seq<char>,
    other: Seq<char>,
    has_image: bool,
)
    requires
        c.wf(),
        !c.has_recipe(uid),
        c.next_id + body.ingredients.len() <= i32::MAX as int,
        other != uid,
    ensures
        spec_lookup(spec_create(c, body, uid), other, has_image) == spec_lookup(
            c,
            other,
            has_image,
        ),
{
    let c2 = spec_create(c, body, uid);
    lemma_create_wf(c, body, uid);
    let added = assigned_rows(new_rows_view(body.ingredients, uid), c.next_id);
    if c.has_recipe(other) {
        let i = choose|i: int| 0 <= i < c.recipes.len() && #[trigger] c.recipes[i].id == other;
        assert(c2.recipes[i].id == other);
        assert(c2.has_recipe(other));
        lemma_recipe_at_unique(c2, other, i);
        lemma_recipe_at_unique(c, other, i);
        assert forall|k: int| 0 <= k < added.len() implies (#[trigger] added[k]).recipe_id
            != other by {}
        lemma_rows_for_absent(added, other);
        crate::store::lemma_rows_for_concat(c.ingredients, added, other);
        assert(rows_for(c2.ingredients, other) =~= rows_for(c.ingredients, other));
        assert(titles_for(c2.ingredients, other) == titles_for(c.ingredients, other));
    } else {
        if c2.has_recipe(other) {
            let j = choose|j: int|
                0 <= j < c2.recipes.len() && #[trigger] c2.recipes[j].id == other;
            if j < c.recipes.len() {
                assert(c.recipes[j].id == other);
                assert(c.has_recipe(other));
            } else {
                assert(c2.recipes[j].id == uid);
            }
        }
        assert(!c2.has_recipe(other));
    }
}

/// Two creates under distinct ids — in whichever order the store
/// serializes them — leave both recipes retrievable, each with its own
/// fields and ingredient titles.
pub proof fn lemma_distinct_creates_both_retrievable(
    c: CatalogView,
    body1: CreateRecipeBodyView,
    uid1: Seq<char>,
    body2: CreateRecipeBodyView,
    uid2: Seq<char>,
    has_image1: bool,
    has_image2: bool,
)
    requires
        c.wf(),
        uid1 != uid2,
        !c.has_recipe(uid1),
        !c.has_recipe(uid2),
        c.next_id + body1.ingredients.len() + body2.ingredients.len() <= i32::MAX as int,
    ensures
        ({
            let c2 = spec_create(spec_create(c, body1, uid1), body2, uid2);
            &&& spec_lookup(c2, uid1, has_image1) == Some(
                response_of(created_recipe(body1, uid1), body1.ingredients, has_image1),
            )
            &&& spec_lookup(c2, uid2, has_image2) == Some(
                response_of(created_recipe(body2, uid2), body2.ingredients, has_image2),
            )
        }),
{
    let c1 = spec_create(c, body1, uid1);
    let c2 = spec_create(c1, body2, uid2);
    lemma_create_wf(c, body1, uid1);
    assert(!c1.has_recipe(uid2)) by {
        if c1.has_recipe(uid2) {
            let i = choose|i: int|
                0 <= i < c1.recipes.len() && #[trigger] c1.recipes[i].id == uid2;
            if i < c.recipes.len() {
                assert(c.has_recipe(uid2));
            }
        }
    }
    lemma_get_after_create(c1, body2, uid2, has_image2);
    lemma_get_after_create(c, body1, uid1, has_image1);
    // The second create does not disturb the first recipe's lookup.
    lemma_create_preserves_other_lookup(c1, body2, uid2, uid1, has_image1);
    assert(spec_lookup(c2, uid1, has_image1) == spec_lookup(c1, uid1, has_image1));
}

/// Every page entry is the ranked entry `paginate_base` later.
proof fn lemma_paginate_index(
    s: Seq<ResponseRecipeView>,
    offset: Option<usize>,
    limit: Option<usize>,
    k: int,
)
    requires
        0 <= k < spec_paginate(s, offset, limit).len(),
    ensures
        paginate_base(s, offset) + k < s.len(),
        spec_paginate(s, offset, limit)[k] == s[paginate_base(s, offset) + k],
{
}

} // verus!
