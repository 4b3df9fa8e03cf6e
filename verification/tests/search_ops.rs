use fuzzy_matcher::FuzzyMatcher;
use recipe_catalog::ids::generate_uid;
use recipe_catalog::handlers::handle_create_recipe;
use recipe_catalog::handlers::handle_get_recipes_filtered;
use recipe_catalog::model::CreateRecipeBody;
use recipe_catalog::model::ResponseRecipe;
use recipe_catalog::search::build_document;
use recipe_catalog::search::fuzzy_sort_recipes;
use recipe_catalog::search::paginate;
use recipe_catalog::store::Catalog;

fn response(title: &str, description: &str, ingredients: &[&str]) -> ResponseRecipe {
    ResponseRecipe {
        id: "AAAAAAAAAAA".to_string(),
        title: title.to_string(),
        description: description.to_string(),
        rating: 3,
        time: 10,
        cost_bits: 2.0f32.to_bits(),
        image: None,
        ingredients: ingredients.iter().map(|s| s.to_string()).collect(),
    }
}

fn body(title: &str, description: &str, ingredients: &[&str]) -> CreateRecipeBody {
    CreateRecipeBody {
        title: title.to_string(),
        description: description.to_string(),
        rating: 3,
        time: 10,
        cost_bits: 2.0f32.to_bits(),
        ingredients: ingredients.iter().map(|s| s.to_string()).collect(),
        image_blob: None,
    }
}

fn filled_catalog() -> Catalog {
    let mut catalog = Catalog::new();
    let entries = [
        ("Soup", "Warm soup", vec!["Water", "Salt"]),
        ("Salad", "Green and fresh", vec!["Lettuce", "Olive oil"]),
        ("Superb soup supper", "Soup soup soup", vec!["Soup stock"]),
        ("Bread", "Plain loaf", vec!["Flour", "Water"]),
    ];
    for (t, d, ing) in entries {
        handle_create_recipe(&mut catalog, body(t, d, &ing), generate_uid()).unwrap();
    }
    catalog
}

fn flags(catalog: &Catalog) -> Vec<bool> {
    vec![false; catalog.recipes.len()]
}

#[test]
fn document_is_title_description_and_joined_ingredients() {
    let rec = response("Soup", "Warm soup", &["Water", "Salt"]);
    assert_eq!(build_document(&rec), "Soup Warm soup Water, Salt");
}

#[test]
fn document_with_no_ingredients_keeps_separators() {
    let rec = response("Tea", "Hot", &[]);
    assert_eq!(build_document(&rec), "Tea Hot ");
}

#[test]
fn unmatched_query_gives_empty_results() {
    let catalog = filled_catalog();
    let query = "zzqxjw".to_string();
    let out = handle_get_recipes_filtered(&catalog, &query, None, None, &flags(&catalog));
    assert!(out.is_empty());
}

#[test]
fn matching_query_finds_the_recipe() {
    let catalog = filled_catalog();
    let query = "soup".to_string();
    let out = handle_get_recipes_filtered(&catalog, &query, None, None, &flags(&catalog));
    assert!(!out.is_empty());
    assert!(out.iter().any(|r| r.title == "Soup"));
    assert!(out.iter().all(|r| r.title != "Salad" || r.description.contains("soup")));
}

#[test]
fn results_are_sorted_by_ascending_score() {
    let catalog = filled_catalog();
    let query = "soup".to_string();
    let out = handle_get_recipes_filtered(&catalog, &query, None, None, &flags(&catalog));
    assert!(out.len() >= 2);
    let matcher = fuzzy_matcher::skim::SkimMatcherV2::default();
    let scores: Vec<i64> = out
        .iter()
        .map(|r| matcher.fuzzy_match(&build_document(r), &query).expect("result must match"))
        .collect();
    for pair in scores.windows(2) {
        assert!(pair[0] <= pair[1], "scores must ascend: {:?}", scores);
    }
}

#[test]
fn fuzzy_sort_drops_only_unmatched() {
    let recipes = vec![
        response("Soup", "Warm soup", &["Water"]),
        response("Brick", "Not food", &["Clay"]),
    ];
    let query = "soup".to_string();
    let out = fuzzy_sort_recipes(recipes, &query);
    assert_eq!(out.len(), 1);
    assert_eq!(out[0].title, "Soup");
}

#[test]
fn limit_truncates_to_remaining() {
    let catalog = filled_catalog();
    let query = "soup".to_string();
    let all = handle_get_recipes_filtered(&catalog, &query, None, None, &flags(&catalog));
    let n = all.len();
    assert!(n >= 2);

    let one = handle_get_recipes_filtered(&catalog, &query, None, Some(1), &flags(&catalog));
    assert_eq!(one.len(), 1);
    assert_eq!(one[0].id, all[0].id);

    let big = handle_get_recipes_filtered(&catalog, &query, None, Some(n + 5), &flags(&catalog));
    assert_eq!(big.len(), n);
}

#[test]
fn offset_drops_leading_results_when_below_count() {
    let catalog = filled_catalog();
    let query = "soup".to_string();
    let all = handle_get_recipes_filtered(&catalog, &query, None, None, &flags(&catalog));
    let n = all.len();
    assert!(n >= 2);
    let tail = handle_get_recipes_filtered(&catalog, &query, Some(1), None, &flags(&catalog));
    assert_eq!(tail.len(), n - 1);
    assert_eq!(tail[0].id, all[1].id);
}

#[test]
fn offset_at_or_past_count_leaves_the_list_whole() {
    // The literal service behavior: an offset reaching past the matched
    // count drops nothing rather than emptying the page.
    let catalog = filled_catalog();
    let query = "soup".to_string();
    let all = handle_get_recipes_filtered(&catalog, &query, None, None, &flags(&catalog));
    let n = all.len();
    let at = handle_get_recipes_filtered(&catalog, &query, Some(n), None, &flags(&catalog));
    assert_eq!(at.len(), n);
    let past = handle_get_recipes_filtered(&catalog, &query, Some(n + 3), None, &flags(&catalog));
    assert_eq!(past.len(), n);
}

#[test]
fn equal_scores_keep_submission_order() {
    let mut a = response("Soup", "Warm soup", &["Water"]);
    a.id = "AAAAAAAAAAA".to_string();
    let mut b = response("Soup", "Warm soup", &["Water"]);
    b.id = "BBBBBBBBBBB".to_string();
    let query = "soup".to_string();
    let out = fuzzy_sort_recipes(vec![a, b], &query);
    let ids: Vec<String> = out.into_iter().map(|r| r.id).collect();
    assert_eq!(ids, vec!["AAAAAAAAAAA".to_string(), "BBBBBBBBBBB".to_string()]);
}

#[test]
fn equal_scores_keep_creation_order_through_search() {
    let mut catalog = Catalog::new();
    let mut created: Vec<String> = Vec::new();
    for _ in 0..3 {
        let uid = generate_uid();
        created.push(uid.clone());
        handle_create_recipe(&mut catalog, body("Soup", "Warm soup", &["Water"]), uid).unwrap();
    }
    let query = "soup".to_string();
    let out = handle_get_recipes_filtered(&catalog, &query, None, None, &flags(&catalog));
    let ids: Vec<String> = out.into_iter().map(|r| r.id).collect();
    assert_eq!(ids, created);
}

#[test]
fn repeated_searches_return_the_same_array() {
    let catalog = filled_catalog();
    let query = "soup".to_string();
    let once = handle_get_recipes_filtered(&catalog, &query, None, None, &flags(&catalog));
    let twice = handle_get_recipes_filtered(&catalog, &query, None, None, &flags(&catalog));
    let ids1: Vec<String> = once.into_iter().map(|r| r.id).collect();
    let ids2: Vec<String> = twice.into_iter().map(|r| r.id).collect();
    assert_eq!(ids1, ids2);
}

#[test]
fn paginate_cuts_offset_then_limit() {
    let items: Vec<ResponseRecipe> = (0..5)
        .map(|i| response(&format!("R{}", i), "d", &[]))
        .collect();
    let out = paginate(items, Some(2), Some(2));
    let titles: Vec<String> = out.into_iter().map(|r| r.title).collect();
    assert_eq!(titles, vec!["R2".to_string(), "R3".to_string()]);
}
