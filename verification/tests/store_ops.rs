use recipe_catalog::ids::generate_uid;
use recipe_catalog::handlers::handle_create_recipe;
use recipe_catalog::handlers::handle_get_recipe_by_id;
use recipe_catalog::model::CreateRecipeBody;
use recipe_catalog::model::NewIngredient;
use recipe_catalog::model::StoreError;
use recipe_catalog::Recipe;
use recipe_catalog::store::Catalog;

fn soup_body() -> CreateRecipeBody {
    CreateRecipeBody {
        title: "Soup".to_string(),
        description: "Warm soup".to_string(),
        rating: 4,
        time: 30,
        cost_bits: 5.5f32.to_bits(),
        ingredients: vec!["Water".to_string(), "Salt".to_string()],
        image_blob: None,
    }
}

#[test]
fn create_then_get_returns_submitted_fields() {
    let mut catalog = Catalog::new();
    let uid = generate_uid();
    let res = handle_create_recipe(&mut catalog, soup_body(), uid.clone());
    assert_eq!(res, Ok(()));

    let resp = handle_get_recipe_by_id(&catalog, &uid, false).expect("created recipe must be readable");
    assert_eq!(resp.id, uid);
    assert_eq!(resp.title, "Soup");
    assert_eq!(resp.description, "Warm soup");
    assert_eq!(resp.rating, 4);
    assert_eq!(resp.time, 30);
    assert_eq!(f32::from_bits(resp.cost_bits), 5.5);
    assert_eq!(resp.ingredients, vec!["Water".to_string(), "Salt".to_string()]);
    assert_eq!(resp.image, None);
}

#[test]
fn get_unknown_id_is_absent() {
    let catalog = Catalog::new();
    let missing = "AAAAAAAAAAA".to_string();
    assert!(handle_get_recipe_by_id(&catalog, &missing, false).is_none());
}

#[test]
fn get_reports_asset_file_name_when_present() {
    let mut catalog = Catalog::new();
    let uid = generate_uid();
    handle_create_recipe(&mut catalog, soup_body(), uid.clone()).unwrap();
    let resp = handle_get_recipe_by_id(&catalog, &uid, true).unwrap();
    assert_eq!(resp.image, Some(format!("{}.jpeg", uid)));
}

#[test]
fn duplicate_id_is_rejected_and_first_row_kept() {
    let mut catalog = Catalog::new();
    let uid = generate_uid();
    assert_eq!(handle_create_recipe(&mut catalog, soup_body(), uid.clone()), Ok(()));

    let mut other = soup_body();
    other.title = "Stew".to_string();
    let res = handle_create_recipe(&mut catalog, other, uid.clone());
    assert_eq!(res, Err(StoreError::DuplicateId));

    let resp = handle_get_recipe_by_id(&catalog, &uid, false).unwrap();
    assert_eq!(resp.title, "Soup");
    assert_eq!(catalog.recipes.len(), 1);
    assert_eq!(catalog.ingredients.len(), 2);
}

#[test]
fn ingredients_referencing_no_recipe_are_rejected_whole() {
    let mut catalog = Catalog::new();
    let items = vec![NewIngredient {
        recipe_id: "AAAAAAAAAAA".to_string(),
        title: "Ghostless pepper".to_string(),
    }];
    let res = catalog.insert_ingredients(items);
    assert_eq!(res, Err(StoreError::MissingRecipe));
    assert_eq!(catalog.ingredients.len(), 0);
}

#[test]
fn ingredient_row_ids_increase_across_creates() {
    let mut catalog = Catalog::new();
    let uid1 = generate_uid();
    let uid2 = generate_uid();
    handle_create_recipe(&mut catalog, soup_body(), uid1).unwrap();
    let mut second = soup_body();
    second.ingredients.push("Leek".to_string());
    handle_create_recipe(&mut catalog, second, uid2).unwrap();
    let ids: Vec<i32> = catalog.ingredients.iter().map(|g| g.id).collect();
    assert_eq!(ids, vec![1, 2, 3, 4, 5]);
}

#[test]
fn fetch_all_groups_ingredients_per_recipe() {
    let mut catalog = Catalog::new();
    let uid1 = generate_uid();
    let uid2 = generate_uid();
    handle_create_recipe(&mut catalog, soup_body(), uid1.clone()).unwrap();
    let mut bare = soup_body();
    bare.title = "Water only".to_string();
    bare.ingredients = Vec::new();
    handle_create_recipe(&mut catalog, bare, uid2.clone()).unwrap();

    let all = catalog.fetch_all_recipes_with_ingredients();
    assert_eq!(all.len(), 2);
    assert_eq!(all[0].0.id, uid1);
    let titles: Vec<String> = all[0].1.iter().map(|g| g.title.clone()).collect();
    assert_eq!(titles, vec!["Water".to_string(), "Salt".to_string()]);
    assert_eq!(all[1].0.id, uid2);
    assert!(all[1].1.is_empty());
}

#[test]
fn serialized_concurrent_creates_stay_retrievable() {
    let mut catalog = Catalog::new();
    let uid1 = generate_uid();
    let uid2 = generate_uid();
    assert_ne!(uid1, uid2);
    assert_eq!(handle_create_recipe(&mut catalog, soup_body(), uid1.clone()), Ok(()));
    let mut second = soup_body();
    second.title = "Stew".to_string();
    assert_eq!(handle_create_recipe(&mut catalog, second, uid2.clone()), Ok(()));

    let first = handle_get_recipe_by_id(&catalog, &uid1, false).unwrap();
    assert_eq!(first.title, "Soup");
    let other = handle_get_recipe_by_id(&catalog, &uid2, false).unwrap();
    assert_eq!(other.title, "Stew");
}

#[test]
fn exhausted_id_space_rejects_the_batch() {
    let mut catalog = Catalog::new();
    let uid = generate_uid();
    let mut body = soup_body();
    body.ingredients = Vec::new();
    handle_create_recipe(&mut catalog, body, uid.clone()).unwrap();
    catalog.next_ingredient_id = i32::MAX;
    let items = vec![
        NewIngredient { recipe_id: uid.clone(), title: "Salt".to_string() },
        NewIngredient { recipe_id: uid, title: "Pepper".to_string() },
    ];
    assert_eq!(catalog.insert_ingredients(items), Err(StoreError::Full));
    assert_eq!(catalog.ingredients.len(), 0);
}

#[test]
fn insert_recipe_direct_keeps_rows() {
    let mut catalog = Catalog::new();
    let row = Recipe {
        id: "AAAAAAAAAAA".to_string(),
        title: "Toast".to_string(),
        description: "Bread, warmed".to_string(),
        rating: 5,
        time: 5,
        cost_bits: 1.0f32.to_bits(),
    };
    assert_eq!(catalog.insert_recipe(row), Ok(()));
    let key = "AAAAAAAAAAA".to_string();
    let back = catalog.fetch_recipe_by_id(&key).unwrap();
    assert_eq!(back.title, "Toast");
    assert!(catalog.fetch_ingredients_for_recipe(&key).is_empty());
}
