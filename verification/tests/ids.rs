use recipe_catalog::ids::generate_uid;
use recipe_catalog::Recipe;

fn is_url_safe(c: char) -> bool {
    c.is_ascii_alphanumeric() || c == '-' || c == '_'
}

#[test]
fn uid_is_eleven_url_safe_chars() {
    for _ in 0..32 {
        let uid = generate_uid();
        assert_eq!(uid.len(), 11);
        assert!(uid.chars().all(is_url_safe));
    }
}

#[test]
fn uid_decodes_to_exactly_eight_bytes() {
    let uid = generate_uid();
    let bytes = base64::Engine::decode(&base64::engine::general_purpose::URL_SAFE_NO_PAD, &uid)
        .expect("a generated id must be valid URL-safe base64");
    assert_eq!(bytes.len(), 8);
}

#[test]
fn uids_are_distinct_in_practice() {
    let a = generate_uid();
    let b = generate_uid();
    assert_ne!(a, b);
}

#[test]
fn recipe_new_carries_fields_and_fresh_id() {
    let cost = 5.5f32.to_bits();
    let r = Recipe::new("Soup", "Warm soup", 4, 30, cost);
    assert_eq!(r.title, "Soup");
    assert_eq!(r.description, "Warm soup");
    assert_eq!(r.rating, 4);
    assert_eq!(r.time, 30);
    assert_eq!(f32::from_bits(r.cost_bits), 5.5);
    assert_eq!(r.id.len(), 11);
    assert!(r.id.chars().all(is_url_safe));
}
