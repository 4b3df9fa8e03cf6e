use base64::Engine;
use recipe_catalog::ids::generate_uid;
use recipe_catalog::handlers::handle_create_recipe;
use recipe_catalog::handlers::prepare_create;
use recipe_catalog::images::image_file_name;
use recipe_catalog::images::prepare_image;
use recipe_catalog::model::ClientImageError;
use recipe_catalog::model::CreateRecipeBody;
use recipe_catalog::store::Catalog;

fn tiny_png_base64() -> String {
    let img = image::DynamicImage::ImageRgb8(image::RgbImage::from_pixel(
        2,
        2,
        image::Rgb([200u8, 40u8, 40u8]),
    ));
    let mut buf = std::io::Cursor::new(Vec::new());
    img.write_to(&mut buf, image::ImageFormat::Png).unwrap();
    base64::engine::general_purpose::STANDARD.encode(buf.into_inner())
}

#[test]
fn malformed_base64_is_invalid_encoding() {
    let payload = "!!!not base64!!!".to_string();
    assert_eq!(prepare_image(&payload), Err(ClientImageError::InvalidBase64));
}

#[test]
fn undecodable_bytes_are_invalid_format() {
    let payload = base64::engine::general_purpose::STANDARD.encode(b"plainly not an image");
    assert_eq!(prepare_image(&payload), Err(ClientImageError::InvalidFormat));
}

#[test]
fn valid_payload_becomes_jpeg_bytes() {
    let payload = tiny_png_base64();
    let jpeg = prepare_image(&payload).expect("a PNG payload must normalize");
    assert!(!jpeg.is_empty());
    let back = image::load_from_memory(&jpeg).expect("normalized bytes must decode");
    assert_eq!(image::guess_format(&jpeg).unwrap(), image::ImageFormat::Jpeg);
    drop(back);
}

#[test]
fn create_with_invalid_image_persists_nothing() {
    // The caller aborts with a client error when the payload is rejected,
    // before any row is written.
    let mut catalog = Catalog::new();
    let body = CreateRecipeBody {
        title: "Soup".to_string(),
        description: "Warm soup".to_string(),
        rating: 4,
        time: 30,
        cost_bits: 5.5f32.to_bits(),
        ingredients: vec!["Water".to_string()],
        image_blob: Some("%%%broken%%%".to_string()),
    };
    let uid = generate_uid();
    let prepared = prepare_create(&body);
    assert_eq!(prepared, Err(ClientImageError::InvalidBase64));
    if prepared.is_ok() {
        handle_create_recipe(&mut catalog, body, uid).unwrap();
    }
    assert_eq!(catalog.recipes.len(), 0);
    assert_eq!(catalog.ingredients.len(), 0);
}

#[test]
fn create_without_payload_asks_for_no_asset() {
    let body = CreateRecipeBody {
        title: "Tea".to_string(),
        description: "Hot".to_string(),
        rating: 2,
        time: 3,
        cost_bits: 0.5f32.to_bits(),
        ingredients: Vec::new(),
        image_blob: None,
    };
    assert_eq!(prepare_create(&body), Ok(None));
}

#[test]
fn asset_name_is_id_dot_jpeg() {
    let id = "abcdEFGH12x".to_string();
    assert_eq!(image_file_name(&id), "abcdEFGH12x.jpeg");
}
