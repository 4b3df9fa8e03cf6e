//! The image asset pipeline: a base64 payload is decoded, the bytes are
//! decoded as an image, and the image is re-encoded as normalized JPEG
//! bytes. Writing the bytes under the asset directory — and checking a
//! file's existence on read — is disk work and stays with the caller; an
//! asset's file name is the recipe id with a `.jpeg` suffix.
//!
//! Base64 decoding is a pure function of the text and is modelled by
//! name. Image decoding is not: the image crate consults process-global,
//! runtime-extendable hook registries when sniffing and decoding, so two
//! calls on equal bytes may differ. Nothing is therefore assumed of when
//! decoding succeeds; the pipeline states instead what it answers for
//! every outcome the image calls can give.

use vstd::prelude::*;
use vstd::string::StringExecFns;
use crate::model::ClientImageError;

verus! {

/// What the standard, padded base64 alphabet decodes a text to; `None`
/// when the text is not canonical base64.
pub uninterp spec fn b64_decode_of(s: Seq<char>) -> Option<Seq<u8>>;

/// Relies on base64's `Engine::decode` with the `STANDARD` engine: the
/// result is a function of the input text alone.
#[verifier::external_body]
fn b64_decode(s: &String) -> (r: Option<Vec<u8>>)
    ensures
        r.is_some() <==> b64_decode_of(s@).is_some(),
        r.is_some() ==> r.unwrap()@ == b64_decode_of(s@).unwrap(),
{
    base64::Engine::decode(&base64::engine::general_purpose::STANDARD, s.as_str()).ok()
}

#[verifier::external_type_specification]
#[verifier::external_body]
pub struct ExDynamicImage(image::DynamicImage);

/// Relies on image's `ImageReader`: the format is sniffed from an
/// in-memory cursor with `with_guessed_format` and the bytes are decoded
/// with `decode`. Both consult the crate's process-global hook
/// registries, which callers elsewhere may extend at any time, so
/// nothing is assumed of when this succeeds.
#[verifier::external_body]
fn decode_image(bytes: &Vec<u8>) -> (r: Option<image::DynamicImage>) {
    image::ImageReader::new(std::io::Cursor::new(bytes.as_slice()))
        .with_guessed_format()
        .ok()?
        .decode()
        .ok()
}

/// Relies on image's `DynamicImage::write_to` with `ImageFormat::Jpeg`
/// into an in-memory buffer: a successful encode has written at least
/// the JPEG start-of-image marker, so the bytes are never empty. Nothing
/// more is assumed of them, nor of when encoding fails.
#[verifier::external_body]
fn encode_jpeg(img: &image::DynamicImage) -> (r: Option<Vec<u8>>)
    ensures
        r.is_some() ==> r.unwrap()@.len() > 0,
{
    let mut buf = std::io::Cursor::new(Vec::new());
    img.write_to(&mut buf, image::ImageFormat::Jpeg).ok()?;
    Some(buf.into_inner())
}

/// What the pipeline answers for each outcome of the re-encoding step:
/// bytes pass through whole; a refusal is the asset store's write
/// failure.
pub fn encoded_to_result(encoded: Option<Vec<u8>>) -> (r: Result<Vec<u8>, ClientImageError>)
    ensures
        encoded.is_some() ==> r.is_ok() && r.unwrap()@ == encoded.unwrap()@,
        encoded.is_none() ==> r == Err::<Vec<u8>, ClientImageError>(ClientImageError::IoError),
{
    match encoded {
        Some(bytes) => Ok(bytes),
        None => Err(ClientImageError::IoError),
    }
}

/// Decodes a base64 image payload and re-encodes the image it holds as
/// normalized JPEG bytes for the caller to persist.
///
/// Malformed base64 is `InvalidBase64`, exactly; bytes the installed
/// decoders refuse are `InvalidFormat`; a decoded image whose re-encode
/// fails is `IoError`; otherwise the JPEG bytes come back whole, and
/// they are never empty. Which of the last three happens rests with the
/// image crate's hook-dependent calls.
pub fn prepare_image(payload: &String) -> (r: Result<Vec<u8>, ClientImageError>)
    ensures
        r == Err::<Vec<u8>, ClientImageError>(ClientImageError::InvalidBase64) <==> b64_decode_of(
            payload@,
        ).is_none(),
        r == Err::<Vec<u8>, ClientImageError>(ClientImageError::InvalidFormat) ==> b64_decode_of(
            payload@,
        ).is_some(),
        r == Err::<Vec<u8>, ClientImageError>(ClientImageError::IoError) ==> b64_decode_of(
            payload@,
        ).is_some(),
        r.is_ok() ==> b64_decode_of(payload@).is_some() && r.unwrap()@.len() > 0,
{
    let bytes = match b64_decode(payload) {
        Some(b) => b,
        None => {
            return Err(ClientImageError::InvalidBase64);
        },
    };
    let img = match decode_image(&bytes) {
        Some(i) => i,
        None => {
            return Err(ClientImageError::InvalidFormat);
        },
    };
    encoded_to_result(encode_jpeg(&img))
}

/// The file name an asset for this recipe id is stored under: the id with
/// a `.jpeg` suffix.
pub fn image_file_name(id: &String) -> (r: String)
    ensures
        r@ == id@ + ".jpeg"@,
{
    id.clone().concat(".jpeg")
}

} // verus!
