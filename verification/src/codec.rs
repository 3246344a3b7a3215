//! Byte-level codecs around sample images: data URLs, Base64, PNG decoding and
//! SHA-256 fingerprints. The decoding itself is done by the `base64`, `image` and
//! `sha2` crates; the limits, checks and error texts are this library's.

use vstd::prelude::*;

use base64::Engine as _;
use sha2::Digest as _;

use vstd::string::StringSliceAdditionalSpecFns;

use crate::text::push_char;

verus! {

// ---------------------------------------------------------------- outside crates

/// The `base64` crate's decoding error.
#[verifier::external_type_specification]
#[verifier::external_body]
pub struct ExDecodeError(base64::DecodeError);

/// The `image` crate's error.
#[verifier::external_type_specification]
#[verifier::external_body]
pub struct ExImageError(image::ImageError);

/// The standard Base64 text of the given bytes, as ASCII bytes.
pub open spec fn base64_text(bytes: Seq<u8>) -> Seq<u8> {
    base64_encoded(bytes).map_values(|c: char| c as u8)
}

/// What `base64`'s standard engine decodes from the given bytes. It accepts exactly the canonical
/// padded encodings (a length that is a multiple of four, `=` only as final padding, no set
/// trailing bits), so the result is the bytes whose Base64 text the input is (there is at most
/// one), and `None` when there is none.
pub open spec fn base64_decoded(input: Seq<u8>) -> Option<Seq<u8>> {
    if exists|b: Seq<u8>| #[trigger] base64_text(b) == input {
        Some(choose|b: Seq<u8>| #[trigger] base64_text(b) == input)
    } else {
        None
    }
}

/// The character for a 6-bit value in the standard Base64 alphabet (`A-Z`, `a-z`, `0-9`, `+`, `/`).
pub open spec fn base64_digit(v: int) -> char {
    if v < 26 {
        (65 + v) as char
    } else if v < 52 {
        (71 + v) as char
    } else if v < 62 {
        (v - 4) as char
    } else if v == 62 {
        '+'
    } else {
        '/'
    }
}

/// The standard Base64 text of the given bytes: every three bytes become four characters of six
/// bits each, and a last group of one or two bytes is padded with `=` to four characters.
pub open spec fn base64_encoded(bytes: Seq<u8>) -> Seq<char>
    decreases bytes.len(),
{
    let b0 = bytes[0] as int;
    let b1 = bytes[1] as int;
    let b2 = bytes[2] as int;
    if bytes.len() == 0 {
        Seq::empty()
    } else if bytes.len() == 1 {
        seq![base64_digit(b0 / 4), base64_digit((b0 % 4) * 16), '=', '=']
    } else if bytes.len() == 2 {
        seq![base64_digit(b0 / 4), base64_digit((b0 % 4) * 16 + b1 / 16), base64_digit((b1 % 16) * 4), '=']
    } else {
        seq![
            base64_digit(b0 / 4),
            base64_digit((b0 % 4) * 16 + b1 / 16),
            base64_digit((b1 % 16) * 4 + b2 / 64),
            base64_digit(b2 % 64),
        ] + base64_encoded(bytes.skip(3))
    }
}

/// What `image` decodes from PNG bytes: the RGBA8 pixels, width and height; `None` when decoding fails.
pub uninterp spec fn png_decoded(bytes: Seq<u8>) -> Option<(Seq<u8>, u32, u32)>;

/// The PNG file that `image`'s PNG encoder writes for an RGBA8 image of the given size, or
/// `None` when the encoder refuses the image.
pub uninterp spec fn png_encoded(rgba: Seq<u8>, width: u32, height: u32) -> Option<Seq<u8>>;

/// The SHA-256 digest of the given bytes.
pub uninterp spec fn sha256_digest(bytes: Seq<u8>) -> Seq<u8>;

/// `base64::engine::general_purpose::STANDARD.decode`: the decoded bytes, or the crate's error.
/// Claims that it succeeds exactly on the canonical padded Base64 texts and then gives back the
/// bytes that encode to the input (`base64_decoded`).
#[verifier::external_body]
pub(crate) fn base64_decode(input: &[u8]) -> (res: Result<Vec<u8>, base64::DecodeError>)
    ensures
        res is Ok <==> base64_decoded(input@) is Some,
        res matches Ok(bytes) ==> Some(bytes@) == base64_decoded(input@),
{
    base64::engine::general_purpose::STANDARD.decode(input)
}

/// The display text of a Base64 decoding error (its `Display` impl); nothing is claimed of it.
#[verifier::external_body]
pub(crate) fn decode_error_text(e: &base64::DecodeError) -> String {
    format!("{e}")
}

/// `base64::engine::general_purpose::STANDARD.encode`: the padded Base64 text of the bytes, in
/// the standard alphabet, as RFC 4648 defines it and `base64_encoded` states it.
#[verifier::external_body]
pub(crate) fn base64_encode(bytes: &[u8]) -> (text: String)
    ensures
        text@ == base64_encoded(bytes@),
{
    base64::engine::general_purpose::STANDARD.encode(bytes)
}

/// `image::load_from_memory_with_format(.., ImageFormat::Png)` followed by `to_rgba8`,
/// `dimensions` and `into_raw`: the RGBA8 pixels and the size. The pixel buffer holds exactly
/// `width * height * 4` bytes (the crate allocates the decoder's `total_bytes`, and the RGBA
/// conversion allocates a new `width x height` buffer).
#[verifier::external_body]
fn png_decode_rgba(bytes: &[u8]) -> (res: Result<(Vec<u8>, u32, u32), image::ImageError>)
    ensures
        res is Ok <==> png_decoded(bytes@) is Some,
        res matches Ok(img) ==> png_decoded(bytes@) == Some((img.0@, img.1, img.2)) && img.0@.len() == img.1
            * img.2 * 4,
{
    match image::load_from_memory_with_format(bytes, image::ImageFormat::Png) {
        Ok(image) => {
            let rgba = image.to_rgba8();
            let (width, height) = rgba.dimensions();
            Ok((rgba.into_raw(), width, height))
        },
        Err(error) => Err(error),
    }
}

/// `image::load_from_memory_with_format(.., ImageFormat::Png)` followed by `width` and `height`:
/// the size of the decoded image.
#[verifier::external_body]
fn png_decode_size(bytes: &[u8]) -> (res: Result<(u32, u32), image::ImageError>)
    ensures
        res is Ok <==> png_decoded(bytes@) is Some,
        res matches Ok(size) ==> png_decoded(bytes@) matches Some((_, w, h)) && w == size.0 && h == size.1,
{
    match image::load_from_memory_with_format(bytes, image::ImageFormat::Png) {
        Ok(image) => Ok((image.width(), image.height())),
        Err(error) => Err(error),
    }
}

/// `image::write_buffer_with_format(.., ExtendedColorType::Rgba8, ImageFormat::Png)` into an
/// in-memory buffer: the PNG file for the pixels, or the crate's encoding error. Writing into
/// memory depends on the arguments alone, so success and the bytes are the named result. The
/// encoder panics unless the buffer holds exactly `width * height` RGBA pixels, which `requires`
/// demands.
#[verifier::external_body]
pub(crate) fn png_encode_rgba(rgba: &[u8], width: u32, height: u32) -> (res: Result<Vec<u8>, image::ImageError>)
    requires
        rgba@.len() == width * height * 4,
    ensures
        res is Ok <==> png_encoded(rgba@, width, height) is Some,
        res matches Ok(png) ==> Some(png@) == png_encoded(rgba@, width, height),
{
    let mut png: Vec<u8> = Vec::new();
    let mut cursor = std::io::Cursor::new(&mut png);
    match image::write_buffer_with_format(&mut cursor, rgba, width, height, image::ExtendedColorType::Rgba8, image::ImageFormat::Png) {
        Ok(()) => Ok(png),
        Err(error) => Err(error),
    }
}

/// The display text of an `image` error (its `Display` impl); nothing is claimed of it.
#[verifier::external_body]
pub(crate) fn image_error_text(e: &image::ImageError) -> String {
    format!("{e}")
}

/// `sha2::Sha256::digest`: the 32-byte SHA-256 digest.
#[verifier::external_body]
pub(crate) fn sha256(bytes: &[u8]) -> (digest: Vec<u8>)
    ensures
        digest@ == sha256_digest(bytes@),
        digest@.len() == 32,
{
    sha2::Sha256::digest(bytes).to_vec()
}

// ---------------------------------------------------------------- hex

pub open spec fn hex_digit(d: int) -> char {
    if d < 10 {
        (48 + d) as char
    } else {
        (87 + d) as char
    }
}

/// Lower-case hexadecimal text of bytes, two digits per byte.
pub open spec fn hex_lower_spec(bytes: Seq<u8>) -> Seq<char>
    decreases bytes.len(),
{
    if bytes.len() == 0 {
        Seq::empty()
    } else {
        hex_lower_spec(bytes.drop_last()) + seq![hex_digit((bytes.last() / 16) as int), hex_digit((bytes.last() % 16) as int)]
    }
}

fn hex_char(d: u8) -> (c: char)
    requires
        d < 16,
    ensures
        c == hex_digit(d as int),
{
    if d < 10 {
        (48 + d) as char
    } else {
        (87 + d) as char
    }
}

/// Hexadecimal text has two ASCII digits per byte.
pub proof fn lemma_hex_shape(bytes: Seq<u8>)
    ensures
        hex_lower_spec(bytes).len() == 2 * bytes.len(),
        vstd::utf8::is_ascii_chars(hex_lower_spec(bytes)),
    decreases bytes.len(),
{
    if bytes.len() > 0 {
        lemma_hex_shape(bytes.drop_last());
        let h = hex_lower_spec(bytes);
        assert forall|i: int| 0 <= i < h.len() implies '\0' <= #[trigger] h[i] <= '\u{7f}' by {
            if i >= h.len() - 2 {
                let d = if i == h.len() - 2 {
                    (bytes.last() / 16) as int
                } else {
                    (bytes.last() % 16) as int
                };
                assert(0 <= d < 16);
                assert(h[i] == hex_digit(d));
            } else {
                assert(h[i] == hex_lower_spec(bytes.drop_last())[i]);
            }
        }
    }
}

/// Lower-case hexadecimal text of bytes.
pub fn hex_lower(bytes: &[u8]) -> (text: String)
    ensures
        text@ == hex_lower_spec(bytes@),
{
    let mut s = String::new();
    let mut i: usize = 0;
    while i < bytes.len()
        invariant
            i <= bytes@.len(),
            s@ == hex_lower_spec(bytes@.take(i as int)),
        decreases bytes@.len() - i,
    {
        proof {
            assert(bytes@.take(i + 1).drop_last() =~= bytes@.take(i as int));
        }
        let b = bytes[i];
        push_char(&mut s, hex_char(b / 16));
        push_char(&mut s, hex_char(b % 16));
        proof {
            assert(s@ =~= hex_lower_spec(bytes@.take(i + 1)));
        }
        i = i + 1;
    }
    proof {
        assert(bytes@.take(bytes@.len() as int) =~= bytes@);
    }
    s
}

/// The lower-case hexadecimal SHA-256 fingerprint of bytes.
pub fn sha256_hex(bytes: &[u8]) -> (text: String)
    ensures
        text@ == hex_lower_spec(sha256_digest(bytes@)),
{
    let digest = sha256(bytes);
    hex_lower(digest.as_slice())
}

// ---------------------------------------------------------------- case-insensitive comparison

pub open spec fn ascii_lower(c: char) -> char {
    if 'A' <= c <= 'Z' {
        ((c as int) + 32) as char
    } else {
        c
    }
}

/// Equal up to ASCII case.
pub open spec fn eq_ignore_ascii_case_spec(a: Seq<char>, b: Seq<char>) -> bool {
    a.len() == b.len() && forall|i: int| 0 <= i < a.len() ==> ascii_lower(#[trigger] a[i]) == ascii_lower(b[i])
}

fn lower_char(c: char) -> (r: char)
    ensures
        r == ascii_lower(c),
{
    if 'A' <= c && c <= 'Z' {
        ((c as u8) + 32) as char
    } else {
        c
    }
}

/// Whether two texts are equal up to ASCII case.
pub fn eq_ignore_ascii_case(a: &str, b: &str) -> (same: bool)
    ensures
        same == eq_ignore_ascii_case_spec(a@, b@),
{
    let n = a.unicode_len();
    if n != b.unicode_len() {
        return false;
    }
    let mut i: usize = 0;
    while i < n
        invariant
            n == a@.len(),
            n == b@.len(),
            i <= n,
            forall|k: int| 0 <= k < i ==> ascii_lower(#[trigger] a@[k]) == ascii_lower(b@[k]),
        decreases n - i,
    {
        if lower_char(a.get_char(i)) != lower_char(b.get_char(i)) {
            return false;
        }
        i = i + 1;
    }
    true
}


// ---------------------------------------------------------------- PNG payloads

/// The eight-byte PNG file signature.
pub open spec fn png_signature() -> Seq<u8> {
    seq![0x89u8, 0x50u8, 0x4eu8, 0x47u8, 0x0du8, 0x0au8, 0x1au8, 0x0au8]
}

/// The bytes of "data:image/png;base64,".
pub open spec fn data_url_prefix() -> Seq<u8> {
    seq![
        100u8, 97u8, 116u8, 97u8, 58u8, 105u8, 109u8, 97u8, 103u8, 101u8, 47u8, 112u8, 110u8, 103u8,
        59u8, 98u8, 97u8, 115u8, 101u8, 54u8, 52u8, 44u8,
    ]
}

pub open spec fn starts_with(s: Seq<u8>, prefix: Seq<u8>) -> bool {
    prefix.len() <= s.len() && s.take(prefix.len() as int) == prefix
}

/// The Base64 part of a PNG data URL; the whole text when it has no data-URL prefix.
pub open spec fn data_url_payload(url: Seq<u8>) -> Seq<u8> {
    if starts_with(url, data_url_prefix()) {
        url.skip(data_url_prefix().len() as int)
    } else {
        url
    }
}

/// Largest accepted encoded image (24 MiB).
pub open spec fn max_encoded_bytes() -> int {
    25165824
}

/// Largest accepted image (100 megapixels).
pub open spec fn max_pixels() -> int {
    100_000_000
}

fn pixel_count(width: u32, height: u32) -> (n: u64)
    ensures
        n == width * height,
{
    assert(width as u64 * height as u64 <= 0xffff_fffe_0000_0001u64) by (nonlinear_arith)
        requires
            width <= 0xffff_ffffu32,
            height <= 0xffff_ffffu32,
    ;
    width as u64 * height as u64
}

fn has_prefix(s: &[u8], prefix: &[u8]) -> (yes: bool)
    ensures
        yes == starts_with(s@, prefix@),
{
    if prefix.len() > s.len() {
        return false;
    }
    let mut i: usize = 0;
    while i < prefix.len()
        invariant
            prefix@.len() <= s@.len(),
            i <= prefix@.len(),
            forall|k: int| 0 <= k < i ==> s@[k] == prefix@[k],
        decreases prefix@.len() - i,
    {
        if s[i] != prefix[i] {
            return false;
        }
        i = i + 1;
    }
    assert(s@.take(prefix@.len() as int) =~= prefix@);
    true
}

fn png_signature_bytes() -> (sig: [u8; 8])
    ensures
        sig@ == png_signature(),
{
    let sig = [0x89u8, 0x50u8, 0x4eu8, 0x47u8, 0x0du8, 0x0au8, 0x1au8, 0x0au8];
    assert(sig@ =~= png_signature());
    sig
}

fn data_url_prefix_bytes() -> (p: [u8; 22])
    ensures
        p@ == data_url_prefix(),
{
    let p = [
        100u8, 97u8, 116u8, 97u8, 58u8, 105u8, 109u8, 97u8, 103u8, 101u8, 47u8, 112u8, 110u8, 103u8,
        59u8, 98u8, 97u8, 115u8, 101u8, 54u8, 52u8, 44u8,
    ];
    assert(p@ =~= data_url_prefix());
    p
}

/// The Base64 part of a PNG data URL, or `None` when the text lacks the data-URL prefix.
pub fn strip_data_url_prefix(url: &str) -> (payload: Option<&[u8]>)
    ensures
        payload is Some <==> starts_with(url.spec_bytes(), data_url_prefix()),
        payload matches Some(p) ==> p@ == url.spec_bytes().skip(22),
{
    let bytes = url.as_bytes();
    let prefix = data_url_prefix_bytes();
    if has_prefix(bytes, prefix.as_slice()) {
        Some(&bytes[22..bytes.len()])
    } else {
        None
    }
}

/// Whether the bytes begin with the PNG signature.
pub fn is_png(bytes: &[u8]) -> (yes: bool)
    ensures
        yes == starts_with(bytes@, png_signature()),
{
    let sig = png_signature_bytes();
    has_prefix(bytes, sig.as_slice())
}

/// The Base64 part of a PNG data URL (the whole text when the prefix is missing).
pub fn data_url_payload_bytes(url: &str) -> (payload: &[u8])
    ensures
        payload@ == data_url_payload(url.spec_bytes()),
{
    let bytes = url.as_bytes();
    let prefix = data_url_prefix_bytes();
    if has_prefix(bytes, prefix.as_slice()) {
        &bytes[22..bytes.len()]
    } else {
        bytes
    }
}

/// The pixel count of a decoded image (0 when decoding failed).
pub open spec fn png_area_of(image: Option<(Seq<u8>, u32, u32)>) -> int {
    match image {
        Some((_, w, h)) => w * h,
        None => 0,
    }
}

/// The size of a decoded image.
pub open spec fn png_size_of(image: Option<(Seq<u8>, u32, u32)>) -> (u32, u32) {
    match image {
        Some((_, w, h)) => (w, h),
        None => (0, 0),
    }
}

/// The pixels of a decoded PNG, as `decode_png` returns them.
pub open spec fn decoded_image(bytes: Seq<u8>, img: (Vec<u8>, u32, u32)) -> bool {
    png_decoded(bytes) == Some((img.0@, img.1, img.2)) && img.0@.len() == img.1 * img.2 * 4
}

/// `text` is `head` followed by some outside error text.
pub open spec fn begins_with(text: Seq<char>, head: Seq<char>) -> bool {
    head.len() <= text.len() && text.take(head.len() as int) == head
}

pub(crate) fn concat_error(head: &str, tail: String) -> (text: String)
    ensures
        begins_with(text@, head@),
{
    let mut s = String::from_str(head);
    s.append(tail.as_str());
    assert(s@.take(head@.len() as int) =~= head@);
    s
}

/// The image that a PNG data URL decodes to within the limits, if any.
pub open spec fn png_url_image(url: Seq<u8>) -> Option<(Seq<u8>, u32, u32)> {
    let decoded = base64_decoded(data_url_payload(url));
    let image = png_decoded(decoded->0);
    if url.len() <= max_encoded_bytes() && decoded is Some && starts_with(decoded->0, png_signature())
        && image is Some && png_area_of(image) <= max_pixels() {
        image
    } else {
        None
    }
}

/// Decodes a PNG data URL (or bare Base64) into RGBA8 pixels, within the size limits.
pub fn decode_png(png_data_url: &str) -> (res: Result<(Vec<u8>, u32, u32), String>)
    ensures
        ({
            let url = png_data_url.spec_bytes();
            let decoded = base64_decoded(data_url_payload(url));
            let image = png_decoded(decoded->0);
            &&& res is Ok <==> {
                &&& url.len() <= max_encoded_bytes()
                &&& decoded is Some
                &&& starts_with(decoded->0, png_signature())
                &&& image is Some
                &&& png_area_of(image) <= max_pixels()
            }
            &&& res matches Ok(img) ==> decoded_image(decoded->0, img)
            &&& res is Ok <==> png_url_image(url) is Some
            &&& res matches Ok(img) ==> png_url_image(url) == Some((img.0@, img.1, img.2))
            &&& res matches Err(text) ==> if url.len() > max_encoded_bytes() {
                text@ == "E3101: 回放图像超过 24 MiB 编码上限"@
            } else if decoded is None {
                begins_with(text@, "E3102: 回放图像 Base64 无效："@)
            } else if !starts_with(decoded->0, png_signature()) {
                text@ == "E3103: 回放图像不是 PNG"@
            } else if image is None {
                begins_with(text@, "E3104: 无法解码回放 PNG："@)
            } else {
                text@ == "E3105: 回放图像像素数量超过安全上限"@
            }
        }),
{
    if png_data_url.as_bytes().len() > 24 * 1024 * 1024 {
        return Err(String::from_str("E3101: 回放图像超过 24 MiB 编码上限"));
    }
    let payload = data_url_payload_bytes(png_data_url);
    let bytes = match base64_decode(payload) {
        Ok(bytes) => bytes,
        Err(error) => {
            return Err(concat_error("E3102: 回放图像 Base64 无效：", decode_error_text(&error)));
        },
    };
    if !is_png(bytes.as_slice()) {
        return Err(String::from_str("E3103: 回放图像不是 PNG"));
    }
    let (pixels, width, height) = match png_decode_rgba(bytes.as_slice()) {
        Ok(img) => img,
        Err(error) => {
            return Err(concat_error("E3104: 无法解码回放 PNG：", image_error_text(&error)));
        },
    };
    if pixel_count(width, height) > 100_000_000 {
        return Err(String::from_str("E3105: 回放图像像素数量超过安全上限"));
    }
    Ok((pixels, width, height))
}

/// Decodes PNG bytes for the command-line runner, within the size limits.
pub fn load_png_bytes(bytes: &[u8]) -> (res: Result<(Vec<u8>, u32, u32), String>)
    ensures
        ({
            let image = png_decoded(bytes@);
            &&& res is Ok <==> bytes@.len() <= max_encoded_bytes() && image is Some && png_area_of(image) <= max_pixels()
            &&& res matches Ok(img) ==> decoded_image(bytes@, img)
            &&& res matches Err(text) ==> if bytes@.len() > max_encoded_bytes() {
                text@ == "PNG exceeds the 24 MiB safety limit"@
            } else if image is None {
                begins_with(text@, "cannot decode PNG: "@)
            } else {
                text@ == "PNG exceeds the 100 megapixel safety limit"@
            }
        }),
{
    if bytes.len() > 24 * 1024 * 1024 {
        return Err(String::from_str("PNG exceeds the 24 MiB safety limit"));
    }
    let (pixels, width, height) = match png_decode_rgba(bytes) {
        Ok(img) => img,
        Err(error) => {
            return Err(concat_error("cannot decode PNG: ", image_error_text(&error)));
        },
    };
    if pixel_count(width, height) > 100_000_000 {
        return Err(String::from_str("PNG exceeds the 100 megapixel safety limit"));
    }
    Ok((pixels, width, height))
}

/// Decodes an embedded replay sample, which must be a PNG data URL.
pub fn load_embedded_png(png_data_url: &str) -> (res: Result<(Vec<u8>, u32, u32), String>)
    ensures
        ({
            let url = png_data_url.spec_bytes();
            let decoded = base64_decoded(url.skip(data_url_prefix().len() as int));
            &&& !starts_with(url, data_url_prefix()) ==> (res matches Err(text) && text@
                == "embedded sample is not a PNG data URL"@)
            &&& starts_with(url, data_url_prefix()) && decoded is None ==> (res matches Err(text) && begins_with(
                text@,
                "invalid embedded PNG base64: "@,
            ))
            &&& starts_with(url, data_url_prefix()) && decoded is Some ==> {
                let image = png_decoded(decoded->0);
                &&& res is Ok <==> decoded->0.len() <= max_encoded_bytes() && image is Some && png_area_of(image) <= max_pixels()
                &&& res matches Ok(img) ==> decoded_image(decoded->0, img)
            }
        }),
{
    let bytes = png_data_url.as_bytes();
    let prefix = data_url_prefix_bytes();
    if !has_prefix(bytes, prefix.as_slice()) {
        return Err(String::from_str("embedded sample is not a PNG data URL"));
    }
    let payload = &bytes[22..bytes.len()];
    let decoded = match base64_decode(payload) {
        Ok(decoded) => decoded,
        Err(error) => {
            return Err(concat_error("invalid embedded PNG base64: ", decode_error_text(&error)));
        },
    };
    load_png_bytes(decoded.as_slice())
}

/// Checks a sample PNG and returns its size and lower-case SHA-256 fingerprint.
pub fn inspect_png(bytes: &[u8]) -> (res: Result<(u32, u32, String), String>)
    ensures
        ({
            let image = png_decoded(bytes@);
            &&& res is Ok <==> starts_with(bytes@, png_signature()) && bytes@.len() <= max_encoded_bytes()
                && image is Some && png_area_of(image) <= max_pixels()
            &&& res matches Ok(info) ==> png_size_of(image) == (info.0, info.1) && info.2@ == hex_lower_spec(
                sha256_digest(bytes@),
            ) && info.2@.len() == 64
            &&& res matches Err(text) ==> if !starts_with(bytes@, png_signature()) {
                text@ == "E4402: 样本不是 PNG 格式"@
            } else if bytes@.len() > max_encoded_bytes() {
                text@ == "E4403: 单张 PNG 超过 24 MiB 上限"@
            } else if image is None {
                begins_with(text@, "E4404: PNG 解码失败："@)
            } else {
                text@ == "E4405: PNG 像素数量超过安全上限"@
            }
        }),
{
    if !is_png(bytes) {
        return Err(String::from_str("E4402: 样本不是 PNG 格式"));
    }
    if bytes.len() > 24 * 1024 * 1024 {
        return Err(String::from_str("E4403: 单张 PNG 超过 24 MiB 上限"));
    }
    let (width, height) = match png_decode_size(bytes) {
        Ok(size) => size,
        Err(error) => {
            return Err(concat_error("E4404: PNG 解码失败：", image_error_text(&error)));
        },
    };
    if pixel_count(width, height) > 100_000_000 {
        return Err(String::from_str("E4405: PNG 像素数量超过安全上限"));
    }
    let digest = sha256(bytes);
    let hash = hex_lower(digest.as_slice());
    proof {
        lemma_hex_shape(digest@);
    }
    Ok((width, height, hash))
}

/// The PNG data URL of encoded PNG bytes.
pub fn png_data_url(png: &[u8]) -> (url: String)
    ensures
        url@ == "data:image/png;base64,"@ + base64_encoded(png@),
{
    let mut s = String::from_str("data:image/png;base64,");
    let encoded = base64_encode(png);
    s.append(encoded.as_str());
    s
}

} // verus!
