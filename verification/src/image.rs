//! Recognising copied images and files that are images, their sizes, and the
//! thumbnails the history list shows.

use vstd::prelude::*;
use std::io::Cursor;
use crate::codec::{b64_encode, spec_b64_encode};
use crate::store::base_name;
use crate::text::{lower_chars, lower_seq, str_chars, string_from_chars, push_all};
use crate::types::Preview;
use crate::clipboard::{opt_bytes_of, opt_chars_of};

verus! {

/// The eight bytes every PNG file starts with.
pub open spec fn png_magic() -> Seq<u8> {
    seq![0x89u8, 0x50, 0x4E, 0x47, 0x0D, 0x0A, 0x1A, 0x0A]
}

/// The big-endian `u32` in `b[i..i + 4]`.
pub open spec fn be_u32(b: Seq<u8>, i: int) -> u32 {
    (b[i] as int * 0x1000000 + b[i + 1] as int * 0x10000 + b[i + 2] as int * 0x100 + b[i
        + 3] as int) as u32
}

/// The width and height a PNG header states.
pub open spec fn png_size(data: Seq<u8>) -> Option<(u32, u32)> {
    if data.len() >= 24 && data.subrange(0, 8) == png_magic() {
        Some((be_u32(data, 16), be_u32(data, 20)))
    } else {
        None
    }
}

fn starts_with_bytes(data: &[u8], magic: &[u8]) -> (r: bool)
    ensures
        r == (data@.len() >= magic@.len() && data@.subrange(0, magic@.len() as int) == magic@),
{
    if data.len() < magic.len() {
        return false;
    }
    let n = magic.len();
    let mut i: usize = 0;
    while i < n
        invariant
            n == magic@.len() <= data@.len(),
            i <= n,
            forall|j: int| 0 <= j < i ==> data@[j] == magic@[j],
        decreases n - i,
    {
        if data[i] != magic[i] {
            assert(data@.subrange(0, n as int)[i as int] != magic@[i as int]);
            return false;
        }
        i = i + 1;
    }
    assert(data@.subrange(0, n as int) =~= magic@);
    true
}

fn read_be_u32(b: &[u8], i: usize) -> (r: u32)
    requires
        i + 4 <= b@.len(),
    ensures
        r == be_u32(b@, i as int),
{
    let v: u32 = (b[i] as u32) * 0x1000000 + (b[i + 1] as u32) * 0x10000 + (b[i + 2] as u32)
        * 0x100 + (b[i + 3] as u32);
    v
}

/// The size a PNG header states, without decoding the image.
pub fn png_dimensions(data: &[u8]) -> (r: Option<(u32, u32)>)
    ensures
        r == png_size(data@),
{
    let magic: [u8; 8] = [0x89u8, 0x50, 0x4E, 0x47, 0x0D, 0x0A, 0x1A, 0x0A];
    assert(magic@ == png_magic());
    if data.len() < 24 || !starts_with_bytes(data, &magic) {
        return None;
    }
    Some((read_be_u32(data, 16), read_be_u32(data, 20)))
}

/// The image type the first bytes announce: PNG, JPEG, GIF, TIFF (either
/// byte order), BMP or WebP.
pub open spec fn sniffed(b: Seq<u8>) -> Option<Seq<char>> {
    if b.len() >= 8 && b.subrange(0, 8) == png_magic() {
        Some("image/png"@)
    } else if b.len() >= 3 && b[0] == 0xFF && b[1] == 0xD8 && b[2] == 0xFF {
        Some("image/jpeg"@)
    } else if b.len() >= 6 && (b.subrange(0, 6) == seq![0x47u8, 0x49, 0x46, 0x38, 0x37, 0x61]
        || b.subrange(0, 6) == seq![0x47u8, 0x49, 0x46, 0x38, 0x39, 0x61]) {
        Some("image/gif"@)
    } else if b.len() >= 4 && ((b[0] == 0x49 && b[1] == 0x49 && b[2] == 0x2A && b[3] == 0x00) || (
    b[0] == 0x4D && b[1] == 0x4D && b[2] == 0x00 && b[3] == 0x2A)) {
        Some("image/tiff"@)
    } else if b.len() >= 2 && b[0] == 0x42 && b[1] == 0x4D {
        Some("image/bmp"@)
    } else if b.len() >= 12 && b.subrange(0, 4) == seq![0x52u8, 0x49, 0x46, 0x46] && b.subrange(8, 12)
        == seq![0x57u8, 0x45, 0x42, 0x50] {
        Some("image/webp"@)
    } else {
        None
    }
}

pub fn sniff_image_mime_opt(bytes: &[u8]) -> (r: Option<&'static str>)
    ensures
        match r {
            Some(m) => sniffed(bytes@) == Some(m@),
            None => sniffed(bytes@) is None,
        },
{
    let png: [u8; 8] = [0x89u8, 0x50, 0x4E, 0x47, 0x0D, 0x0A, 0x1A, 0x0A];
    let gif7: [u8; 6] = [0x47u8, 0x49, 0x46, 0x38, 0x37, 0x61];
    let gif9: [u8; 6] = [0x47u8, 0x49, 0x46, 0x38, 0x39, 0x61];
    let riff: [u8; 4] = [0x52u8, 0x49, 0x46, 0x46];
    let webp: [u8; 4] = [0x57u8, 0x45, 0x42, 0x50];
    assert(png@ == png_magic());
    assert(gif7@ == seq![0x47u8, 0x49, 0x46, 0x38, 0x37, 0x61]);
    assert(gif9@ == seq![0x47u8, 0x49, 0x46, 0x38, 0x39, 0x61]);
    assert(riff@ == seq![0x52u8, 0x49, 0x46, 0x46]);
    assert(webp@ == seq![0x57u8, 0x45, 0x42, 0x50]);
    let n = bytes.len();
    if n >= 8 && starts_with_bytes(bytes, &png) {
        Some("image/png")
    } else if n >= 3 && bytes[0] == 0xFF && bytes[1] == 0xD8 && bytes[2] == 0xFF {
        Some("image/jpeg")
    } else if n >= 6 && (starts_with_bytes(bytes, &gif7) || starts_with_bytes(bytes, &gif9)) {
        Some("image/gif")
    } else if n >= 4 && ((bytes[0] == 0x49 && bytes[1] == 0x49 && bytes[2] == 0x2A && bytes[3]
        == 0x00) || (bytes[0] == 0x4D && bytes[1] == 0x4D && bytes[2] == 0x00 && bytes[3] == 0x2A)) {
        Some("image/tiff")
    } else if n >= 2 && bytes[0] == 0x42 && bytes[1] == 0x4D {
        Some("image/bmp")
    } else if n >= 12 && starts_with_bytes(bytes, &riff) && bytes[8] == 0x57 && bytes[9] == 0x45
        && bytes[10] == 0x42 && bytes[11] == 0x50 {
        assert(bytes@.subrange(8, 12) =~= seq![0x57u8, 0x45, 0x42, 0x50]);
        Some("image/webp")
    } else {
        proof {
            if n >= 12 && bytes@.subrange(0, 4) == seq![0x52u8, 0x49, 0x46, 0x46] && bytes@.subrange(
                8,
                12,
            ) == seq![0x57u8, 0x45, 0x42, 0x50] {
                assert(bytes@.subrange(8, 12)[0] == 0x57);
                assert(bytes@.subrange(8, 12)[1] == 0x45);
                assert(bytes@.subrange(8, 12)[2] == 0x42);
                assert(bytes@.subrange(8, 12)[3] == 0x50);
            }
        }
        None
    }
}

/// The MIME type of image bytes, PNG when they announce none.
pub fn sniff_image_mime(bytes: &[u8]) -> (r: &'static str)
    ensures
        r@ == match sniffed(bytes@) {
            Some(m) => m,
            None => "image/png"@,
        },
{
    match sniff_image_mime_opt(bytes) {
        Some(m) => m,
        None => "image/png",
    }
}

/// Whether the first bytes announce an image of a known type.
pub fn looks_like_image_magic(bytes: &[u8]) -> (r: bool)
    ensures
        r == sniffed(bytes@) is Some,
{
    sniff_image_mime_opt(bytes).is_some()
}

/// The file name an image blob is exposed under, after its type.
pub open spec fn image_name_for(b: Seq<u8>) -> Seq<char> {
    match sniffed(b) {
        Some(m) => if m == "image/jpeg"@ {
            "image.jpg"@
        } else if m == "image/gif"@ {
            "image.gif"@
        } else if m == "image/tiff"@ {
            "image.tiff"@
        } else if m == "image/bmp"@ {
            "image.bmp"@
        } else if m == "image/webp"@ {
            "image.webp"@
        } else {
            "image.png"@
        },
        None => "image.png"@,
    }
}

pub fn image_blob_name(bytes: &[u8]) -> (r: &'static str)
    ensures
        r@ == image_name_for(bytes@),
{
    let m = sniff_image_mime(bytes);
    proof {
        reveal_strlit("image/png");
        reveal_strlit("image/jpeg");
        reveal_strlit("image/gif");
        reveal_strlit("image/tiff");
        reveal_strlit("image/bmp");
        reveal_strlit("image/webp");
        assert("image/png"@ != "image/jpeg"@) by {
            assert("image/png"@[6] != "image/jpeg"@[6]);
        }
        assert("image/png"@ != "image/gif"@) by {
            assert("image/png"@[6] != "image/gif"@[6]);
        }
        assert("image/png"@ != "image/tiff"@) by {
            assert("image/png"@[6] != "image/tiff"@[6]);
        }
        assert("image/png"@ != "image/bmp"@) by {
            assert("image/png"@[6] != "image/bmp"@[6]);
        }
        assert("image/png"@ != "image/webp"@) by {
            assert("image/png"@[6] != "image/webp"@[6]);
        }
    }
    if crate::text::str_eq(m, "image/jpeg") {
        "image.jpg"
    } else if crate::text::str_eq(m, "image/gif") {
        "image.gif"
    } else if crate::text::str_eq(m, "image/tiff") {
        "image.tiff"
    } else if crate::text::str_eq(m, "image/bmp") {
        "image.bmp"
    } else if crate::text::str_eq(m, "image/webp") {
        "image.webp"
    } else {
        "image.png"
    }
}

/// The file types shown as images, by extension.
pub open spec fn image_exts() -> Seq<Seq<char>> {
    seq![
        "png"@,
        "jpg"@,
        "jpeg"@,
        "gif"@,
        "tif"@,
        "tiff"@,
        "bmp"@,
        "webp"@,
        "ico"@,
        "heic"@,
        "heif"@,
        "svg"@,
    ]
}

/// The index of the last `.` in `s`, if any.
pub open spec fn last_dot(s: Seq<char>, end: int) -> Option<int>
    decreases end,
{
    if end <= 0 || end > s.len() {
        None
    } else if s[end - 1] == '.' {
        Some(end - 1)
    } else {
        last_dot(s, end - 1)
    }
}

/// `Path::extension`: what follows the last `.` of the file name, unless the
/// name has no `.` or only a leading one.
pub open spec fn extension_of(name: Seq<char>, windows: bool) -> Option<Seq<char>> {
    match base_name(name, windows) {
        Some(f) => match last_dot(f, f.len() as int) {
            Some(k) => if k == 0 {
                None
            } else {
                Some(f.subrange(k + 1, f.len() as int))
            },
            None => None,
        },
        None => None,
    }
}

/// Whether a file name's extension is an image one, in any ASCII case.
pub open spec fn image_named(name: Seq<char>, windows: bool) -> bool {
    match extension_of(name, windows) {
        Some(e) => exists|k: int| 0 <= k < image_exts().len() && lower_seq(e) == image_exts()[k],
        None => false,
    }
}

/// Whether a file name has an image extension, by this platform's path
/// rules (`looks_like_image_name_on` gives each platform's).
pub fn looks_like_image_name(name: &str) -> (r: bool)
    ensures
        r == image_named(name@, false) || r == image_named(name@, true),
{
    let windows = crate::store::main_separator() == '\\';
    looks_like_image_name_on(name, windows)
}

/// Whether a file name has an image extension, by Windows path rules when
/// `windows` holds and by Unix ones otherwise.
pub fn looks_like_image_name_on(name: &str, windows: bool) -> (r: bool)
    ensures
        r == image_named(name@, windows),
{
    let v = str_chars(name);
    let f = match crate::store::base_name_chars(&v, windows) {
        Some(f) => f,
        None => return false,
    };
    let n = f.len();
    let mut end: usize = n;
    while end > 0 && f[end - 1] != '.'
        invariant
            end <= n == f@.len(),
            last_dot(f@, n as int) == last_dot(f@, end as int),
        decreases end,
    {
        end = end - 1;
    }
    if end <= 1 {
        proof {
            if end == 1 {
                assert(last_dot(f@, n as int) == Some(0int));
            }
        }
        return false;
    }
    assert(last_dot(f@, n as int) == Some(end - 1));
    let ext = crate::text::sub_chars(&f, end, n);
    assert(v@ == name@);
    assert(base_name(name@, windows) == Some(f@));
    assert(extension_of(name@, windows) == Some(ext@));
    let low = lower_chars(&ext);
    let exts = ["png", "jpg", "jpeg", "gif", "tif", "tiff", "bmp", "webp", "ico", "heic", "heif", "svg"];
    proof {
        assert(exts@.map_values(|s: &str| s@) =~= image_exts());
    }
    let mut i: usize = 0;
    while i < 12
        invariant
            i <= 12,
            exts@.map_values(|s: &str| s@) == image_exts(),
            low@ == lower_seq(ext@),
            extension_of(name@, windows) == Some(ext@),
            forall|j: int| 0 <= j < i ==> lower_seq(ext@) != image_exts()[j],
        decreases 12 - i,
    {
        if crate::text::chars_eq_str(&low, exts[i]) {
            assert(exts@.map_values(|s: &str| s@)[i as int] == exts@[i as int]@);
            assert(lower_seq(ext@) == image_exts()[i as int]);
            assert(extension_of(name@, windows) == Some(ext@));
            return true;
        }
        assert(exts@.map_values(|s: &str| s@)[i as int] == exts@[i as int]@);
        i = i + 1;
    }
    false
}

/// The width and height the image crate reads from the header of image
/// bytes of any supported format, if it recognises them.
pub uninterp spec fn spec_image_dims(bytes: Seq<u8>) -> Option<(u32, u32)>;

/// `image::ImageReader::with_guessed_format` then `into_dimensions`: the size
/// stated in the header, for any format the crate knows.
#[verifier::external_body]
fn guessed_dimensions(bytes: &[u8]) -> (r: Option<(u32, u32)>)
    ensures
        r == spec_image_dims(bytes@),
{
    image::ImageReader::new(Cursor::new(bytes)).with_guessed_format().ok()?.into_dimensions().ok()
}

/// The size of image bytes: from a PNG header when there is one, else as the
/// image crate reads it.
pub fn image_dimensions_any(data: &[u8]) -> (r: Option<(u32, u32)>)
    ensures
        r == match png_size(data@) {
            Some(d) => Some(d),
            None => spec_image_dims(data@),
        },
{
    match png_dimensions(data) {
        Some(d) => Some(d),
        None => guessed_dimensions(data),
    }
}

/// What `thumbnail_encodings` gives for the bytes and edge: `None` when the
/// bytes do not decode, else the decoded image's width and height, whether
/// the thumbnail's colour type has an alpha channel, its PNG encoding and the
/// JPEG encoding of its RGB form, each `None` when that encoding fails.
pub uninterp spec fn spec_thumbnail_encodings(bytes: Seq<u8>, edge: u32) -> Option<
    (u32, u32, bool, Option<Seq<u8>>, Option<Seq<u8>>),
>;

/// `image::ImageReader::with_guessed_format`, `decode`, the decoded image's
/// `width` and `height`, then `DynamicImage::thumbnail(edge, edge)`; of the
/// thumbnail,
/// `color().has_alpha()`, `write_to` as PNG, and `to_rgb8` written as JPEG.
/// The result is named; nothing about the pixels or bytes is stated.
#[verifier::external_body]
fn thumbnail_encodings(bytes: &[u8], edge: u32) -> (r: Option<
    (u32, u32, bool, Option<Vec<u8>>, Option<Vec<u8>>),
>)
    ensures
        match spec_thumbnail_encodings(bytes@, edge) {
            None => r is None,
            Some((w, h, a, p, j)) => r matches Some((rw, rh, ra, rp, rj)) && rw == w && rh == h
                && ra == a && opt_bytes_of(rp) == p && opt_bytes_of(rj) == j,
        },
{
    let img = image::ImageReader::new(Cursor::new(bytes)).with_guessed_format().ok()?.decode().ok()?;
    let thumb = img.thumbnail(edge, edge);
    let rgb = image::DynamicImage::ImageRgb8(thumb.to_rgb8());
    let (mut png, mut jpeg) = (Vec::new(), Vec::new());
    let png_ok = thumb.write_to(&mut Cursor::new(&mut png), image::ImageFormat::Png).is_ok();
    let jpeg_ok = rgb.write_to(&mut Cursor::new(&mut jpeg), image::ImageFormat::Jpeg).is_ok();
    let alpha = thumb.color().has_alpha();
    Some((img.width(), img.height(), alpha, png_ok.then_some(png), jpeg_ok.then_some(jpeg)))
}

/// `data:{mime};base64,{b64}`.
pub open spec fn data_url(mime: Seq<char>, b: Seq<u8>) -> Seq<char> {
    "data:"@ + mime + ";base64,"@ + spec_b64_encode(b)
}

fn make_data_url(mime: &str, b: &[u8]) -> (r: String)
    ensures
        r@ == data_url(mime@, b@),
{
    let mut out = str_chars("data:");
    push_all(&mut out, &str_chars(mime));
    push_all(&mut out, &str_chars(";base64,"));
    let enc = b64_encode(b);
    push_all(&mut out, &str_chars(enc.as_str()));
    let r = string_from_chars(&out);
    assert(r@ =~= data_url(mime@, b@));
    r
}

/// Whether `url` is an image data URL of one of the thumbnail types.
pub open spec fn thumb_url(url: Seq<char>) -> bool {
    exists|b: Seq<u8>| url == data_url("image/png"@, b) || url == data_url("image/jpeg"@, b)
}

/// The type a thumbnail is encoded as: PNG when the image has an alpha
/// channel, JPEG otherwise.
pub open spec fn thumb_mime(alpha: bool) -> Seq<char> {
    if alpha {
        "image/png"@
    } else {
        "image/jpeg"@
    }
}

/// The thumbnail data URL made from the encoder's results: the PNG when the
/// image has an alpha channel, the JPEG otherwise; none when that encoding
/// failed.
pub open spec fn thumb_from(alpha: bool, png: Option<Seq<u8>>, jpeg: Option<Seq<u8>>) -> Option<
    Seq<char>,
> {
    match if alpha {
        png
    } else {
        jpeg
    } {
        Some(b) => Some(data_url(thumb_mime(alpha), b)),
        None => None,
    }
}

/// The list thumbnail of image bytes, as a data URL: none when the bytes do
/// not decode or the chosen encoding fails.
pub open spec fn spec_thumb(bytes: Seq<u8>) -> Option<Seq<char>> {
    match spec_thumbnail_encodings(bytes, IMAGE_THUMB_EDGE) {
        Some((_, _, a, p, j)) => thumb_from(a, p, j),
        None => None,
    }
}

/// The thumbnail as a data URL: PNG when the image has an alpha channel,
/// JPEG otherwise; none when that encoding failed.
pub fn encode_thumb_data_url(alpha: bool, png: Option<Vec<u8>>, jpeg: Option<Vec<u8>>) -> (r:
    Option<String>)
    ensures
        opt_chars_of(r) == thumb_from(alpha, opt_bytes_of(png), opt_bytes_of(jpeg)),
        r matches Some(u) ==> thumb_url(u@),
{
    if alpha {
        match png {
            Some(buf) => {
                let u = make_data_url("image/png", buf.as_slice());
                assert(u@ == data_url("image/png"@, buf@));
                Some(u)
            },
            None => None,
        }
    } else {
        match jpeg {
            Some(buf) => {
                let u = make_data_url("image/jpeg", buf.as_slice());
                assert(u@ == data_url("image/jpeg"@, buf@));
                Some(u)
            },
            None => None,
        }
    }
}

/// The longest edge of a list thumbnail, in pixels.
pub const IMAGE_THUMB_EDGE: u32 = 96;

/// Images up to this size may be shown inline when no thumbnail can be made.
pub const INLINE_IMAGE_MAX: usize = 80 * 1024;

/// Images above this size get no thumbnail.
pub const IMAGE_THUMB_MAX_FILE: u64 = 40 * 1024 * 1024;

/// A compact list thumbnail of image bytes, as a data URL.
pub fn make_image_thumb_data_url(bytes: &[u8]) -> (r: Option<String>)
    ensures
        opt_chars_of(r) == spec_thumb(bytes@),
        r matches Some(u) ==> thumb_url(u@),
{
    match thumbnail_encodings(bytes, IMAGE_THUMB_EDGE) {
        Some((_, _, alpha, png, jpeg)) => encode_thumb_data_url(alpha, png, jpeg),
        None => None,
    }
}

/// Compact list thumbnail + dimensions. Does not rewrite `preview.path`.
/// The size comes from the header; images over 40 MiB get no thumbnail; an
/// image that yields no thumbnail is shown inline (as a data URL of its
/// sniffed type) when at most 80 KiB, else by its path.
pub fn apply_image_thumb(preview: &mut Preview, bytes: &[u8])
    ensures
        match image_dimensions_spec(bytes@) {
            Some((w, h)) => final(preview).width == Some(w) && final(preview).height == Some(h),
            None => final(preview).width == old(preview).width && final(preview).height == old(
                preview,
            ).height,
        },
        final(preview).text == old(preview).text,
        final(preview).color == old(preview).color,
        final(preview).url == old(preview).url,
        final(preview).html == old(preview).html,
        final(preview).file_name == old(preview).file_name,
        final(preview).file_size == old(preview).file_size,
        final(preview).path == old(preview).path,
        bytes@.len() > IMAGE_THUMB_MAX_FILE ==> final(preview).image_thumb == old(
            preview,
        ).image_thumb,
        bytes@.len() <= IMAGE_THUMB_MAX_FILE ==> opt_chars_of(final(preview).image_thumb) == match spec_thumb(
            bytes@,
        ) {
            Some(u) => Some(u),
            None => if bytes@.len() <= INLINE_IMAGE_MAX {
                Some(
                    data_url(
                        match sniffed(bytes@) {
                            Some(m) => m,
                            None => "image/png"@,
                        },
                        bytes@,
                    ),
                )
            } else {
                opt_chars_of(old(preview).path)
            },
        },
{
    if let Some((w, h)) = image_dimensions_any(bytes) {
        preview.width = Some(w);
        preview.height = Some(h);
    }
    if bytes.len() as u64 > IMAGE_THUMB_MAX_FILE {
        return;
    }
    preview.image_thumb = match make_image_thumb_data_url(bytes) {
        Some(u) => Some(u),
        None => if bytes.len() <= INLINE_IMAGE_MAX {
            Some(make_data_url(sniff_image_mime(bytes), bytes))
        } else {
            crate::text::clone_opt(&preview.path)
        },
    };
}

/// The size `image_dimensions_any` reads.
pub open spec fn image_dimensions_spec(b: Seq<u8>) -> Option<(u32, u32)> {
    match png_size(b) {
        Some(d) => Some(d),
        None => spec_image_dims(b),
    }
}


/// Whether an image file of `file_len` bytes gets a thumbnail: it is not
/// empty and at most 40 MiB.
pub open spec fn file_thumb_size_ok(file_len: u64) -> bool {
    0 < file_len <= IMAGE_THUMB_MAX_FILE
}

pub fn file_thumb_wanted(file_len: u64) -> (r: bool)
    ensures
        r == file_thumb_size_ok(file_len),
{
    file_len > 0 && file_len <= IMAGE_THUMB_MAX_FILE
}

/// Thumbnail and size of an image file of `file_len` bytes whose contents
/// are `bytes` (empty when it could not be read): nothing for an empty file
/// or one over 40 MiB. When the contents decode, the size is the decoded
/// image's and the thumbnail is its data URL, else the preview's path; when
/// they do not, the path becomes the thumbnail if the file's name is an
/// image name (`named_image`).
pub fn apply_image_thumb_from_file(
    preview: &mut Preview,
    file_len: u64,
    bytes: &[u8],
    named_image: bool,
)
    ensures
        !file_thumb_size_ok(file_len) ==> *final(preview) == *old(preview),
        final(preview).text == old(preview).text,
        final(preview).color == old(preview).color,
        final(preview).url == old(preview).url,
        final(preview).html == old(preview).html,
        final(preview).file_name == old(preview).file_name,
        final(preview).file_size == old(preview).file_size,
        final(preview).path == old(preview).path,
        file_thumb_size_ok(file_len) ==> match spec_thumbnail_encodings(
            bytes@,
            IMAGE_THUMB_EDGE,
        ) {
            Some((w, h, a, p, j)) => {
                &&& final(preview).width == Some(w)
                &&& final(preview).height == Some(h)
                &&& opt_chars_of(final(preview).image_thumb) == match thumb_from(a, p, j) {
                    Some(u) => Some(u),
                    None => opt_chars_of(old(preview).path),
                }
            },
            None => {
                &&& final(preview).width == old(preview).width
                &&& final(preview).height == old(preview).height
                &&& final(preview).image_thumb == if named_image {
                    old(preview).path
                } else {
                    old(preview).image_thumb
                }
            },
        },
{
    if !file_thumb_wanted(file_len) {
        return;
    }
    match thumbnail_encodings(bytes, IMAGE_THUMB_EDGE) {
        Some((w, h, alpha, png, jpeg)) => {
            preview.width = Some(w);
            preview.height = Some(h);
            preview.image_thumb = match encode_thumb_data_url(alpha, png, jpeg) {
                Some(u) => Some(u),
                None => crate::text::clone_opt(&preview.path),
            };
        },
        None => {
            if named_image {
                preview.image_thumb = crate::text::clone_opt(&preview.path);
            }
        },
    }
}
} // verus!
