//! Cover art: what kind of image it is, under which name it is kept, which files of the cache are
//! still needed, and its thumbnail.

use crate::base64::{base64_encode, base64_of, bytes_of, law_base64_round_trip};
use crate::engine::audio::{begins_with, bytes_at, bytes_begin};
use crate::text::{
    chars_of, hex16, hex_of, last_of, law_padding, lemma_hex_len, lemma_last_of, lemma_last_of_none,
    push_hex, rfind_char, str_eq, string_of, zero_padded,
};
use vstd::hash_set::StringHashSet;
use vstd::prelude::*;
use vstd::slice::slice_subrange;
use vstd::string::StringExecFns;

verus! {

/// The longer side of a thumbnail in pixels.
pub const THUMB_MAX: u32 = 400;

/// The quality at which thumbnails are encoded.
pub const THUMB_QUALITY: u8 = 84;

/// The start value of the 64 bit FNV-1a hash.
pub const FNV_OFFSET: u64 = 0xcbf2_9ce4_8422_2325;

/// The factor of the 64 bit FNV-1a hash.
pub const FNV_PRIME: u64 = 0x0000_0100_0000_01b3;

/// The 64 bit FNV-1a hash.
pub open spec fn fnv1a(bytes: Seq<u8>) -> u64
    decreases bytes.len(),
{
    if bytes.len() == 0 {
        FNV_OFFSET
    } else {
        (fnv1a(bytes.drop_last()) ^ (bytes.last() as u64)).wrapping_mul(FNV_PRIME)
    }
}

/// The name under which an image is kept: the hash of its bytes, their number, and the extension.
pub open spec fn key_of(bytes: Seq<u8>, ext: Seq<char>) -> Seq<char> {
    zero_padded(hex_of(fnv1a(bytes) as nat), 16) + "-"@ + hex_of(bytes.len()) + "."@ + ext
}

fn fnv(bytes: &[u8]) -> (h: u64)
    ensures
        h == fnv1a(bytes@),
{
    let mut h: u64 = FNV_OFFSET;
    let mut i: usize = 0;
    proof {
        assert(bytes@.take(0) =~= Seq::<u8>::empty());
    }
    while i < bytes.len()
        invariant
            i <= bytes@.len(),
            h == fnv1a(bytes@.take(i as int)),
        decreases bytes@.len() - i,
    {
        proof {
            assert(bytes@.take(i + 1).drop_last() =~= bytes@.take(i as int));
            assert(bytes@.take(i + 1).last() == bytes@[i as int]);
        }
        h = (h ^ (bytes[i] as u64)).wrapping_mul(FNV_PRIME);
        i = i + 1;
    }
    proof {
        assert(bytes@.take(bytes@.len() as int) =~= bytes@);
    }
    h
}

/// The name under which an image is kept. Equal images share one name.
pub fn content_key(bytes: &[u8], ext: &str) -> (r: String)
    ensures
        r@ == key_of(bytes@, ext@),
{
    let mut r = hex16(fnv(bytes));
    r.append("-");
    push_hex(&mut r, bytes.len() as u64);
    r.append(".");
    r.append(ext);
    r
}

/// A name without its extension.
pub open spec fn stem_of(key: Seq<char>) -> Seq<char> {
    match last_of(key, '.') {
        Some(i) => key.subrange(0, i),
        None => key,
    }
}

/// The thumbnail of an image, relative to the cache.
pub open spec fn thumb_of(key: Seq<char>) -> Seq<char> {
    "thumb/"@ + stem_of(key) + ".jpg"@
}

/// The path of the thumbnail of an image, relative to the cache directory.
pub fn thumb_path_for(key: &str) -> (r: String)
    ensures
        r@ == thumb_of(key@),
{
    let cs = chars_of(key);
    let stem = match rfind_char(cs.as_slice(), '.') {
        Some(i) => string_of(slice_subrange(cs.as_slice(), 0, i)),
        None => key.to_owned(),
    };
    "thumb/".to_owned().concat(stem.as_str()).concat(".jpg")
}

/// The files of the cache that the given images need: each image, and the thumbnail of each whose
/// name has an extension.
pub open spec fn needed_files(keys: Seq<String>) -> Set<Seq<char>>
    decreases keys.len(),
{
    if keys.len() == 0 {
        Set::empty()
    } else {
        let rest = needed_files(keys.drop_last());
        let k = keys.last()@;
        if last_of(k, '.') is Some {
            rest.insert(thumb_of(k)).insert(k)
        } else {
            rest.insert(k)
        }
    }
}

/// The files of the cache that are needed.
pub struct CoverCache {
    pub keep: StringHashSet,
}

impl CoverCache {
    /// Collects what the given images need.
    pub fn of(keys: &[String]) -> (r: Self)
        ensures
            r.keep@ == needed_files(keys@),
    {
        let mut keep = StringHashSet::new();
        let mut i: usize = 0;
        proof {
            assert(keys@.take(0) =~= Seq::<String>::empty());
        }
        while i < keys.len()
            invariant
                i <= keys@.len(),
                keep@ == needed_files(keys@.take(i as int)),
            decreases keys@.len() - i,
        {
            proof {
                assert(keys@.take(i + 1).drop_last() =~= keys@.take(i as int));
                assert(keys@.take(i + 1).last() == keys@[i as int]);
            }
            let cs = chars_of(keys[i].as_str());
            if rfind_char(cs.as_slice(), '.').is_some() {
                keep.insert(thumb_path_for(keys[i].as_str()));
            }
            keep.insert(keys[i].clone());
            i = i + 1;
        }
        proof {
            assert(keys@.take(keys@.len() as int) =~= keys@);
        }
        CoverCache { keep }
    }

    /// Whether a file of the cache can go. Its path is relative to the cache, with either kind of
    /// separator.
    pub fn is_orphan(&self, rel: &str) -> (r: bool)
        ensures
            r == !self.keep@.contains(slashed(rel@)),
    {
        let name = with_slashes(rel);
        !self.keep.contains(name.as_str())
    }
}

/// A path with slashes for separators.
pub open spec fn slashed(s: Seq<char>) -> Seq<char> {
    s.map_values(|c: char| if c == '\\' {
        '/'
    } else {
        c
    })
}

fn with_slashes(s: &str) -> (r: String)
    ensures
        r@ == slashed(s@),
{
    let cs = chars_of(s);
    let mut r = String::new();
    let mut i: usize = 0;
    while i < cs.len()
        invariant
            i <= cs@.len(),
            r@.len() == i,
            forall|j: int| 0 <= j < i ==> #[trigger] r@[j] == slashed(cs@)[j],
        decreases cs@.len() - i,
    {
        if cs[i] == '\\' {
            r.push('/');
        } else {
            r.push(cs[i]);
        }
        i = i + 1;
    }
    proof {
        assert(r@ =~= slashed(s@));
    }
    r
}

/// A collection never removes an image that a track refers to, nor its thumbnail.
pub proof fn law_referenced_covers_stay(keys: Seq<String>, i: int)
    requires
        0 <= i < keys.len(),
    ensures
        needed_files(keys).contains(keys[i]@),
        last_of(keys[i]@, '.') is Some ==> needed_files(keys).contains(thumb_of(keys[i]@)),
    decreases keys.len(),
{
    if i < keys.len() - 1 {
        law_referenced_covers_stay(keys.drop_last(), i);
    }
}

/// `GIF8`
pub open spec fn gif_magic() -> Seq<u8> {
    seq![71u8, 73u8, 70u8, 56u8]
}

/// `RIFF`
pub open spec fn riff_magic() -> Seq<u8> {
    seq![82u8, 73u8, 70u8, 70u8]
}

/// `WEBP`
pub open spec fn webp_magic() -> Seq<u8> {
    seq![87u8, 69u8, 66u8, 80u8]
}

/// The extension of an image, by its first bytes.
pub open spec fn image_ext_of(b: Seq<u8>) -> Option<Seq<char>> {
    if begins_with(b, seq![0xffu8, 0xd8u8, 0xffu8]) {
        Some("jpg"@)
    } else if begins_with(b, seq![0x89u8, 0x50u8, 0x4eu8, 0x47u8]) {
        Some("png"@)
    } else if begins_with(b, gif_magic()) {
        Some("gif"@)
    } else if begins_with(b, riff_magic()) && b.len() > 12 && b.subrange(8, 12) == webp_magic() {
        Some("webp"@)
    } else {
        None
    }
}

/// The extension of an image, by its first bytes.
pub fn sniff_image_ext(bytes: &[u8]) -> (r: Option<&'static str>)
    ensures
        r matches Some(e) ==> image_ext_of(bytes@) == Some(e@),
        r is None ==> image_ext_of(bytes@) is None,
{
    let jpg: [u8; 3] = [0xff, 0xd8, 0xff];
    let png: [u8; 4] = [0x89, 0x50, 0x4e, 0x47];
    let gif: [u8; 4] = [71, 73, 70, 56];
    let riff: [u8; 4] = [82, 73, 70, 70];
    let webp: [u8; 4] = [87, 69, 66, 80];
    proof {
        assert(jpg@ =~= seq![0xffu8, 0xd8u8, 0xffu8]);
        assert(png@ =~= seq![0x89u8, 0x50u8, 0x4eu8, 0x47u8]);
        assert(gif@ =~= gif_magic());
        assert(riff@ =~= riff_magic());
        assert(webp@ =~= webp_magic());
    }
    if bytes_begin(bytes, jpg.as_slice()) {
        Some("jpg")
    } else if bytes_begin(bytes, png.as_slice()) {
        Some("png")
    } else if bytes_begin(bytes, gif.as_slice()) {
        Some("gif")
    } else if bytes_begin(bytes, riff.as_slice()) && bytes.len() > 12 && bytes_at(
        bytes,
        8,
        webp.as_slice(),
    ) {
        Some("webp")
    } else {
        None
    }
}

/// The media type of an extension; anything unknown passes for JPEG.
pub open spec fn mime_for(ext: Seq<char>) -> Seq<char> {
    if ext == "png"@ {
        "image/png"@
    } else if ext == "gif"@ {
        "image/gif"@
    } else if ext == "webp"@ {
        "image/webp"@
    } else if ext == "bmp"@ {
        "image/bmp"@
    } else {
        "image/jpeg"@
    }
}

/// The media type of an extension.
pub fn mime_of_ext(ext: &str) -> (r: &'static str)
    ensures
        r@ == mime_for(ext@),
{
    if str_eq(ext, "png") {
        "image/png"
    } else if str_eq(ext, "gif") {
        "image/gif"
    } else if str_eq(ext, "webp") {
        "image/webp"
    } else if str_eq(ext, "bmp") {
        "image/bmp"
    } else {
        "image/jpeg"
    }
}

/// What follows the last dot of a name, or the whole name.
pub open spec fn ext_of(key: Seq<char>) -> Seq<char> {
    match last_of(key, '.') {
        Some(i) => key.subrange(i + 1, key.len() as int),
        None => key,
    }
}

/// The media type of a cover or of its thumbnail.
pub open spec fn mime_of_cover(key: Seq<char>, is_thumb: bool) -> Seq<char> {
    if is_thumb {
        "image/jpeg"@
    } else {
        mime_for(ext_of(key))
    }
}

/// The media type of a cover as it is shown: thumbnails are JPEG, the images themselves go by their
/// names.
pub fn cover_mime(key: &str, is_thumb: bool) -> (r: &'static str)
    ensures
        r@ == mime_of_cover(key@, is_thumb),
{
    if is_thumb {
        return "image/jpeg";
    }
    let cs = chars_of(key);
    match rfind_char(cs.as_slice(), '.') {
        Some(i) => {
            let n: usize = cs.len();
            let ext = string_of(slice_subrange(cs.as_slice(), i + 1, n));
            mime_of_ext(ext.as_str())
        },
        None => mime_of_ext(key),
    }
}

/// The data URL of some bytes.
pub open spec fn url_of(mime: Seq<char>, bytes: Seq<u8>) -> Seq<char> {
    "data:"@ + mime + ";base64,"@ + base64_of(bytes)
}

/// An image as a data URL.
pub fn data_url(mime: &str, bytes: &[u8]) -> (r: String)
    ensures
        r@ == url_of(mime@, bytes@),
{
    let body = base64_encode(bytes);
    "data:".to_owned().concat(mime).concat(";base64,").concat(body.as_str())
}

/// What becomes of a cover that was found in a file.
#[derive(Debug, Clone, PartialEq, Eq)]
pub struct CoverPlan {
    /// The name of the cover.
    pub key: String,
    /// Whether the image has to be written; otherwise it is there already.
    pub write_image: bool,
    /// Whether the thumbnail has to be made.
    pub make_thumb: bool,
}

/// Whether a plan is the one for an image, by the length of what is stored under its name and by
/// whether its thumbnail is there.
pub open spec fn is_plan(
    r: CoverPlan,
    bytes: Seq<u8>,
    ext: Seq<char>,
    stored_len: Option<u64>,
    thumb_exists: bool,
) -> bool {
    &&& r.key@ == key_of(bytes, ext)
    &&& r.write_image == (stored_len != Some(bytes.len() as u64))
    &&& r.make_thumb == (r.write_image || !thumb_exists)
}

/// Decides what to do with a cover: an image of the same name and length is taken for the same image
/// and not written again, and its thumbnail is made only where it is missing.
pub fn plan_cover(
    bytes: &[u8],
    ext: &str,
    stored_len: Option<u64>,
    thumb_exists: bool,
) -> (r: CoverPlan)
    ensures
        is_plan(r, bytes@, ext@, stored_len, thumb_exists),
{
    let n: u64 = bytes.len() as u64;
    let unchanged = match stored_len {
        Some(len) => len == n,
        None => false,
    };
    CoverPlan {
        key: content_key(bytes, ext),
        write_image: !unchanged,
        make_thumb: !unchanged || !thumb_exists,
    }
}

/// An image of eight bits per channel: red, green, blue and alpha of each pixel, row by row.
#[derive(Debug, Clone, PartialEq, Eq)]
pub struct Raster {
    pub width: u32,
    pub height: u32,
    pub rgba: Vec<u8>,
}

impl Raster {
    /// Whether the pixels fill the image.
    pub open spec fn filled(self) -> bool {
        self.rgba@.len() == self.width * self.height * 4
    }
}

/// Calls `image::load_from_memory`, then `DynamicImage::resize` with a Catmull-Rom filter into a
/// square of the given side, then `DynamicImage::to_rgba8`. There is no image where the bytes cannot
/// be decoded; an image that comes out has four bytes for each of its pixels and fits into the square.
/// The pixels themselves are left unsaid: the decoders choose their arithmetic by the processor they
/// run on. Which bytes can be decoded is left unsaid too: it depends on the decoders that the process
/// has registered with the crate, which are asked before its own.
#[verifier::external_body]
fn decode_small(bytes: &[u8], side: u32) -> (r: Option<Raster>)
    requires
        side > 0,
    ensures
        r matches Some(p) ==> p.filled() && 1 <= p.width <= side && 1 <= p.height <= side,
{
    let img = image::load_from_memory(bytes).ok()?;
    let small = img.resize(side, side, image::imageops::FilterType::CatmullRom);
    let rgba = small.to_rgba8();
    let (width, height) = rgba.dimensions();
    Some(Raster { width, height, rgba: rgba.into_raw() })
}

/// What `JpegEncoder` of the given quality makes of the red, green and blue of an image.
pub uninterp spec fn jpeg_of(rgb: Seq<u8>, width: u32, height: u32, quality: u8) -> Option<Seq<u8>>;

/// Whether a JPEG can have a size: sixteen bits for each side, and none of them 0.
pub open spec fn jpeg_size(width: u32, height: u32) -> bool {
    1 <= width <= 65_535 && 1 <= height <= 65_535
}

/// Calls `JpegEncoder::new_with_quality` and `JpegEncoder::encode` on three bytes per pixel, writing
/// to memory. The result depends on the pixels, the size and the quality alone. It fails on a size
/// that the format cannot express, and on nothing else.
#[verifier::external_body]
fn encode_jpeg(rgb: &[u8], width: u32, height: u32, quality: u8) -> (r: Option<Vec<u8>>)
    requires
        rgb@.len() == width * height * 3,
    ensures
        jpeg_of(rgb@, width, height, quality) == match r {
            Some(v) => Some(v@),
            None => None,
        },
        r is Some <==> jpeg_size(width, height),
{
    let mut out: Vec<u8> = Vec::new();
    let mut enc = image::codecs::jpeg::JpegEncoder::new_with_quality(&mut out, quality);
    let done = enc.encode(rgb, width, height, image::ExtendedColorType::Rgb8);
    drop(enc);
    done.ok().map(|_| out)
}

/// A channel value seen through its alpha over white.
pub open spec fn over_white(v: u8, a: u8) -> u8 {
    ((v * a + 255 * (255 - a)) / 255) as u8
}

/// The red, green and blue of an image laid over white.
pub open spec fn flattened(rgba: Seq<u8>) -> Seq<u8> {
    Seq::new(
        (rgba.len() / 4 * 3) as nat,
        |i: int| over_white(rgba[i / 3 * 4 + i % 3], rgba[i / 3 * 4 + 3]),
    )
}

/// An opaque pixel shows its own colour, and a wholly transparent one shows white.
pub proof fn law_over_white(v: u8, a: u8)
    ensures
        over_white(v, 255) == v,
        over_white(v, 0) == 255,
        0 <= v * a + 255 * (255 - a) <= 255 * 255,
{
    assert(0 <= v * a <= 255 * a) by (nonlinear_arith)
        requires
            0 <= v <= 255,
            0 <= a <= 255,
    ;
}

fn blend(v: u8, a: u8) -> (r: u8)
    ensures
        r == over_white(v, a),
{
    proof {
        law_over_white(v, a);
    }
    ((v as u32 * a as u32 + 255 * (255 - a as u32)) / 255) as u8
}

/// Lays an image over white.
fn flatten(rgba: &[u8]) -> (r: Vec<u8>)
    requires
        rgba@.len() % 4 == 0,
    ensures
        r@ == flattened(rgba@),
{
    let n: usize = rgba.len();
    let mut r: Vec<u8> = Vec::new();
    let mut k: usize = 0;
    while k < n
        invariant
            n == rgba@.len(),
            n % 4 == 0,
            k % 4 == 0,
            k <= n,
            r@.len() == k / 4 * 3,
            forall|i: int| 0 <= i < r@.len() ==> #[trigger] r@[i] == flattened(rgba@)[i],
        decreases n - k,
    {
        let a: u8 = rgba[k + 3];
        let ghost p = k / 4;
        proof {
            assert((p * 3) / 3 == p && (p * 3) % 3 == 0);
            assert((p * 3 + 1) / 3 == p && (p * 3 + 1) % 3 == 1);
            assert((p * 3 + 2) / 3 == p && (p * 3 + 2) % 3 == 2);
            assert(p * 4 == k);
            assert(rgba@.len() / 4 * 3 >= p * 3 + 3);
        }
        r.push(blend(rgba[k], a));
        r.push(blend(rgba[k + 1], a));
        r.push(blend(rgba[k + 2], a));
        k = k + 4;
    }
    proof {
        assert(r@ =~= flattened(rgba@));
    }
    r
}

/// Encodes an image over white as a JPEG thumbnail.
pub fn encode_thumb(p: &Raster) -> (r: Option<Vec<u8>>)
    requires
        p.filled(),
    ensures
        jpeg_of(flattened(p.rgba@), p.width, p.height, THUMB_QUALITY) == match r {
            Some(v) => Some(v@),
            None => None,
        },
        r is Some <==> jpeg_size(p.width, p.height),
{
    proof {
        assert(p.rgba@.len() % 4 == 0);
        assert(flattened(p.rgba@).len() == p.width * p.height * 3);
    }
    let rgb = flatten(p.rgba.as_slice());
    encode_jpeg(rgb.as_slice(), p.width, p.height, THUMB_QUALITY)
}

/// The thumbnail of a decoded image; none where nothing was decoded or the size is none of a JPEG.
pub fn thumb_from(decoded: Option<Raster>) -> (r: Option<Vec<u8>>)
    requires
        decoded matches Some(p) ==> p.filled(),
    ensures
        r is Some <==> decoded is Some && jpeg_size((decoded->0).width, (decoded->0).height),
        r matches Some(v) ==> jpeg_of(
            flattened((decoded->0).rgba@),
            (decoded->0).width,
            (decoded->0).height,
            THUMB_QUALITY,
        ) == Some(v@),
{
    match decoded {
        Some(p) => encode_thumb(&p),
        None => None,
    }
}

/// Makes the thumbnail of an image, or none where the bytes cannot be decoded. It shows an image laid
/// over white that fits into the square of a thumbnail.
pub fn make_thumb(bytes: &[u8]) -> (r: Option<Vec<u8>>)
    ensures
        r matches Some(v) ==> exists|p: Raster|
            #![auto]
            p.filled() && 1 <= p.width <= THUMB_MAX && 1 <= p.height <= THUMB_MAX && jpeg_of(
                flattened(p.rgba@),
                p.width,
                p.height,
                THUMB_QUALITY,
            ) == Some(v@),
{
    thumb_from(decode_small(bytes, THUMB_MAX))
}

/// The hash starts from its offset; each byte is mixed in by an exclusive or, and then the hash is
/// multiplied by its prime, modulo 2^64.
pub proof fn law_fnv1a(bytes: Seq<u8>, b: u8)
    ensures
        fnv1a(Seq::empty()) == 0xcbf2_9ce4_8422_2325u64,
        fnv1a(bytes.push(b)) == (fnv1a(bytes) ^ (b as u64)) * 0x100_0000_01b3
            % 0x1_0000_0000_0000_0000,
{
    assert(bytes.push(b).drop_last() =~= bytes);
}

/// A name starts with the sixteen digits of the hash; the number of bytes stands behind a hyphen,
/// and the extension behind the last point.
pub proof fn law_key(bytes: Seq<u8>, ext: Seq<char>)
    requires
        forall|i: int| 0 <= i < ext.len() ==> ext[i] != '.',
    ensures
        key_of(bytes, ext).len() == 18 + hex_of(bytes.len()).len() + ext.len(),
        key_of(bytes, ext).take(16) == zero_padded(hex_of(fnv1a(bytes) as nat), 16),
        key_of(bytes, ext)[16] == '-',
        key_of(bytes, ext).subrange(17, 17 + hex_of(bytes.len()).len() as int) == hex_of(bytes.len()),
        ext_of(key_of(bytes, ext)) == ext,
        stem_of(key_of(bytes, ext)) + "."@ + ext == key_of(bytes, ext),
{
    reveal_strlit("-");
    reveal_strlit(".");
    let h = fnv1a(bytes) as nat;
    assert(vstd::arithmetic::power::pow(16, 16) == 0x1_0000_0000_0000_0000) by {
        reveal(vstd::arithmetic::power::pow);
        reveal_with_fuel(vstd::arithmetic::power::pow, 17);
    }
    lemma_hex_len(h, 16);
    law_padding(hex_of(h), 16);
    let key = key_of(bytes, ext);
    let front = zero_padded(hex_of(h), 16) + "-"@ + hex_of(bytes.len());
    lemma_last_point(front, ext);
    assert(key =~= front + seq!['.'] + ext);
    assert(key.take(16) =~= zero_padded(hex_of(h), 16));
    assert(key.subrange(17, 17 + hex_of(bytes.len()).len() as int) =~= hex_of(bytes.len()));
}

proof fn lemma_last_point(stem: Seq<char>, ext: Seq<char>)
    requires
        forall|i: int| 0 <= i < ext.len() ==> ext[i] != '.',
    ensures
        stem_of(stem + seq!['.'] + ext) == stem,
        ext_of(stem + seq!['.'] + ext) == ext,
        last_of(stem + seq!['.'] + ext, '.') == Some(stem.len() as int),
{
    let key = stem + seq!['.'] + ext;
    assert forall|j: int| stem.len() < j < key.len() implies key[j] != '.' by {
        assert(key[j] == ext[j - stem.len() - 1]);
    }
    lemma_last_of(key, '.', stem.len() as int);
    assert(key.subrange(0, stem.len() as int) =~= stem);
    assert(key.subrange(stem.len() as int + 1, key.len() as int) =~= ext);
}

/// A thumbnail lies in a folder of its own, is called after its image, and is a JPEG.
pub proof fn law_thumbs(stem: Seq<char>, ext: Seq<char>)
    requires
        forall|i: int| 0 <= i < ext.len() ==> ext[i] != '.',
    ensures
        thumb_of(stem + "."@ + ext) == "thumb/"@ + stem + ".jpg"@,
        thumb_of(ext) == "thumb/"@ + ext + ".jpg"@,
        mime_of_cover(stem + "."@ + ext, true) == "image/jpeg"@,
        mime_of_cover(stem + "."@ + ext, false) == mime_for(ext),
{
    reveal_strlit(".");
    assert("."@ =~= seq!['.']);
    lemma_last_point(stem, ext);
    lemma_last_of_none(ext, '.');
}

/// Images go by the media type of their extension; what is not known passes for JPEG.
pub proof fn law_media_types(ext: Seq<char>)
    ensures
        ext == "png"@ || ext == "gif"@ || ext == "webp"@ || ext == "bmp"@ ==> mime_for(ext) == "image/"@
            + ext,
        ext != "png"@ && ext != "gif"@ && ext != "webp"@ && ext != "bmp"@ ==> mime_for(ext)
            == "image/jpeg"@,
{
    reveal_strlit("png");
    reveal_strlit("gif");
    reveal_strlit("webp");
    reveal_strlit("bmp");
    reveal_strlit("image/");
    reveal_strlit("image/png");
    reveal_strlit("image/gif");
    reveal_strlit("image/webp");
    reveal_strlit("image/bmp");
    assert("png"@[0] == 'p' && "gif"@[0] == 'g' && "webp"@[0] == 'w' && "bmp"@[0] == 'b');
    assert("image/"@ + "png"@ =~= "image/png"@);
    assert("image/"@ + "gif"@ =~= "image/gif"@);
    assert("image/"@ + "webp"@ =~= "image/webp"@);
    assert("image/"@ + "bmp"@ =~= "image/bmp"@);
}

/// Only the images that tracks refer to and their thumbnails stay.
pub proof fn law_only_referenced_covers_stay(keys: Seq<String>, file: Seq<char>)
    requires
        needed_files(keys).contains(file),
    ensures
        exists|i: int|
            0 <= i < keys.len() && (file == (#[trigger] keys[i])@ || file == thumb_of(keys[i]@)),
    decreases keys.len(),
{
    if keys.len() > 0 {
        let n: int = keys.len() - 1;
        let rest = keys.drop_last();
        if file == keys[n]@ || file == thumb_of(keys[n]@) {
        } else {
            law_only_referenced_covers_stay(rest, file);
            let i = choose|i: int|
                0 <= i < rest.len() && (file == (#[trigger] rest[i])@ || file == thumb_of(rest[i]@));
            assert(keys[i] == rest[i]);
        }
    }
}

/// Both kinds of separators mean the same file.
pub proof fn law_separators_are_alike(a: Seq<char>, b: Seq<char>)
    ensures
        slashed(a + seq!['\\'] + b) == slashed(a + seq!['/'] + b),
        (forall|i: int| 0 <= i < a.len() ==> a[i] != '\\') ==> slashed(a) == a,
{
    assert(slashed(a + seq!['\\'] + b) =~= slashed(a + seq!['/'] + b));
    if forall|i: int| 0 <= i < a.len() ==> a[i] != '\\' {
        assert(slashed(a) =~= a);
    }
}

/// An image is known by its first bytes, whatever follows them.
pub proof fn law_image_kinds(rest: Seq<u8>, size: Seq<u8>)
    requires
        size.len() == 4,
    ensures
        image_ext_of(seq![0xffu8, 0xd8u8, 0xffu8] + rest) == Some("jpg"@),
        image_ext_of(seq![0x89u8, 0x50u8, 0x4eu8, 0x47u8] + rest) == Some("png"@),
        image_ext_of(seq![0x47u8, 0x49u8, 0x46u8, 0x38u8] + rest) == Some("gif"@),
        rest.len() > 0 ==> image_ext_of(
            seq![0x52u8, 0x49u8, 0x46u8, 0x46u8] + size + seq![0x57u8, 0x45u8, 0x42u8, 0x50u8] + rest,
        ) == Some("webp"@),
{
    let jpg = seq![0xffu8, 0xd8u8, 0xffu8];
    let png = seq![0x89u8, 0x50u8, 0x4eu8, 0x47u8];
    let gif = seq![0x47u8, 0x49u8, 0x46u8, 0x38u8];
    let riff = seq![0x52u8, 0x49u8, 0x46u8, 0x46u8];
    let webp = seq![0x57u8, 0x45u8, 0x42u8, 0x50u8];
    assert((jpg + rest).subrange(0, 3) =~= jpg);
    assert((png + rest).subrange(0, 4) =~= png);
    assert((png + rest).subrange(0, 3)[0] == 0x89u8);
    assert((gif + rest).subrange(0, 4) =~= gif);
    assert((gif + rest).subrange(0, 3)[0] == 0x47u8);
    assert(gif =~= gif_magic());
    if rest.len() > 0 {
        let b = riff + size + webp + rest;
        assert(riff =~= riff_magic());
        assert(webp =~= webp_magic());
        assert(b.subrange(0, 4) =~= riff);
        assert(b.subrange(8, 12) =~= webp);
        assert(b.subrange(0, 3)[0] == 0x52u8);
    }
}

/// What is none of these is no image: its first byte or its length tells.
pub proof fn law_other_bytes_are_no_image(b: Seq<u8>)
    ensures
        b.len() < 3 ==> image_ext_of(b) is None,
        b.len() > 0 && b[0] != 0xff && b[0] != 0x89 && b[0] != 0x47 && b[0] != 0x52 ==> image_ext_of(b)
            is None,
{
    if b.len() >= 3 {
        assert(b.subrange(0, 3)[0] == b[0]);
        if b.len() >= 4 {
            assert(b.subrange(0, 4)[0] == b[0]);
        }
    }
}

/// The bytes can be read back from the end of their data URL.
pub proof fn law_data_url(mime: Seq<char>, bytes: Seq<u8>)
    ensures
        url_of(mime, bytes).take(5) == "data:"@,
        url_of(mime, bytes).subrange(5, 5 + mime.len() as int) == mime,
        url_of(mime, bytes).subrange(5 + mime.len() as int, 13 + mime.len() as int) == ";base64,"@,
        bytes_of(url_of(mime, bytes).skip(13 + mime.len() as int)) == bytes,
{
    reveal_strlit("data:");
    reveal_strlit(";base64,");
    let u = url_of(mime, bytes);
    assert(u.take(5) =~= "data:"@);
    assert(u.subrange(5, 5 + mime.len() as int) =~= mime);
    assert(u.subrange(5 + mime.len() as int, 13 + mime.len() as int) =~= ";base64,"@);
    assert(u.skip(13 + mime.len() as int) =~= base64_of(bytes));
    law_base64_round_trip(bytes);
}

/// An image that is stored whole is not written again; a new one is written with its thumbnail; a
/// missing thumbnail is made.
pub proof fn law_cover_plan(
    r: CoverPlan,
    bytes: Seq<u8>,
    ext: Seq<char>,
    stored_len: Option<u64>,
    thumb_exists: bool,
)
    requires
        is_plan(r, bytes, ext, stored_len, thumb_exists),
        bytes.len() <= u64::MAX,
    ensures
        r.key@ == key_of(bytes, ext),
        stored_len is None ==> r.write_image && r.make_thumb,
        stored_len matches Some(n) ==> (r.write_image <==> n != bytes.len()),
        !r.write_image && thumb_exists ==> !r.make_thumb,
        !thumb_exists ==> r.make_thumb,
        r.write_image ==> r.make_thumb,
{
}

/// The channels of a pixel of the flattened image come from the same pixel, each seen through the
/// alpha of that pixel.
pub proof fn law_flattened_pixels(rgba: Seq<u8>, pixel: int, channel: int)
    requires
        0 <= pixel < rgba.len() / 4,
        0 <= channel < 3,
    ensures
        flattened(rgba).len() == rgba.len() / 4 * 3,
        flattened(rgba)[pixel * 3 + channel] == over_white(
            rgba[pixel * 4 + channel],
            rgba[pixel * 4 + 3],
        ),
{
    assert((pixel * 3 + channel) / 3 == pixel);
    assert((pixel * 3 + channel) % 3 == channel);
}

/// The blend is the weighted mean of the colour and of white, rounded down.
pub proof fn law_blend(v: u8, a: u8)
    ensures
        255 * over_white(v, a) <= v * a + 255 * (255 - a) < 255 * over_white(v, a) + 255,
        THUMB_MAX == 400,
        THUMB_QUALITY == 84,
{
    law_over_white(v, a);
}

/// A JPEG has sides from 1 to 65535, and so has every thumbnail.
pub proof fn law_jpeg_sizes(width: u32, height: u32)
    ensures
        jpeg_size(width, height) <==> 0 < width < 65_536 && 0 < height < 65_536,
        1 <= width <= 400 && 1 <= height <= 400 ==> jpeg_size(width, height),
{
}

} // verus!
