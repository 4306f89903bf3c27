//! Clipboard capture: the current time, content fingerprints, link
//! detection, and the decisions that turn a clipboard change into a stored
//! record (skipping blank text and content identical to the last capture).
use crate::db::{fresh_record, insert, inserted_then_trimmed, trim, trimmed_to, RecordStore};
use crate::text::{
    chars_of, decimal, end_solid, first_solid, has_prefix_at, is_white_space, lemma_end_solid_bounds,
    lemma_first_solid_bounds, lower_hex, to_decimal, to_lower_hex, trim_bounds, trimmed, white_space,
};
use std::collections::hash_map::DefaultHasher;
use std::hash::Hasher;
use std::time::{Duration, SystemTime};
use vstd::prelude::*;
use vstd::std_specs::hash::DefaultHasherAdditionalSpecFns;
use vstd::string::StringSliceAdditionalSpecFns;

verus! {

#[verifier::external_type_specification]
#[verifier::external_body]
pub struct ExSystemTime(SystemTime);

/// Reads the system clock.
///
/// Trusted: calls `SystemTime::now`; nothing is stated of the reading, which
/// depends on the machine's clock.
#[verifier::external_body]
fn system_time_now() -> SystemTime {
    SystemTime::now()
}

/// The time elapsed from the Unix epoch to `t`, or `None` when `t` lies
/// before the epoch.
///
/// Trusted: calls `SystemTime::duration_since(UNIX_EPOCH)` and keeps the `Ok`
/// value; nothing is stated of it, as `SystemTime` is opaque here.
#[verifier::external_body]
fn since_unix_epoch(t: &SystemTime) -> Option<Duration> {
    t.duration_since(std::time::UNIX_EPOCH).ok()
}

/// Whole milliseconds in `d`.
///
/// Trusted: calls `Duration::as_millis`; nothing is stated, as `Duration` is
/// opaque here.
#[verifier::external_body]
fn duration_millis(d: &Duration) -> u128 {
    d.as_millis()
}

/// Milliseconds since the Unix epoch as stored in records: the count cut to
/// 64 bits as a signed integer (`as i64`), or 0 when the clock reads before
/// the epoch.
pub fn ms_from_epoch_millis(millis: Option<u128>) -> (r: i64)
    ensures
        r == match millis {
            Some(m) => m as i64,
            None => 0,
        },
{
    match millis {
        Some(m) => {
            #[verifier::truncate]
            let v = m as i64;
            v
        },
        None => 0,
    }
}

/// The current time in milliseconds since the Unix epoch (0 when the clock
/// reads before the epoch). Nothing is stated of the value, which is the
/// clock's.
pub fn now_ms() -> i64 {
    let t = system_time_now();
    let millis = match since_unix_epoch(&t) {
        Some(d) => Some(duration_millis(&d)),
        None => None,
    };
    ms_from_epoch_millis(millis)
}

/// The `k` low bytes of `n`, least significant first.
pub open spec fn le_bytes(n: nat, k: nat) -> Seq<u8>
    decreases k,
{
    if k == 0 {
        Seq::empty()
    } else {
        seq![(n % 256) as u8] + le_bytes(n / 256, (k - 1) as nat)
    }
}

/// `p` is `n` as `usize::to_ne_bytes` writes it: the bytes of a `usize` in
/// little-endian or in big-endian order, whichever the machine uses.
pub open spec fn length_prefix(p: Seq<u8>, n: usize) -> bool {
    let le = le_bytes(n as nat, (usize::BITS / 8) as nat);
    p == le || p == le.reverse()
}

/// The bytes of `n` in the machine's native byte order, as `Hash` feeds a
/// length prefix to a hasher.
///
/// Trusted: calls `usize::to_ne_bytes`; the contract claims the bytes are
/// those of `n` in little- or big-endian order, as the machine's byte order
/// decides which.
#[verifier::external_body]
fn native_len_bytes(n: usize) -> (r: Vec<u8>)
    ensures
        r@.len() == usize::BITS / 8,
        length_prefix(r@, n),
{
    n.to_ne_bytes().to_vec()
}

/// The fingerprint text of `bytes` when hashed after the length prefix
/// `prefix`: lower-case hexadecimal of the default hasher's result.
pub open spec fn fingerprint(prefix: Seq<u8>, bytes: Seq<u8>) -> Seq<char> {
    lower_hex(DefaultHasher::spec_finish(seq![prefix, bytes]))
}

/// A fingerprint of `bytes`: the standard library's default hasher fed the
/// slice as `Hash` feeds it (the length in the machine's byte order, then
/// the bytes), written in lower-case hexadecimal.
pub fn hash_bytes(bytes: &[u8]) -> (r: String)
    ensures
        exists|prefix: Seq<u8>|
            #![trigger fingerprint(prefix, bytes@)]
            length_prefix(prefix, bytes@.len() as usize) && r@ == fingerprint(prefix, bytes@),
{
    let mut h = DefaultHasher::new();
    let prefix = native_len_bytes(bytes.len());
    h.write(prefix.as_slice());
    h.write(bytes);
    let v = h.finish();
    assert(h@ =~= seq![prefix@, bytes@]);
    assert(bytes@.len() as usize == bytes.len());
    assert(length_prefix(prefix@, bytes@.len() as usize));
    let r = to_lower_hex(v);
    assert(r@ == fingerprint(prefix@, bytes@));
    r
}

/// `t` starts with `p`.
pub open spec fn starts_with(t: Seq<char>, p: Seq<char>) -> bool {
    p.len() <= t.len() && t.subrange(0, p.len() as int) == p
}

/// The characters of `http://`.
pub open spec fn http_prefix() -> Seq<char> {
    seq!['h', 't', 't', 'p', ':', '/', '/']
}

/// The characters of `https://`.
pub open spec fn https_prefix() -> Seq<char> {
    seq!['h', 't', 't', 'p', 's', ':', '/', '/']
}

/// Text is a link when, trimmed, it starts with `http://` or `https://` and
/// holds no white space.
pub open spec fn link_like(text: Seq<char>) -> bool {
    let t = trimmed(text);
    &&& (starts_with(t, http_prefix()) || starts_with(t, https_prefix()))
    &&& forall|i: int| 0 <= i < t.len() ==> !is_white_space(#[trigger] t[i])
}

/// Whether `text` is a link.
pub fn is_link(text: &str) -> (r: bool)
    ensures
        r == link_like(text@),
{
    let cs = chars_of(text);
    let (a, b) = trim_bounds(&cs);
    if a >= b {
        return false;
    }
    let ghost t = cs@.subrange(a as int, b as int);
    let http: Vec<char> = vec!['h', 't', 't', 'p', ':', '/', '/'];
    let https: Vec<char> = vec!['h', 't', 't', 'p', 's', ':', '/', '/'];
    assert(http@ =~= http_prefix());
    assert(https@ =~= https_prefix());
    let p1 = b - a >= 7 && has_prefix_at(&cs, a, &http);
    let p2 = b - a >= 8 && has_prefix_at(&cs, a, &https);
    proof {
        assert(trimmed(text@) == t);
        if a + 7 <= b {
            assert(t.subrange(0, 7) =~= cs@.subrange(a as int, a + 7));
        }
        if a + 8 <= b {
            assert(t.subrange(0, 8) =~= cs@.subrange(a as int, a + 8));
        }
        assert(p1 == starts_with(t, http_prefix()));
        assert(p2 == starts_with(t, https_prefix()));
    }
    if !(p1 || p2) {
        return false;
    }
    let mut k: usize = a;
    while k < b
        invariant
            a <= k <= b,
            b <= cs@.len(),
            t == cs@.subrange(a as int, b as int),
            trimmed(text@) == t,
            forall|m: int| 0 <= m < k - a ==> !is_white_space(#[trigger] t[m]),
        decreases b - k,
    {
        if white_space(cs[k]) {
            assert(t[k - a] == cs@[k as int]);
            return false;
        }
        assert(t[k - a] == cs@[k as int]);
        k = k + 1;
    }
    true
}

/// The kind of a text record: `"link"` or `"text"`.
pub open spec fn text_kind(text: Seq<char>) -> Seq<char> {
    if link_like(text) {
        seq!['l', 'i', 'n', 'k']
    } else {
        seq!['t', 'e', 'x', 't']
    }
}

/// The link rule for stored text: a text is stored as a `link` exactly when,
/// with the white space at its ends removed, it starts with `http://` or
/// `https://` and holds no white space; every other text is stored as `text`.
pub proof fn law_text_kind_link_rule(text: Seq<char>)
    ensures
        text_kind(text) == seq!['l', 'i', 'n', 'k'] || text_kind(text) == seq!['t', 'e', 'x', 't'],
        text_kind(text) == seq!['l', 'i', 'n', 'k'] <==> {
            &&& (starts_with(trimmed(text), http_prefix()) || starts_with(
                trimmed(text),
                https_prefix(),
            ))
            &&& forall|i: int|
                0 <= i < trimmed(text).len() ==> !is_white_space(#[trigger] trimmed(text)[i])
        },
{
}

/// White space between two visible characters keeps a text from being a
/// link, whatever it starts with: such a text is stored as `text`.
pub proof fn law_spaced_text_is_not_link(text: Seq<char>, j: int, i: int, k: int)
    requires
        0 <= j < i < k < text.len(),
        !is_white_space(text[j]),
        is_white_space(text[i]),
        !is_white_space(text[k]),
    ensures
        text_kind(text) == seq!['t', 'e', 'x', 't'],
{
    let a = first_solid(text, 0);
    let b = end_solid(text, text.len() as int);
    lemma_first_solid_bounds(text, 0);
    lemma_end_solid_bounds(text, text.len() as int);
    if j < a {
        assert(is_white_space(text[j]));
    }
    if k >= b {
        assert(is_white_space(text[k]));
    }
    let t = trimmed(text);
    assert(t == text.subrange(a, b));
    assert(t[i - a] == text[i]);
    assert(!link_like(text));
}

/// Whether `hash` equals the fingerprint of the last capture.
pub open spec fn repeats(last_hash: Option<String>, hash: String) -> bool {
    last_hash matches Some(l) && l@ == hash@
}

fn is_repeat(last_hash: &Option<String>, hash: &String) -> (r: bool)
    ensures
        r == repeats(*last_hash, *hash),
{
    match last_hash {
        Some(l) => *l == *hash,
        None => false,
    }
}

/// Once a fingerprint is the last capture (after a stored capture, an
/// image that was not a repeat, or a paste), a clipboard change with the same
/// fingerprint is a repeat: nothing is stored, so no new id is needed either.
pub proof fn law_repeat_is_skipped(hash: String)
    ensures
        repeats(Some(hash), hash),
        forall|text: Seq<char>| !#[trigger] stores(Some(hash), text, hash),
{
}

/// What a clipboard text change led to.
pub enum TextCapture {
    /// The text is empty or white space only; the clipboard may hold an image.
    Blank,
    /// The text is the same as the last capture; nothing was stored.
    Duplicate,
    /// The text was stored under `id`; `files` are the files of records
    /// trimmed away, for the caller to remove.
    Stored { id: i64, files: Vec<String> },
}

/// Whether clipboard text `text` with fingerprint `hash` is stored: it is
/// not blank and does not repeat the last capture.
pub open spec fn stores(last_hash: Option<String>, text: Seq<char>, hash: String) -> bool {
    trimmed(text).len() > 0 && !repeats(last_hash, hash)
}

/// Whether capturing `text` with fingerprint `hash` stores a record (and so
/// takes a new id).
pub fn would_store(last_hash: &Option<String>, text: &str, hash: &String) -> (r: bool)
    ensures
        r == stores(*last_hash, text@, *hash),
{
    let cs = chars_of(text);
    let (a, b) = trim_bounds(&cs);
    a < b && !is_repeat(last_hash, hash)
}

/// Handles clipboard text whose fingerprint is `hash`: blank text is left to
/// the image path, text identical to the last capture is skipped, and other
/// text becomes the new last capture and is stored as a `link` or `text`
/// record (content and preview the text itself), after which the table is
/// trimmed to `max_records`.
pub fn capture_text_with_hash(
    last_hash: &mut Option<String>,
    store: &mut RecordStore,
    max_records: u32,
    text: &str,
    hash: String,
    now: i64,
) -> (r: TextCapture)
    requires
        old(store).wf(),
        stores(*old(last_hash), text@, hash) ==> old(store).last_id() < i64::MAX,
    ensures
        final(store).wf(),
        trimmed(text@).len() == 0 ==> r is Blank && *final(last_hash) == *old(last_hash)
            && *final(store) == *old(store),
        trimmed(text@).len() > 0 && repeats(*old(last_hash), hash) ==> r is Duplicate
            && *final(last_hash) == *old(last_hash) && *final(store) == *old(store),
        trimmed(text@).len() > 0 && !repeats(*old(last_hash), hash) ==> {
            &&& *final(last_hash) == Some(hash)
            &&& final(store).last_id() == old(store).last_id() + 1
            &&& r matches TextCapture::Stored { id, files } && id == old(store).last_id() + 1
                && inserted_then_trimmed(
                old(store)@,
                max_records,
                final(store)@,
                files@,
                id,
                text_kind(text@),
                text@,
                text@,
                None,
                now,
            )
        },
{
    let cs = chars_of(text);
    let (a, b) = trim_bounds(&cs);
    if a >= b {
        return TextCapture::Blank;
    }
    if is_repeat(last_hash, &hash) {
        return TextCapture::Duplicate;
    }
    *last_hash = Some(hash);
    let link = is_link(text);
    let kind = if link {
        "link"
    } else {
        "text"
    };
    proof {
        reveal_strlit("link");
        reveal_strlit("text");
        assert("link"@ =~= seq!['l', 'i', 'n', 'k']);
        assert("text"@ =~= seq!['t', 'e', 'x', 't']);
    }
    assert(kind@ == text_kind(text@));
    let id = insert(store, kind, text, text, None, now);
    let ghost mid = store@;
    let ghost rec = store@.last();
    assert(mid == old(store)@.push(rec)) by {
        assert(mid =~= mid.drop_last().push(rec));
    }
    assert(fresh_record(rec, id, text_kind(text@), text@, text@, None, now));
    let files = trim(store, max_records);
    assert(trimmed_to(old(store)@.push(rec), max_records, store@, files@));
    assert(inserted_then_trimmed(
        old(store)@,
        max_records,
        store@,
        files@,
        id,
        text_kind(text@),
        text@,
        text@,
        None,
        now,
    ));
    TextCapture::Stored { id, files }
}

/// Handles clipboard text: computes its fingerprint and proceeds as
/// `capture_text_with_hash` does with it.
pub fn capture_text(
    last_hash: &mut Option<String>,
    store: &mut RecordStore,
    max_records: u32,
    text: &str,
    now: i64,
) -> (r: TextCapture)
    requires
        old(store).wf(),
        trimmed(text@).len() > 0 ==> old(store).last_id() < i64::MAX,
    ensures
        final(store).wf(),
        trimmed(text@).len() == 0 ==> r is Blank && *final(last_hash) == *old(last_hash)
            && *final(store) == *old(store),
        exists|prefix: Seq<u8>, hash: String|
            {
                &&& length_prefix(prefix, text.spec_bytes().len() as usize)
                &&& hash@ == fingerprint(prefix, text.spec_bytes())
                &&& (trimmed(text@).len() > 0 && repeats(*old(last_hash), hash) ==> r is Duplicate
                    && *final(last_hash) == *old(last_hash) && *final(store) == *old(store))
                &&& (trimmed(text@).len() > 0 && !repeats(*old(last_hash), hash) ==> {
                    &&& *final(last_hash) == Some(hash)
                    &&& final(store).last_id() == old(store).last_id() + 1
                    &&& r matches TextCapture::Stored { id, files } && id == old(store).last_id() + 1
                        && inserted_then_trimmed(
                        old(store)@,
                        max_records,
                        final(store)@,
                        files@,
                        id,
                        text_kind(text@),
                        text@,
                        text@,
                        None,
                        now,
                    )
                })
            },
{
    let hash = hash_bytes(text.as_bytes());
    capture_text_with_hash(last_hash, store, max_records, text, hash, now)
}

/// Records the fingerprint of a clipboard image: `true` when it differs from
/// the last capture (and becomes the last capture), `false` when it repeats
/// the last capture (nothing changes).
pub fn note_image(last_hash: &mut Option<String>, hash: String) -> (fresh: bool)
    ensures
        fresh == !repeats(*old(last_hash), hash),
        fresh ==> *final(last_hash) == Some(hash),
        !fresh ==> *final(last_hash) == *old(last_hash),
{
    if is_repeat(last_hash, &hash) {
        false
    } else {
        *last_hash = Some(hash);
        true
    }
}

/// The characters of `prefix`, then the decimal of `now`, then `.png`.
pub open spec fn png_name(prefix: Seq<char>, now: i64) -> Seq<char> {
    prefix + decimal(now as int) + seq!['.', 'p', 'n', 'g']
}

/// File names for a captured image and its thumbnail:
/// `clip_<now>.png` and `thumb_<now>.png`.
pub fn image_file_names(now: i64) -> (r: (String, String))
    ensures
        r.0@ == png_name(seq!['c', 'l', 'i', 'p', '_'], now),
        r.1@ == png_name(seq!['t', 'h', 'u', 'm', 'b', '_'], now),
{
    let digits = to_decimal(now);
    let mut clip = String::from_str("clip_");
    clip.append(digits.as_str());
    clip.append(".png");
    let mut thumb = String::from_str("thumb_");
    thumb.append(digits.as_str());
    thumb.append(".png");
    proof {
        reveal_strlit("clip_");
        reveal_strlit("thumb_");
        reveal_strlit(".png");
        assert(clip@ =~= png_name(seq!['c', 'l', 'i', 'p', '_'], now));
        assert(thumb@ =~= png_name(seq!['t', 'h', 'u', 'm', 'b', '_'], now));
    }
    (clip, thumb)
}

/// Whether `len` bytes hold a `width` x `height` RGBA image, counting as
/// `RgbaImage::from_raw` does (four bytes a pixel, in `usize` arithmetic).
pub open spec fn rgba_fits(width: u32, height: u32, len: nat) -> bool {
    &&& 4 * (width as int) <= usize::MAX
    &&& 4 * (width as int) * (height as int) <= usize::MAX
    &&& 4 * (width as int) * (height as int) <= len
}

/// Whether `bytes` hold a `width` x `height` RGBA image.
///
/// Trusted: calls `image::ImageBuffer::<Rgba<u8>, &[u8]>::from_raw`, which
/// returns `None` exactly when the channel count times the width times the
/// height overflows `usize` or exceeds the buffer's length.
#[verifier::external_body]
fn rgba_buffer_fits(width: u32, height: u32, bytes: &[u8]) -> (r: bool)
    ensures
        r == rgba_fits(width, height, bytes@.len()),
{
    image::ImageBuffer::<image::Rgba<u8>, &[u8]>::from_raw(width, height, bytes).is_some()
}

/// Width, height and RGBA pixels of the thumbnail of a `width` x `height`
/// RGBA image, scaled to fit within `nwidth` x `nheight`.
pub uninterp spec fn rgba_thumbnail(
    width: u32,
    height: u32,
    bytes: Seq<u8>,
    nwidth: u32,
    nheight: u32,
) -> (u32, u32, Seq<u8>);

/// The thumbnail of a `width` x `height` RGBA image fitted within `nwidth` x
/// `nheight`.
///
/// Trusted: calls `image::DynamicImage::thumbnail`; the image it is called on
/// is the pixels wrapped by `ImageBuffer::from_raw` (which `requires` makes
/// succeed) and `DynamicImage::ImageRgba8`, and the result is read back as
/// RGBA pixels. The contract names the result `rgba_thumbnail`. `requires`
/// also keeps the fitted size's pixel buffer within `usize`.
#[verifier::external_body]
fn thumbnail_pixels(width: u32, height: u32, bytes: &[u8], nwidth: u32, nheight: u32) -> (r: (
    u32,
    u32,
    Vec<u8>,
))
    requires
        rgba_fits(width, height, bytes@.len()),
        4 * (nwidth as int + 1) * (nheight as int + 1) <= usize::MAX,
    ensures
        (r.0, r.1, r.2@) == rgba_thumbnail(width, height, bytes@, nwidth, nheight),
{
    let buf = image::ImageBuffer::<image::Rgba<u8>, Vec<u8>>::from_raw(width, height, bytes.to_vec());
    let thumb = image::DynamicImage::ImageRgba8(buf.unwrap()).thumbnail(nwidth, nheight).into_rgba8();
    (thumb.width(), thumb.height(), thumb.into_raw())
}

/// The width that captured images' thumbnails are fitted to.
pub const THUMB_WIDTH: u32 = 320;

/// The height that captured images' thumbnails are fitted to: four widths.
pub const THUMB_HEIGHT: u32 = THUMB_WIDTH * 4;

/// The characters of the "invalid image data" error (图片数据无效).
pub open spec fn invalid_image_text() -> Seq<char> {
    seq!['\u{56fe}', '\u{7247}', '\u{6570}', '\u{636e}', '\u{65e0}', '\u{6548}']
}

/// The thumbnail of a captured `width` x `height` RGBA image, fitted within
/// 320 x 1280; the "invalid image data" error when `bytes` cannot hold such
/// an image.
pub fn capture_thumbnail(width: u32, height: u32, bytes: &[u8]) -> (r: Result<(u32, u32, Vec<u8>), String>)
    ensures
        !rgba_fits(width, height, bytes@.len()) ==> (r matches Err(e) && e@ == invalid_image_text()),
        rgba_fits(width, height, bytes@.len()) ==> (r matches Ok(t) && (t.0, t.1, t.2@)
            == rgba_thumbnail(width, height, bytes@, THUMB_WIDTH, THUMB_HEIGHT)),
{
    if !rgba_buffer_fits(width, height, bytes) {
        let e = String::from_str("\u{56fe}\u{7247}\u{6570}\u{636e}\u{65e0}\u{6548}");
        proof {
            reveal_strlit("\u{56fe}\u{7247}\u{6570}\u{636e}\u{65e0}\u{6548}");
            assert(e@ =~= invalid_image_text());
        }
        return Err(e);
    }
    Ok(thumbnail_pixels(width, height, bytes, THUMB_WIDTH, THUMB_HEIGHT))
}

/// The preview text of an image record.
pub open spec fn image_preview() -> Seq<char> {
    seq!['[', '\u{56fe}', '\u{7247}', ']']
}

/// Stores a captured image whose files were saved at `orig_path` and
/// `thumb_path` as an `image` record, then trims the table to `max_records`;
/// returns the new id and the files of records trimmed away.
pub fn store_image(
    store: &mut RecordStore,
    max_records: u32,
    orig_path: &str,
    thumb_path: &str,
    now: i64,
) -> (r: (i64, Vec<String>))
    requires
        old(store).wf(),
        old(store).last_id() < i64::MAX,
    ensures
        final(store).wf(),
        r.0 == old(store).last_id() + 1,
        final(store).last_id() == r.0,
        inserted_then_trimmed(
            old(store)@,
            max_records,
            final(store)@,
            r.1@,
            r.0,
            seq!['i', 'm', 'a', 'g', 'e'],
            orig_path@,
            image_preview(),
            Some(thumb_path@),
            now,
        ),
{
    let preview = "[\u{56fe}\u{7247}]";
    proof {
        reveal_strlit("image");
        reveal_strlit("[\u{56fe}\u{7247}]");
        assert("image"@ =~= seq!['i', 'm', 'a', 'g', 'e']);
        assert(preview@ =~= image_preview());
    }
    let id = insert(store, "image", orig_path, preview, Some(thumb_path), now);
    let ghost mid = store@;
    let ghost rec = store@.last();
    assert(mid == old(store)@.push(rec)) by {
        assert(mid =~= mid.drop_last().push(rec));
    }
    assert(fresh_record(
        rec,
        id,
        seq!['i', 'm', 'a', 'g', 'e'],
        orig_path@,
        image_preview(),
        Some(thumb_path@),
        now,
    ));
    let files = trim(store, max_records);
    assert(trimmed_to(old(store)@.push(rec), max_records, store@, files@));
    (id, files)
}

} // verus!
