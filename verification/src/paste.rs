//! Pasting a record: what is written back to the system clipboard.
use crate::commands::{missing_record_message, missing_record_text};
use crate::db::{get, is_image_kind, lookup, RecordStore};
use vstd::prelude::*;

verus! {

/// What goes back on the system clipboard for a record.
pub enum Payload {
    /// The image stored in the file at `path`.
    Image { path: String },
    /// The record's text.
    Text { content: String },
}

/// The clipboard payload of record `id`: the image file of an image record,
/// the content of any other record; an error when there is no such record.
pub fn paste_payload(store: &RecordStore, id: i64) -> (r: Result<Payload, String>)
    requires
        store.wf(),
    ensures
        lookup(store@, id) is None ==> (r matches Err(e) && e@ == missing_record_text()),
        lookup(store@, id) matches Some(rec) ==> {
            &&& is_image_kind(rec.kind@) ==> (r matches Ok(Payload::Image { path })
                && path == rec.content)
            &&& !is_image_kind(rec.kind@) ==> (r matches Ok(Payload::Text { content })
                && content == rec.content)
        },
{
    match get(store, id) {
        None => Err(missing_record_message()),
        Some(rec) => {
            if rec.is_image() {
                Ok(Payload::Image { path: rec.content })
            } else {
                Ok(Payload::Text { content: rec.content })
            }
        },
    }
}

/// The decoded image of an image file at `path` holding `file`, decoded in
/// the format that the path's extension names: width, height and RGBA
/// pixels, or the decoder's error text.
pub uninterp spec fn decoded_rgba(path: Seq<char>, file: Seq<u8>) -> Result<
    (u32, u32, Seq<u8>),
    Seq<char>,
>;

/// The view of a decoding outcome.
pub open spec fn decoding_view(r: Result<(u32, u32, Vec<u8>), String>) -> Result<
    (u32, u32, Seq<u8>),
    Seq<char>,
> {
    match r {
        Ok((w, h, p)) => Ok((w, h, p@)),
        Err(e) => Err(e@),
    }
}

/// Decodes the image file at `path`, whose content is `file`, in the format
/// that the path's extension names (as `image::open` picks it).
///
/// Trusted: calls `image::load_from_memory_with_format` with the format that
/// `image::ImageFormat::from_path` reads off the path, reads the image back
/// with `to_rgba8` as width, height and pixels, and turns an error (of either
/// call) into its text; the contract names the outcome `decoded_rgba`.
#[verifier::external_body]
fn load_rgba(path: &str, file: &[u8]) -> (r: Result<(u32, u32, Vec<u8>), String>)
    ensures
        decoding_view(r) == decoded_rgba(path@, file@),
{
    let decoded = match image::ImageFormat::from_path(path) {
        Ok(format) => image::load_from_memory_with_format(file, format),
        Err(e) => Err(e),
    };
    match decoded {
        Ok(img) => {
            let rgba = img.to_rgba8();
            Ok((rgba.width(), rgba.height(), rgba.into_raw()))
        },
        Err(e) => Err(e.to_string()),
    }
}

/// The pixels to put on the clipboard for an image record whose file at
/// `path` holds `file`: width, height and RGBA pixels, or the decoder's
/// error text.
pub fn decode_rgba(path: &str, file: &[u8]) -> (r: Result<(usize, usize, Vec<u8>), String>)
    ensures
        match decoded_rgba(path@, file@) {
            Ok((w, h, p)) => r matches Ok(t) && t.0 == w && t.1 == h && t.2@ == p,
            Err(e) => r matches Err(m) && m@ == e,
        },
{
    match load_rgba(path, file) {
        Ok((w, h, p)) => Ok((w as usize, h as usize, p)),
        Err(e) => Err(e),
    }
}

} // verus!
