//! What the front end's commands compute: the rows of the record list, the
//! thumbnail data URIs, where a record is saved, and the effect of new
//! settings on the table.
use crate::clipboard::now_ms;
use crate::db::{
    after_clear, clear_all, cleared_files, get, is_image_kind, lookup, trim, trimmed_to, Record,
    RecordStore,
};
use crate::settings::{clamp_max_records, clamped_max, Settings};
use crate::text::{decimal, to_decimal};
use base64::engine::general_purpose::STANDARD;
use base64::Engine;
use vstd::prelude::*;
use vstd::string::StrSliceExecFns;

verus! {

/// A record as the list shows it.
#[derive(Clone)]
pub struct RecordView {
    pub id: i64,
    pub kind: String,
    /// The preview, cut to 600 characters.
    pub preview: String,
    /// The thumbnail as a `data:` URI, for image records.
    pub thumb: Option<String>,
    pub pinned: bool,
    pub created_at: i64,
    pub last_used_at: i64,
}

/// The longest preview the list shows, in characters.
pub const PREVIEW_CHARS: usize = 600;

/// `s` cut to `max` characters, with `…` appended when it was cut.
pub open spec fn truncated(s: Seq<char>, max: nat) -> Seq<char> {
    if s.len() <= max {
        s
    } else {
        s.take(max as int).push('\u{2026}')
    }
}

/// A cut preview never runs past the limit by more than the `…`: for every
/// text and limit the result has at most `max + 1` characters; a text of at
/// most `max` characters comes back whole, and a longer one becomes its first
/// `max` characters followed by `…`.
pub proof fn law_truncated_bounded(s: Seq<char>, max: nat)
    ensures
        truncated(s, max).len() <= max + 1,
        s.len() <= max ==> truncated(s, max) == s,
        s.len() > max ==> truncated(s, max).len() == max + 1,
        s.len() > max ==> truncated(s, max)[max as int] == '\u{2026}',
        s.len() > max ==> forall|i: int| 0 <= i < max ==> #[trigger] truncated(s, max)[i] == s[i],
        s.len() > max ==> truncated(s, max) == s.take(max as int).push('\u{2026}'),
{
}

/// `s` cut to `max` characters, with `…` appended when it was cut.
pub fn truncate(s: &str, max: usize) -> (r: String)
    ensures
        r@ == truncated(s@, max as nat),
        r@.len() <= max + 1,
        s@.len() <= max ==> r@ == s@,
        s@.len() > max ==> r@ == s@.take(max as int).push('\u{2026}'),
{
    proof {
        law_truncated_bounded(s@, max as nat);
    }
    if s.unicode_len() <= max {
        String::from_str(s)
    } else {
        let head = s.substring_char(0, max);
        let r = String::from_str(head).concat("\u{2026}");
        proof {
            reveal_strlit("\u{2026}");
            assert(r@ =~= truncated(s@, max as nat));
        }
        r
    }
}

/// The character for a six-bit value in the standard base64 alphabet
/// (`A`-`Z`, `a`-`z`, `0`-`9`, `+`, `/`).
pub open spec fn base64_digit(v: int) -> char {
    if v < 26 {
        ((65 + v) as u32) as char
    } else if v < 52 {
        ((97 + v - 26) as u32) as char
    } else if v < 62 {
        ((48 + v - 52) as u32) as char
    } else if v == 62 {
        '+'
    } else {
        '/'
    }
}

/// Base64 text of `bytes` with the standard alphabet and `=` padding: each
/// group of three bytes becomes four characters, and a last group of one or
/// two bytes is padded to four with `=`.
pub open spec fn base64_standard(bytes: Seq<u8>) -> Seq<char>
    decreases bytes.len(),
{
    if bytes.len() == 0 {
        Seq::empty()
    } else if bytes.len() == 1 {
        let a = bytes[0] as int;
        seq![base64_digit(a / 4), base64_digit((a % 4) * 16), '=', '=']
    } else if bytes.len() == 2 {
        let a = bytes[0] as int;
        let b = bytes[1] as int;
        seq![base64_digit(a / 4), base64_digit((a % 4) * 16 + b / 16), base64_digit((b % 16) * 4), '=']
    } else {
        let a = bytes[0] as int;
        let b = bytes[1] as int;
        let c = bytes[2] as int;
        seq![
            base64_digit(a / 4),
            base64_digit((a % 4) * 16 + b / 16),
            base64_digit((b % 16) * 4 + c / 64),
            base64_digit(c % 64),
        ] + base64_standard(bytes.subrange(3, bytes.len() as int))
    }
}

/// Length of the padded base64 text of `n` bytes.
pub open spec fn base64_len(n: nat) -> nat {
    4 * ((n + 2) / 3)
}

/// Encodes `bytes` as padded standard base64.
///
/// Trusted: calls `base64::engine::general_purpose::STANDARD.encode`; the
/// contract claims the text is the padded standard encoding `base64_standard`, of
/// the padded length that `encoded_len` computes. The encoder panics when that
/// length does not fit in `usize`, which `requires` rules out.
#[verifier::external_body]
fn base64_encode(bytes: &[u8]) -> (r: String)
    requires
        base64_len(bytes@.len()) <= usize::MAX,
    ensures
        r@ == base64_standard(bytes@),
        r@.len() == base64_len(bytes@.len()),
{
    STANDARD.encode(bytes)
}

/// The characters of `data:image/png;base64,`.
pub open spec fn png_data_prefix() -> Seq<char> {
    seq![
        'd',
        'a',
        't',
        'a',
        ':',
        'i',
        'm',
        'a',
        'g',
        'e',
        '/',
        'p',
        'n',
        'g',
        ';',
        'b',
        'a',
        's',
        'e',
        '6',
        '4',
        ',',
    ]
}

/// The `data:` URI of a PNG thumbnail whose file read back as `bytes`, or
/// `None` when the file could not be read.
pub fn thumb_data_uri(bytes: Option<&[u8]>) -> (r: Option<String>)
    requires
        bytes matches Some(b) ==> base64_len(b@.len()) <= usize::MAX,
    ensures
        bytes is None ==> r is None,
        bytes matches Some(b) ==> (r matches Some(u) && u@ == png_data_prefix() + base64_standard(
            b@,
        )),
{
    match bytes {
        Some(b) => {
            let encoded = base64_encode(b);
            let mut uri = String::from_str("data:image/png;base64,");
            uri.append(encoded.as_str());
            proof {
                reveal_strlit("data:image/png;base64,");
                assert("data:image/png;base64,"@ =~= png_data_prefix());
            }
            Some(uri)
        },
        None => None,
    }
}

/// `v` shows record `r` whose thumbnail file read back as `thumb`.
pub open spec fn shows_record(v: RecordView, r: Record, thumb: Option<Seq<u8>>) -> bool {
    &&& v.id == r.id
    &&& v.kind == r.kind
    &&& v.preview@ == truncated(r.preview@, PREVIEW_CHARS as nat)
    &&& match thumb {
        Some(b) => v.thumb matches Some(u) && u@ == png_data_prefix() + base64_standard(b),
        None => v.thumb is None,
    }
    &&& v.pinned == r.pinned
    &&& v.created_at == r.created_at
    &&& v.last_used_at == r.last_used_at
}

/// The view of an optional byte vector.
pub open spec fn bytes_view(b: Option<Vec<u8>>) -> Option<Seq<u8>> {
    match b {
        Some(v) => Some(v@),
        None => None,
    }
}

/// The rows of the record list: for each record (in the order given, which
/// is the list order) its view, where `thumbs[i]` is what reading record
/// `i`'s thumbnail file gave (`None` when it has none or it could not be
/// read).
pub fn list_records(records: &Vec<Record>, thumbs: &Vec<Option<Vec<u8>>>) -> (r: Vec<RecordView>)
    requires
        thumbs@.len() == records@.len(),
        forall|i: int|
            0 <= i < thumbs@.len() ==> (#[trigger] thumbs@[i] matches Some(b) ==> base64_len(
                b@.len(),
            ) <= usize::MAX),
    ensures
        r@.len() == records@.len(),
        forall|i: int|
            0 <= i < r@.len() ==> shows_record(
                #[trigger] r@[i],
                records@[i],
                bytes_view(thumbs@[i]),
            ),
{
    let mut out: Vec<RecordView> = Vec::new();
    let mut i: usize = 0;
    while i < records.len()
        invariant
            thumbs@.len() == records@.len(),
            forall|i: int|
                0 <= i < thumbs@.len() ==> (#[trigger] thumbs@[i] matches Some(b) ==> base64_len(
                    b@.len(),
                ) <= usize::MAX),
            i <= records@.len(),
            out@.len() == i,
            forall|k: int|
                0 <= k < i ==> shows_record(#[trigger] out@[k], records@[k], bytes_view(thumbs@[k])),
        decreases records@.len() - i,
    {
        let r = &records[i];
        let thumb = match &thumbs[i] {
            Some(b) => thumb_data_uri(Some(b.as_slice())),
            None => None,
        };
        let v = RecordView {
            id: r.id,
            kind: r.kind.clone(),
            preview: truncate(r.preview.as_str(), PREVIEW_CHARS),
            thumb,
            pinned: r.pinned,
            created_at: r.created_at,
            last_used_at: r.last_used_at,
        };
        out.push(v);
        i = i + 1;
    }
    out
}

/// The characters of the "record not found" error (记录不存在).
pub open spec fn missing_record_text() -> Seq<char> {
    seq!['\u{8bb0}', '\u{5f55}', '\u{4e0d}', '\u{5b58}', '\u{5728}']
}

/// The error shown when a record does not exist.
pub fn missing_record_message() -> (r: String)
    ensures
        r@ == missing_record_text(),
{
    let r = String::from_str("\u{8bb0}\u{5f55}\u{4e0d}\u{5b58}\u{5728}");
    proof {
        reveal_strlit("\u{8bb0}\u{5f55}\u{4e0d}\u{5b58}\u{5728}");
        assert(r@ =~= missing_record_text());
    }
    r
}

/// How a record is written to the save folder.
pub enum SaveJob {
    /// Copy the image file at `from` to `file_name` in the save folder.
    CopyImage { from: String, file_name: String },
    /// Write `content` to `file_name` in the save folder.
    WriteText { content: String, file_name: String },
}

/// The file name a record is saved under: `clip_<id>.png` for an image,
/// `clip_<id>.txt` otherwise.
pub open spec fn save_file_name(r: Record) -> Seq<char> {
    seq!['c', 'l', 'i', 'p', '_'] + decimal(r.id as int) + (if is_image_kind(r.kind@) {
        seq!['.', 'p', 'n', 'g']
    } else {
        seq!['.', 't', 'x', 't']
    })
}

/// A record is saved under `clip_<id>.png` when it is an image and
/// `clip_<id>.txt` otherwise: the name is fixed by the id and whether the
/// record is an image (timestamps, content and pin state do not enter it),
/// and records with different ids are saved under different names.
pub proof fn law_save_file_name(r1: Record, r2: Record)
    ensures
        save_file_name(r1).len() >= 10,
        save_file_name(r1).take(5) == seq!['c', 'l', 'i', 'p', '_'],
        save_file_name(r1).subrange(5, save_file_name(r1).len() - 4) == decimal(r1.id as int),
        is_image_kind(r1.kind@) ==> save_file_name(r1).skip(save_file_name(r1).len() - 4)
            == seq!['.', 'p', 'n', 'g'],
        !is_image_kind(r1.kind@) ==> save_file_name(r1).skip(save_file_name(r1).len() - 4)
            == seq!['.', 't', 'x', 't'],
        r1.id == r2.id && is_image_kind(r1.kind@) == is_image_kind(r2.kind@) ==> save_file_name(r1)
            == save_file_name(r2),
        r1.id != r2.id ==> save_file_name(r1) != save_file_name(r2),
{
    let n1 = save_file_name(r1);
    let n2 = save_file_name(r2);
    let d1 = decimal(r1.id as int);
    let d2 = decimal(r2.id as int);
    crate::text::lemma_decimal_digits_shape(if r1.id < 0 { (-r1.id) as nat } else { r1.id as nat });
    assert(d1.len() >= 1);
    assert(n1.take(5) =~= seq!['c', 'l', 'i', 'p', '_']);
    assert(n1.subrange(5, n1.len() - 4) =~= d1);
    if is_image_kind(r1.kind@) {
        assert(n1.skip(n1.len() - 4) =~= seq!['.', 'p', 'n', 'g']);
    } else {
        assert(n1.skip(n1.len() - 4) =~= seq!['.', 't', 'x', 't']);
    }
    if r1.id != r2.id && n1 == n2 {
        assert(n2.subrange(5, n2.len() - 4) =~= d2);
        assert(d1 == d2);
        crate::text::law_decimal_injective(r1.id as int, r2.id as int);
    }
}

/// What saving record `id` writes: an image record's file is copied, any
/// other record's content is written as text; an error when there is no
/// such record.
pub fn save_record(store: &RecordStore, id: i64) -> (r: Result<SaveJob, String>)
    requires
        store.wf(),
    ensures
        lookup(store@, id) is None ==> (r matches Err(e) && e@ == missing_record_text()),
        lookup(store@, id) matches Some(rec) ==> {
            &&& is_image_kind(rec.kind@) ==> (r matches Ok(SaveJob::CopyImage { from, file_name })
                && from == rec.content && file_name@ == save_file_name(rec))
            &&& !is_image_kind(rec.kind@) ==> (r matches Ok(SaveJob::WriteText { content, file_name })
                && content == rec.content && file_name@ == save_file_name(rec))
        },
{
    match get(store, id) {
        None => Err(missing_record_message()),
        Some(rec) => {
            let mut name = String::from_str("clip_");
            let digits = to_decimal(rec.id);
            name.append(digits.as_str());
            proof {
                reveal_strlit("clip_");
                reveal_strlit(".png");
                reveal_strlit(".txt");
            }
            if rec.is_image() {
                name.append(".png");
                assert(name@ =~= save_file_name(rec));
                Ok(SaveJob::CopyImage { from: rec.content, file_name: name })
            } else {
                name.append(".txt");
                assert(name@ =~= save_file_name(rec));
                Ok(SaveJob::WriteText { content: rec.content, file_name: name })
            }
        },
    }
}

/// Applies new settings: the record limit is held within 100..=300, the
/// hotkey is kept, and the table is trimmed to the new limit. Returns the
/// files of trimmed records, for the caller to remove.
pub fn set_settings(
    settings: &mut Settings,
    store: &mut RecordStore,
    save_path: String,
    max_records: u32,
    clear_on_shutdown: bool,
    autostart: bool,
) -> (files: Vec<String>)
    requires
        old(store).wf(),
    ensures
        final(settings).save_path == save_path,
        final(settings).max_records == clamped_max(max_records),
        final(settings).clear_on_shutdown == clear_on_shutdown,
        final(settings).autostart == autostart,
        final(settings).hotkey == old(settings).hotkey,
        final(store).wf(),
        final(store).last_id() == old(store).last_id(),
        trimmed_to(old(store)@, clamped_max(max_records), final(store)@, files@),
{
    let max = clamp_max_records(max_records);
    settings.save_path = save_path;
    settings.max_records = max;
    settings.clear_on_shutdown = clear_on_shutdown;
    settings.autostart = autostart;
    trim(store, max)
}

/// On exit: when the settings ask for it, removes every unpinned record and
/// returns their files, for the caller to remove; otherwise changes nothing.
pub fn exit_cleanup(settings: &Settings, store: &mut RecordStore) -> (files: Vec<String>)
    requires
        old(store).wf(),
    ensures
        final(store).wf(),
        final(store).last_id() == old(store).last_id(),
        settings.clear_on_shutdown ==> final(store)@ == after_clear(old(store)@, true) && files@
            == cleared_files(old(store)@, true),
        !settings.clear_on_shutdown ==> *final(store) == *old(store) && files@.len() == 0,
{
    if settings.clear_on_shutdown {
        clear_all(store, true)
    } else {
        Vec::new()
    }
}

/// The current time in milliseconds since the Unix epoch.
pub fn current_ms() -> i64 {
    now_ms()
}

} // verus!
