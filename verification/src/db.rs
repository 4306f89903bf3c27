//! The record table: every captured clipboard entry, the order in which the
//! list shows them, and the rules for touching, pinning, deleting, trimming
//! and clearing.
use vstd::prelude::*;

verus! {

/// One stored clipboard entry.
#[derive(Clone)]
pub struct Record {
    pub id: i64,
    /// `"text"`, `"link"` or `"image"`.
    pub kind: String,
    /// The text itself, or the path of the saved image file.
    pub content: String,
    pub preview: String,
    pub thumb_path: Option<String>,
    pub pinned: bool,
    pub created_at: i64,
    pub last_used_at: i64,
}

/// Whether a record kind names an image.
pub open spec fn is_image_kind(kind: Seq<char>) -> bool {
    kind == seq!['i', 'm', 'a', 'g', 'e']
}

/// The files on disk that belong to a record: the image itself for an image
/// record, then the thumbnail when there is one.
pub open spec fn record_files(r: Record) -> Seq<String> {
    (if is_image_kind(r.kind@) {
        seq![r.content]
    } else {
        Seq::<String>::empty()
    }) + (match r.thumb_path {
        Some(t) => seq![t],
        None => Seq::<String>::empty(),
    })
}

/// The files of several records, in order.
pub open spec fn files_of_all(rs: Seq<Record>) -> Seq<String>
    decreases rs.len(),
{
    if rs.len() == 0 {
        Seq::empty()
    } else {
        files_of_all(rs.drop_last()) + record_files(rs.last())
    }
}

/// Whether some record in `s` has the id `id`.
pub open spec fn has_id(s: Seq<Record>, id: i64) -> bool {
    exists|i: int| 0 <= i < s.len() && s[i].id == id
}

/// The position of the record with id `id` (meaningful when `has_id`).
pub open spec fn index_of_id(s: Seq<Record>, id: i64) -> int {
    choose|i: int| 0 <= i < s.len() && s[i].id == id
}

/// The record with id `id`, if any.
pub open spec fn lookup(s: Seq<Record>, id: i64) -> Option<Record> {
    if has_id(s, id) {
        Some(s[index_of_id(s, id)])
    } else {
        None
    }
}

/// Ids strictly increase along the table.
pub open spec fn ids_ascending(s: Seq<Record>) -> bool {
    forall|i: int, j: int| 0 <= i < j < s.len() ==> s[i].id < s[j].id
}

impl Record {
    /// An equal copy of this record.
    pub fn duplicate(&self) -> (r: Record)
        ensures
            r == *self,
    {
        Record {
            id: self.id,
            kind: self.kind.clone(),
            content: self.content.clone(),
            preview: self.preview.clone(),
            thumb_path: match &self.thumb_path {
                Some(t) => Some(t.clone()),
                None => None,
            },
            pinned: self.pinned,
            created_at: self.created_at,
            last_used_at: self.last_used_at,
        }
    }

    /// Whether this record holds an image.
    pub fn is_image(&self) -> (r: bool)
        ensures
            r == is_image_kind(self.kind@),
    {
        let image = String::from_str("image");
        proof {
            reveal_strlit("image");
            assert(image@ =~= seq!['i', 'm', 'a', 'g', 'e']);
        }
        self.kind == image
    }

    /// The files on disk that belong to this record.
    pub fn files(&self) -> (r: Vec<String>)
        ensures
            r@ == record_files(*self),
    {
        let mut files: Vec<String> = Vec::new();
        if self.is_image() {
            files.push(self.content.clone());
        }
        if let Some(t) = &self.thumb_path {
            files.push(t.clone());
        }
        assert(files@ =~= record_files(*self));
        files
    }
}

/// `r` is the record that an insert with these values creates: not pinned,
/// created and last used at `now`.
pub open spec fn fresh_record(
    r: Record,
    id: i64,
    kind: Seq<char>,
    content: Seq<char>,
    preview: Seq<char>,
    thumb: Option<Seq<char>>,
    now: i64,
) -> bool {
    &&& r.id == id
    &&& r.kind@ == kind
    &&& r.content@ == content
    &&& r.preview@ == preview
    &&& match (r.thumb_path, thumb) {
        (Some(a), Some(b)) => a@ == b,
        (None, None) => true,
        _ => false,
    }
    &&& !r.pinned
    &&& r.created_at == now
    &&& r.last_used_at == now
}

/// The view of an optional string slice.
pub open spec fn opt_view(t: Option<&str>) -> Option<Seq<char>> {
    match t {
        Some(x) => Some(x@),
        None => None,
    }
}

/// The table of records, kept in id order, with the largest id ever handed
/// out (ids are never reused, as with an auto-increment key).
pub struct RecordStore {
    records: Vec<Record>,
    last_id: i64,
}

impl View for RecordStore {
    type V = Seq<Record>;

    closed spec fn view(&self) -> Seq<Record> {
        self.records@
    }
}

impl RecordStore {
    /// The largest id handed out so far (0 before the first insert).
    pub closed spec fn last_id(&self) -> i64 {
        self.last_id
    }

    /// Well-formedness: ids are positive, strictly increasing, and never
    /// above the largest id handed out.
    pub open spec fn wf(&self) -> bool {
        &&& ids_ascending(self@)
        &&& 0 <= self.last_id()
        &&& forall|i: int| 0 <= i < self@.len() ==> 1 <= #[trigger] self@[i].id <= self.last_id()
    }

    /// An empty table.
    pub fn new() -> (s: Self)
        ensures
            s.wf(),
            s@ == Seq::<Record>::empty(),
            s.last_id() == 0,
    {
        RecordStore { records: Vec::new(), last_id: 0 }
    }

    /// Rebuilds a table from rows read back in id order and the largest id
    /// handed out so far; `None` when the rows break the table's rules.
    pub fn restore(rows: Vec<Record>, last_id: i64) -> (r: Option<Self>)
        ensures
            r.is_some() <==> ({
                &&& ids_ascending(rows@)
                &&& 0 <= last_id
                &&& forall|i: int| 0 <= i < rows@.len() ==> 1 <= #[trigger] rows@[i].id <= last_id
            }),
            r matches Some(s) ==> s.wf() && s@ == rows@ && s.last_id() == last_id,
    {
        if last_id < 0 {
            return None;
        }
        let n = rows.len();
        let mut i: usize = 0;
        while i < n
            invariant
                n == rows@.len(),
                i <= n,
                0 <= last_id,
                forall|k: int| 0 <= k < i ==> 1 <= #[trigger] rows@[k].id <= last_id,
                forall|a: int, b: int| 0 <= a < b < i ==> rows@[a].id < rows@[b].id,
            decreases n - i,
        {
            let id = rows[i].id;
            if id < 1 || id > last_id || (i > 0 && rows[i - 1].id >= id) {
                return None;
            }
            i = i + 1;
        }
        Some(RecordStore { records: rows, last_id })
    }

    /// Number of records.
    pub fn len(&self) -> (n: usize)
        ensures
            n == self@.len(),
    {
        self.records.len()
    }

    /// The largest id handed out so far.
    pub fn largest_id(&self) -> (r: i64)
        ensures
            r == self.last_id(),
    {
        self.last_id
    }

    /// The position of the record with id `id`, if any.
    fn position(&self, id: i64) -> (r: Option<usize>)
        requires
            self.wf(),
        ensures
            r matches Some(i) ==> i < self@.len() && self@[i as int].id == id && has_id(self@, id)
                && index_of_id(self@, id) == i,
            r is None ==> !has_id(self@, id),
    {
        let n = self.records.len();
        let mut i: usize = 0;
        while i < n
            invariant
                n == self@.len(),
                i <= n,
                self.wf(),
                forall|k: int| 0 <= k < i ==> self@[k].id != id,
            decreases n - i,
        {
            if self.records[i].id == id {
                assert(has_id(self@, id));
                let ghost j = index_of_id(self@, id);
                assert(self@[j].id == id);
                assert(j == i) by {
                    if j < i {
                        assert(self@[j].id < self@[i as int].id);
                    } else if j > i {
                        assert(self@[i as int].id < self@[j].id);
                    }
                }
                return Some(i);
            }
            i = i + 1;
        }
        None
    }
}

/// The record with id `id`, if any.
pub fn get(store: &RecordStore, id: i64) -> (r: Option<Record>)
    requires
        store.wf(),
    ensures
        r == lookup(store@, id),
{
    match store.position(id) {
        Some(i) => Some(store.records[i].duplicate()),
        None => None,
    }
}

/// Adds a record that is not pinned and was created and last used at `now`;
/// returns its id, one above the largest id handed out before.
pub fn insert(
    store: &mut RecordStore,
    kind: &str,
    content: &str,
    preview: &str,
    thumb_path: Option<&str>,
    now: i64,
) -> (id: i64)
    requires
        old(store).wf(),
        old(store).last_id() < i64::MAX,
    ensures
        final(store).wf(),
        id == old(store).last_id() + 1,
        final(store).last_id() == id,
        final(store)@.len() == old(store)@.len() + 1,
        final(store)@.drop_last() == old(store)@,
        fresh_record(
            final(store)@.last(),
            id,
            kind@,
            content@,
            preview@,
            opt_view(thumb_path),
            now,
        ),
{
    let id = store.last_id + 1;
    let rec = Record {
        id,
        kind: String::from_str(kind),
        content: String::from_str(content),
        preview: String::from_str(preview),
        thumb_path: match thumb_path {
            Some(t) => Some(String::from_str(t)),
            None => None,
        },
        pinned: false,
        created_at: now,
        last_used_at: now,
    };
    store.records.push(rec);
    store.last_id = id;
    assert(store@.drop_last() =~= old(store)@);
    id
}


/// `s` with the record `id` marked as used at `now`.
pub open spec fn touched(s: Seq<Record>, id: i64, now: i64) -> Seq<Record> {
    s.map_values(|r: Record| if r.id == id { Record { last_used_at: now, ..r } } else { r })
}

/// `s` with the record `id` pinned or unpinned.
pub open spec fn with_pin(s: Seq<Record>, id: i64, pinned: bool) -> Seq<Record> {
    s.map_values(|r: Record| if r.id == id { Record { pinned: pinned, ..r } } else { r })
}

/// Pinning or unpinning record `id` changes that record's pin and nothing
/// else: the sequence keeps its length and order, every record with another
/// id stays exactly as it was (its pin included), and the record `id` keeps
/// every field but `pinned`, which becomes the given flag.
pub proof fn law_pin_touches_only_its_record(s: Seq<Record>, id: i64, pinned: bool)
    ensures
        with_pin(s, id, pinned).len() == s.len(),
        forall|k: int|
            0 <= k < s.len() && s[k].id != id ==> #[trigger] with_pin(s, id, pinned)[k] == s[k],
        forall|k: int|
            0 <= k < s.len() && s[k].id == id ==> #[trigger] with_pin(s, id, pinned)[k] == (Record {
                pinned: pinned,
                ..s[k]
            }),
        forall|k: int|
            0 <= k < s.len() ==> (#[trigger] with_pin(s, id, pinned)[k]).pinned == (if s[k].id == id {
                pinned
            } else {
                s[k].pinned
            }),
{
}

/// `s` without the record `id`.
pub open spec fn without_id(s: Seq<Record>, id: i64) -> Seq<Record> {
    if has_id(s, id) {
        s.remove(index_of_id(s, id))
    } else {
        s
    }
}

/// The files of the record `id`, or none when there is no such record.
pub open spec fn files_of_id(s: Seq<Record>, id: i64) -> Seq<String> {
    match lookup(s, id) {
        Some(r) => record_files(r),
        None => Seq::empty(),
    }
}

/// Marks the record `id` as last used at `now`; other records are unchanged,
/// and nothing changes when there is no such record.
pub fn touch(store: &mut RecordStore, id: i64, now: i64)
    requires
        old(store).wf(),
    ensures
        final(store).wf(),
        final(store).last_id() == old(store).last_id(),
        final(store)@ == touched(old(store)@, id, now),
{
    match store.position(id) {
        Some(i) => {
            let mut r = store.records[i].duplicate();
            r.last_used_at = now;
            store.records.set(i, r);
            assert forall|k: int| 0 <= k < store@.len() && k != i implies store@[k].id != id by {
                if k < i {
                    assert(old(store)@[k].id < old(store)@[i as int].id);
                } else {
                    assert(old(store)@[i as int].id < old(store)@[k].id);
                }
            }
        },
        None => {},
    }
    assert(store@ =~= touched(old(store)@, id, now));
}

/// Pins or unpins the record `id`; other records are unchanged, and nothing
/// changes when there is no such record.
pub fn set_pinned(store: &mut RecordStore, id: i64, pinned: bool)
    requires
        old(store).wf(),
    ensures
        final(store).wf(),
        final(store).last_id() == old(store).last_id(),
        final(store)@ == with_pin(old(store)@, id, pinned),
        final(store)@.len() == old(store)@.len(),
        forall|k: int|
            0 <= k < old(store)@.len() && old(store)@[k].id != id ==> #[trigger] final(store)@[k]
                == old(store)@[k],
        forall|k: int|
            0 <= k < old(store)@.len() && old(store)@[k].id == id ==> #[trigger] final(store)@[k]
                == (Record { pinned: pinned, ..old(store)@[k] }),
{
    proof {
        law_pin_touches_only_its_record(old(store)@, id, pinned);
    }
    match store.position(id) {
        Some(i) => {
            let mut r = store.records[i].duplicate();
            r.pinned = pinned;
            store.records.set(i, r);
            assert forall|k: int| 0 <= k < store@.len() && k != i implies store@[k].id != id by {
                if k < i {
                    assert(old(store)@[k].id < old(store)@[i as int].id);
                } else {
                    assert(old(store)@[i as int].id < old(store)@[k].id);
                }
            }
        },
        None => {},
    }
    assert(store@ =~= with_pin(old(store)@, id, pinned));
}

/// Removes the record `id` and returns the files on disk that belonged to it
/// (the image, then the thumbnail), for the caller to clean up.
pub fn delete(store: &mut RecordStore, id: i64) -> (files: Vec<String>)
    requires
        old(store).wf(),
    ensures
        final(store).wf(),
        final(store).last_id() == old(store).last_id(),
        final(store)@ == without_id(old(store)@, id),
        files@ == files_of_id(old(store)@, id),
{
    match store.position(id) {
        Some(i) => {
            let r = store.records.remove(i);
            let files = r.files();
            assert(ids_ascending(store@)) by {
                assert forall|a: int, b: int| 0 <= a < b < store@.len() implies store@[a].id
                    < store@[b].id by {
                    let oa = if a < i { a } else { a + 1 };
                    let ob = if b < i { b } else { b + 1 };
                    assert(store@[a] == old(store)@[oa]);
                    assert(store@[b] == old(store)@[ob]);
                }
            }
            assert forall|k: int| 0 <= k < store@.len() implies 1 <= #[trigger] store@[k].id
                <= store.last_id() by {
                let ok = if k < i { k } else { k + 1 };
                assert(store@[k] == old(store)@[ok]);
            }
            files
        },
        None => Vec::new(),
    }
}

/// Whether the list shows `a` above `b`: pinned records first, then the most
/// recently used, and among records used at the same moment the older id.
pub open spec fn shown_before(a: Record, b: Record) -> bool {
    ||| (a.pinned && !b.pinned)
    ||| (a.pinned == b.pinned && a.last_used_at > b.last_used_at)
    ||| (a.pinned == b.pinned && a.last_used_at == b.last_used_at && a.id < b.id)
}

/// Every record of `s` is shown above every later one.
pub open spec fn in_display_order(s: Seq<Record>) -> bool {
    forall|i: int, j: int| 0 <= i < j < s.len() ==> shown_before(s[i], s[j])
}

fn shows_before(a: &Record, b: &Record) -> (r: bool)
    ensures
        r == shown_before(*a, *b),
{
    (a.pinned && !b.pinned) || (a.pinned == b.pinned && a.last_used_at > b.last_used_at) || (
    a.pinned == b.pinned && a.last_used_at == b.last_used_at && a.id < b.id)
}

/// All records in display order: pinned ones first, then by most recent use.
/// The result holds exactly the records of the table.
pub fn list(store: &RecordStore) -> (r: Vec<Record>)
    requires
        store.wf(),
    ensures
        r@.len() == store@.len(),
        in_display_order(r@),
        forall|i: int| 0 <= i < r@.len() ==> store@.contains(#[trigger] r@[i]),
        forall|i: int| 0 <= i < store@.len() ==> r@.contains(#[trigger] store@[i]),
{
    let s = &store.records;
    let n = s.len();
    let mut out: Vec<Record> = Vec::new();
    let mut i: usize = 0;
    while i < n
        invariant
            n == s@.len(),
            s@ == store@,
            store.wf(),
            i <= n,
            out@.len() == i,
            in_display_order(out@),
            forall|m: int| 0 <= m < out@.len() ==> s@.subrange(0, i as int).contains(#[trigger] out@[m]),
            forall|k: int| 0 <= k < i ==> out@.contains(#[trigger] s@[k]),
        decreases n - i,
    {
        let x = s[i].duplicate();
        assert forall|m: int| 0 <= m < out@.len() implies #[trigger] out@[m].id < x.id by {
            assert(s@.subrange(0, i as int).contains(out@[m]));
            let k = choose|k: int| 0 <= k < i && s@.subrange(0, i as int)[k] == out@[m];
            assert(s@[k] == out@[m]);
        }
        let mut p: usize = 0;
        while p < out.len() && !shows_before(&x, &out[p])
            invariant
                p <= out@.len(),
                forall|m: int| 0 <= m < p ==> !shown_before(x, #[trigger] out@[m]),
            decreases out@.len() - p,
        {
            p = p + 1;
        }
        let ghost before = out@;
        out.insert(p, x);
        assert(out@ == before.insert(p as int, x));
        assert forall|a: int, b: int| 0 <= a < b < out@.len() implies shown_before(
            out@[a],
            out@[b],
        ) by {
            if a < p && b < p {
                assert(out@[a] == before[a] && out@[b] == before[b]);
            } else if a < p && b == p {
                assert(out@[a] == before[a]);
                assert(!shown_before(x, before[a]));
                assert(before[a].id < x.id);
            } else if a < p && b > p {
                assert(out@[a] == before[a] && out@[b] == before[b - 1]);
            } else if a == p {
                assert(out@[b] == before[b - 1]);
                assert(shown_before(x, before[p as int]));
                if b - 1 > p {
                    assert(shown_before(before[p as int], before[b - 1]));
                }
            } else {
                assert(out@[a] == before[a - 1] && out@[b] == before[b - 1]);
            }
        }
        assert forall|m: int| 0 <= m < out@.len() implies s@.subrange(0, i + 1).contains(
            #[trigger] out@[m],
        ) by {
            if m == p {
                assert(s@.subrange(0, i + 1)[i as int] == x);
            } else {
                let om = if m < p { m } else { m - 1 };
                assert(out@[m] == before[om]);
                assert(s@.subrange(0, i as int).contains(before[om]));
                let k = choose|k: int| 0 <= k < i && s@.subrange(0, i as int)[k] == before[om];
                assert(s@.subrange(0, i + 1)[k] == before[om]);
            }
        }
        assert forall|k: int| 0 <= k < i + 1 implies out@.contains(#[trigger] s@[k]) by {
            if k == i {
                assert(out@[p as int] == s@[k]);
            } else {
                assert(before.contains(s@[k]));
                let m = choose|m: int| 0 <= m < before.len() && before[m] == s@[k];
                if m < p {
                    assert(out@[m] == s@[k]);
                } else {
                    assert(out@[m + 1] == s@[k]);
                }
            }
        }
        i = i + 1;
    }
    assert(s@.subrange(0, n as int) =~= s@);
    out
}


/// The files of all of `rs`, in order.
pub fn files_of_records(rs: &Vec<Record>) -> (files: Vec<String>)
    ensures
        files@ == files_of_all(rs@),
{
    let mut files: Vec<String> = Vec::new();
    let mut k: usize = 0;
    while k < rs.len()
        invariant
            k <= rs@.len(),
            files@ == files_of_all(rs@.take(k as int)),
        decreases rs@.len() - k,
    {
        let ghost prev = files@;
        let r = &rs[k];
        if r.is_image() {
            files.push(r.content.clone());
        }
        if let Some(t) = &r.thumb_path {
            files.push(t.clone());
        }
        assert(rs@.take(k + 1).drop_last() =~= rs@.take(k as int));
        assert(files@ =~= prev + record_files(rs@[k as int]));
        k = k + 1;
    }
    assert(rs@.take(rs@.len() as int) =~= rs@);
    files
}

/// Splits `s` into the records that satisfy `pred` and those that do not,
/// keeping the order; `keep[i]` tells whether `s[i]` satisfies `pred`.
fn split_by(s: &Vec<Record>, keep: &Vec<bool>, Ghost(pred): Ghost<spec_fn(Record) -> bool>) -> (r: (
    Vec<Record>,
    Vec<Record>,
))
    requires
        keep@.len() == s@.len(),
        forall|i: int| 0 <= i < s@.len() ==> keep@[i] == pred(#[trigger] s@[i]),
        ids_ascending(s@),
    ensures
        r.0@ == s@.filter(pred),
        r.1@ == s@.filter(|x: Record| !pred(x)),
        ids_ascending(r.0@),
        ids_ascending(r.1@),
        r.0@.len() + r.1@.len() == s@.len(),
        forall|m: int| 0 <= m < r.0@.len() ==> s@.contains(#[trigger] r.0@[m]),
        forall|m: int| 0 <= m < r.1@.len() ==> s@.contains(#[trigger] r.1@[m]),
{
    let n = s.len();
    let mut kept: Vec<Record> = Vec::new();
    let mut dropped: Vec<Record> = Vec::new();
    let mut i: usize = 0;
    while i < n
        invariant
            n == s@.len(),
            keep@.len() == n,
            i <= n,
            forall|i: int| 0 <= i < s@.len() ==> keep@[i] == pred(#[trigger] s@[i]),
            ids_ascending(s@),
            kept@ == s@.take(i as int).filter(pred),
            dropped@ == s@.take(i as int).filter(|x: Record| !pred(x)),
            ids_ascending(kept@),
            forall|m: int, k: int| 0 <= m < kept@.len() && i <= k < n ==> #[trigger] kept@[m].id
                < #[trigger] s@[k].id,
            forall|m: int| 0 <= m < kept@.len() ==> s@.contains(#[trigger] kept@[m]),
            ids_ascending(dropped@),
            forall|m: int, k: int| 0 <= m < dropped@.len() && i <= k < n ==> #[trigger] dropped@[m].id
                < #[trigger] s@[k].id,
            forall|m: int| 0 <= m < dropped@.len() ==> s@.contains(#[trigger] dropped@[m]),
            kept@.len() + dropped@.len() == i,
        decreases n - i,
    {
        proof {
            reveal(Seq::filter);
            assert(s@.take(i + 1).drop_last() =~= s@.take(i as int));
            assert(s@.take(i + 1).last() == s@[i as int]);
        }
        let r = s[i].duplicate();
        if keep[i] {
            kept.push(r);
            assert forall|m: int, k: int| 0 <= m < kept@.len() && i + 1 <= k < n implies #[trigger] kept@[m].id
                < #[trigger] s@[k].id by {
                if m < kept@.len() - 1 {
                    assert(kept@[m].id < s@[i as int].id);
                }
            }
        } else {
            dropped.push(r);
            assert forall|m: int, k: int| 0 <= m < dropped@.len() && i + 1 <= k < n implies #[trigger] dropped@[m].id
                < #[trigger] s@[k].id by {
                if m < dropped@.len() - 1 {
                    assert(dropped@[m].id < s@[i as int].id);
                }
            }
        }
        i = i + 1;
    }
    assert(s@.take(n as int) =~= s@);
    (kept, dropped)
}

/// How many records a trim down to `max` has to remove (before counting
/// how many of them may be removed at all). A table with more records than
/// `u32` can count is treated as holding none.
pub open spec fn overflow_of(n: nat, max: u32) -> int {
    let count: int = if n <= u32::MAX { n as int } else { 0 };
    if count > max {
        count - max
    } else {
        0
    }
}

/// Whether a trim removes `a` before `b`: least recently used first, and
/// among records used at the same moment the older id first.
pub open spec fn evicted_before(a: Record, b: Record) -> bool {
    ||| a.last_used_at < b.last_used_at
    ||| (a.last_used_at == b.last_used_at && a.id < b.id)
}

/// `plan` is the list of records that a trim of `s` down to `max` removes,
/// in removal order: unpinned records only, least recently used first, as
/// many as the overflow or all unpinned records when there are fewer.
pub open spec fn is_trim_plan(s: Seq<Record>, max: u32, plan: Seq<Record>) -> bool {
    &&& plan.len() <= overflow_of(s.len(), max)
    &&& forall|k: int| 0 <= k < plan.len() ==> s.contains(#[trigger] plan[k])
    &&& forall|k: int| 0 <= k < plan.len() ==> !(#[trigger] plan[k]).pinned
    &&& forall|a: int, b: int| 0 <= a < b < plan.len() ==> evicted_before(plan[a], plan[b])
    &&& forall|r: Record, k: int|
        #![trigger s.contains(r), plan[k]]
        s.contains(r) && !r.pinned && !plan.contains(r) && 0 <= k < plan.len() ==> evicted_before(
            plan[k],
            r,
        )
    &&& plan.len() < overflow_of(s.len(), max) ==> forall|r: Record|
        #[trigger] s.contains(r) && !r.pinned ==> plan.contains(r)
}

/// The index of the unpinned record that a trim removes next after `after`.
fn next_victim(s: &Vec<Record>, after: Option<&Record>) -> (r: Option<usize>)
    requires
        ids_ascending(s@),
    ensures
        r matches Some(i) ==> {
            &&& i < s@.len()
            &&& !s@[i as int].pinned
            &&& (after matches Some(a) ==> evicted_before(*a, s@[i as int]))
            &&& forall|j: int|
                0 <= j < s@.len() && j != i && !s@[j].pinned && (after matches Some(a)
                    ==> evicted_before(*a, s@[j])) ==> evicted_before(s@[i as int], #[trigger] s@[j])
        },
        r is None ==> forall|j: int|
            0 <= j < s@.len() && !(#[trigger] s@[j]).pinned ==> (after matches Some(a)
                && !evicted_before(*a, s@[j])),
{
    let n = s.len();
    let mut best: Option<usize> = None;
    let mut j: usize = 0;
    while j < n
        invariant
            n == s@.len(),
            j <= n,
            ids_ascending(s@),
            best matches Some(b) ==> {
                &&& b < j
                &&& !s@[b as int].pinned
                &&& (after matches Some(a) ==> evicted_before(*a, s@[b as int]))
                &&& forall|m: int|
                    0 <= m < j && m != b && !s@[m].pinned && (after matches Some(a)
                        ==> evicted_before(*a, s@[m])) ==> evicted_before(
                        s@[b as int],
                        #[trigger] s@[m],
                    )
            },
            best is None ==> forall|m: int|
                0 <= m < j && !(#[trigger] s@[m]).pinned ==> (after matches Some(a)
                    && !evicted_before(*a, s@[m])),
        decreases n - j,
    {
        let c = &s[j];
        let eligible = !c.pinned && match after {
            Some(a) => a.last_used_at < c.last_used_at || (a.last_used_at == c.last_used_at && a.id
                < c.id),
            None => true,
        };
        if eligible {
            match best {
                None => {
                    best = Some(j);
                },
                Some(b) => {
                    let cur = &s[b];
                    if c.last_used_at < cur.last_used_at || (c.last_used_at == cur.last_used_at
                        && c.id < cur.id) {
                        assert(s@[b as int].id < s@[j as int].id);
                        best = Some(j);
                    } else {
                        assert(s@[b as int].id < s@[j as int].id);
                    }
                },
            }
        }
        j = j + 1;
    }
    best
}

/// The records that `trim(store, max)` removes, in removal order.
pub fn trim_plan(store: &RecordStore, max: u32) -> (plan: Vec<Record>)
    requires
        store.wf(),
    ensures
        is_trim_plan(store@, max, plan@),
{
    let s = &store.records;
    let n = s.len();
    let count: u32 = if n <= 4294967295usize {
        n as u32
    } else {
        0
    };
    let mut plan: Vec<Record> = Vec::new();
    if count <= max {
        return plan;
    }
    let overflow: usize = (count - max) as usize;
    assert(overflow == overflow_of(s@.len(), max));
    let mut exhausted = false;
    while !exhausted && plan.len() < overflow
        invariant
            s@ == store@,
            store.wf(),
            overflow == overflow_of(s@.len(), max),
            plan@.len() <= overflow,
            forall|k: int| 0 <= k < plan@.len() ==> s@.contains(#[trigger] plan@[k]),
            forall|k: int| 0 <= k < plan@.len() ==> !(#[trigger] plan@[k]).pinned,
            forall|a: int, b: int|
                0 <= a < b < plan@.len() ==> evicted_before(plan@[a], plan@[b]),
            forall|r: Record, k: int|
                #![trigger s@.contains(r), plan@[k]]
                s@.contains(r) && !r.pinned && !plan@.contains(r) && 0 <= k < plan@.len()
                    ==> evicted_before(plan@[k], r),
            exhausted ==> forall|r: Record| #[trigger] s@.contains(r) && !r.pinned ==> plan@.contains(r),
        decreases overflow - plan@.len(), (if exhausted { 0int } else { 1int }),
    {
        let last: Option<&Record> = if plan.len() == 0 {
            None
        } else {
            Some(&plan[plan.len() - 1])
        };
        match next_victim(s, last) {
            None => {
                assert forall|r: Record| #[trigger] s@.contains(r) && !r.pinned implies plan@.contains(r) by {
                    let j = choose|j: int| 0 <= j < s@.len() && s@[j] == r;
                    assert(!s@[j].pinned);
                    if !plan@.contains(r) && plan@.len() > 0 {
                        assert(evicted_before(plan@[plan@.len() - 1], r));
                    }
                }
                exhausted = true;
            },
            Some(i) => {
                let v = s[i].duplicate();
                let ghost old_plan = plan@;
                proof {
                    assert forall|k: int| 0 <= k < old_plan.len() implies evicted_before(#[trigger] old_plan[k], v) by {
                        let l = old_plan.len() - 1;
                        if k < l {
                            assert(evicted_before(old_plan[k], old_plan[l]));
                        }
                    }
                    assert(!old_plan.contains(v)) by {
                        if old_plan.contains(v) {
                            let k = choose|k: int| 0 <= k < old_plan.len() && old_plan[k] == v;
                            assert(evicted_before(old_plan[k], v));
                        }
                    }
                }
                plan.push(v);
                assert(s@.contains(v));
                assert forall|r: Record, k: int|
                    #![trigger s@.contains(r), plan@[k]]
                    s@.contains(r) && !r.pinned && !plan@.contains(r) && 0 <= k < plan@.len()
                        implies evicted_before(plan@[k], r) by {
                    assert(!old_plan.contains(r)) by {
                        if old_plan.contains(r) {
                            let m = choose|m: int| 0 <= m < old_plan.len() && old_plan[m] == r;
                            assert(plan@[m] == r);
                        }
                    }
                    assert(r != v) by {
                        assert(plan@[plan@.len() - 1] == v);
                    }
                    let j = choose|j: int| 0 <= j < s@.len() && s@[j] == r;
                    assert(j != i);
                    if old_plan.len() > 0 {
                        assert(evicted_before(old_plan[old_plan.len() - 1], r));
                    }
                    assert(evicted_before(v, s@[j]));
                    if k < old_plan.len() {
                        assert(plan@[k] == old_plan[k]);
                        assert(evicted_before(old_plan[k], r));
                    }
                }
            },
        }
    }
    plan
}


fn contains_id(rs: &Vec<Record>, id: i64) -> (r: bool)
    ensures
        r == exists|k: int| 0 <= k < rs@.len() && (#[trigger] rs@[k]).id == id,
{
    let mut k: usize = 0;
    while k < rs.len()
        invariant
            k <= rs@.len(),
            forall|m: int| 0 <= m < k ==> (#[trigger] rs@[m]).id != id,
        decreases rs@.len() - k,
    {
        if rs[k].id == id {
            return true;
        }
        k = k + 1;
    }
    false
}

/// Replaces the table with the records that satisfy `pred`, where `keep[i]`
/// tells whether record `i` does; returns the records removed, in order.
fn retain_where(
    store: &mut RecordStore,
    keep: &Vec<bool>,
    Ghost(pred): Ghost<spec_fn(Record) -> bool>,
) -> (removed: Vec<Record>)
    requires
        old(store).wf(),
        keep@.len() == old(store)@.len(),
        forall|i: int| 0 <= i < old(store)@.len() ==> keep@[i] == pred(#[trigger] old(store)@[i]),
    ensures
        final(store).wf(),
        final(store).last_id() == old(store).last_id(),
        final(store)@ == old(store)@.filter(pred),
        removed@ == old(store)@.filter(|x: Record| !pred(x)),
        ids_ascending(removed@),
        final(store)@.len() + removed@.len() == old(store)@.len(),
        forall|m: int| 0 <= m < removed@.len() ==> old(store)@.contains(#[trigger] removed@[m]),
{
    let (kept, removed) = split_by(&store.records, keep, Ghost(pred));
    let ghost before = store@;
    store.records = kept;
    assert forall|i: int| 0 <= i < store@.len() implies 1 <= #[trigger] store@[i].id
        <= store.last_id() by {
        assert(before.contains(store@[i]));
        let j = choose|j: int| 0 <= j < before.len() && before[j] == store@[i];
        assert(1 <= before[j].id);
    }
    removed
}

/// `after` and `files` are what a trim of `before` down to `max` leaves and
/// returns: the records of the removal plan are gone, and their files come
/// back in removal order.
pub open spec fn trimmed_to(before: Seq<Record>, max: u32, after: Seq<Record>, files: Seq<String>) -> bool {
    exists|plan: Seq<Record>|
        {
            &&& is_trim_plan(before, max, plan)
            &&& after == before.filter(|r: Record| !plan.contains(r))
            &&& after.len() == before.len() - plan.len()
            &&& files == files_of_all(plan)
        }
}

/// `after` and `files` are what inserting a record with these values into
/// `before` and then trimming down to `max` leaves and returns.
pub open spec fn inserted_then_trimmed(
    before: Seq<Record>,
    max: u32,
    after: Seq<Record>,
    files: Seq<String>,
    id: i64,
    kind: Seq<char>,
    content: Seq<char>,
    preview: Seq<char>,
    thumb: Option<Seq<char>>,
    now: i64,
) -> bool {
    exists|rec: Record|
        {
            &&& fresh_record(rec, id, kind, content, preview, thumb, now)
            &&& trimmed_to(before.push(rec), max, after, files)
        }
}

/// When the table holds more than `max` records, removes the least recently
/// used unpinned records until it holds `max` or no unpinned record is left;
/// pinned records are never removed. Returns the files on disk of the removed
/// records, in removal order.
pub fn trim(store: &mut RecordStore, max: u32) -> (files: Vec<String>)
    requires
        old(store).wf(),
    ensures
        final(store).wf(),
        final(store).last_id() == old(store).last_id(),
        trimmed_to(old(store)@, max, final(store)@, files@),
{
    let plan = trim_plan(store, max);
    let files = files_of_records(&plan);
    let n = store.records.len();
    let mut keep: Vec<bool> = Vec::new();
    let mut i: usize = 0;
    while i < n
        invariant
            n == store@.len(),
            store.wf(),
            is_trim_plan(store@, max, plan@),
            i <= n,
            keep@.len() == i,
            forall|k: int| 0 <= k < i ==> keep@[k] == !plan@.contains(#[trigger] store@[k]),
        decreases n - i,
    {
        let found = contains_id(&plan, store.records[i].id);
        proof {
            let r = store@[i as int];
            if found {
                let k = choose|k: int| 0 <= k < plan@.len() && (#[trigger] plan@[k]).id == r.id;
                assert(store@.contains(plan@[k]));
                let j = choose|j: int| 0 <= j < store@.len() && store@[j] == plan@[k];
                if j < i {
                    assert(store@[j].id < store@[i as int].id);
                } else if j > i {
                    assert(store@[i as int].id < store@[j].id);
                }
                assert(plan@.contains(r));
            } else {
                if plan@.contains(r) {
                    let k = choose|k: int| 0 <= k < plan@.len() && plan@[k] == r;
                    assert(plan@[k].id == r.id);
                }
            }
        }
        keep.push(!found);
        i = i + 1;
    }
    let ghost pred = |r: Record| !plan@.contains(r);
    let removed = retain_where(store, &keep, Ghost(pred));
    assert(store@ == old(store)@.filter(|r: Record| !plan@.contains(r)));
    proof {
        let ghost s0 = old(store)@;
        reveal(Seq::filter);
        assert(removed@.len() == plan@.len()) by {
            assert forall|m: int| 0 <= m < removed@.len() implies plan@.contains(
                #[trigger] removed@[m],
            ) by {
                assert(s0.filter(|x: Record| !pred(x))[m] == removed@[m]);
                s0.lemma_filter_pred(|x: Record| !pred(x), m);
            }
            assert forall|k: int| 0 <= k < plan@.len() implies removed@.contains(
                #[trigger] plan@[k],
            ) by {
                assert(s0.contains(plan@[k]));
                let j = choose|j: int| 0 <= j < s0.len() && s0[j] == plan@[k];
                s0.lemma_filter_contains(|x: Record| !pred(x), j);
            }
            assert(removed@.to_set() =~= plan@.to_set()) by {
                assert forall|x: Record| removed@.to_set().contains(x) implies plan@.to_set().contains(x) by {
                    let m = choose|m: int| 0 <= m < removed@.len() && removed@[m] == x;
                }
                assert forall|x: Record| plan@.to_set().contains(x) implies removed@.to_set().contains(x) by {
                    let k = choose|k: int| 0 <= k < plan@.len() && plan@[k] == x;
                }
            }
            assert(removed@.no_duplicates()) by {
                assert forall|a: int, b: int| 0 <= a < removed@.len() && 0 <= b < removed@.len() && a != b implies removed@[a] != removed@[b] by {
                    if a < b {
                        assert(removed@[a].id < removed@[b].id);
                    } else {
                        assert(removed@[b].id < removed@[a].id);
                    }
                }
            }
            assert(plan@.no_duplicates()) by {
                assert forall|a: int, b: int| 0 <= a < plan@.len() && 0 <= b < plan@.len() && a != b implies plan@[a] != plan@[b] by {
                    if a < b {
                        assert(evicted_before(plan@[a], plan@[b]));
                    } else {
                        assert(evicted_before(plan@[b], plan@[a]));
                    }
                }
            }
            removed@.unique_seq_to_set();
            plan@.unique_seq_to_set();
        }
    }
    assert(trimmed_to(old(store)@, max, store@, files@));
    files
}

/// What clearing `s` leaves: the pinned records when `keep_pinned` holds,
/// else nothing.
pub open spec fn after_clear(s: Seq<Record>, keep_pinned: bool) -> Seq<Record> {
    s.filter(|r: Record| keep_pinned && r.pinned)
}

/// The files of the records that clearing `s` removes, in table order.
pub open spec fn cleared_files(s: Seq<Record>, keep_pinned: bool) -> Seq<String> {
    files_of_all(s.filter(|r: Record| !(keep_pinned && r.pinned)))
}

/// Removes every record, or every unpinned record when `keep_pinned` holds;
/// returns the files on disk of the removed records, in table order.
pub fn clear_all(store: &mut RecordStore, keep_pinned: bool) -> (files: Vec<String>)
    requires
        old(store).wf(),
    ensures
        final(store).wf(),
        final(store).last_id() == old(store).last_id(),
        final(store)@ == after_clear(old(store)@, keep_pinned),
        files@ == cleared_files(old(store)@, keep_pinned),
{
    let n = store.records.len();
    let mut keep: Vec<bool> = Vec::new();
    let mut i: usize = 0;
    while i < n
        invariant
            n == store@.len(),
            i <= n,
            keep@.len() == i,
            forall|k: int| 0 <= k < i ==> keep@[k] == (keep_pinned && (#[trigger] store@[k]).pinned),
        decreases n - i,
    {
        keep.push(keep_pinned && store.records[i].pinned);
        i = i + 1;
    }
    let ghost pred = |r: Record| keep_pinned && r.pinned;
    let removed = retain_where(store, &keep, Ghost(pred));
    assert((|x: Record| !pred(x)) =~= (|r: Record| !(keep_pinned && r.pinned)));
    files_of_records(&removed)
}


/// Reading a record back right after inserting it gives that record, and
/// the other ids read as before.
pub proof fn law_insert_then_get(s: Seq<Record>, r: Record)
    requires
        ids_ascending(s),
        forall|i: int| 0 <= i < s.len() ==> (#[trigger] s[i]).id < r.id,
    ensures
        lookup(s.push(r), r.id) == Some(r),
        forall|id: i64| id != r.id ==> lookup(s.push(r), id) == #[trigger] lookup(s, id),
{
    let t = s.push(r);
    assert(t[s.len() as int] == r);
    assert(has_id(t, r.id));
    let j = index_of_id(t, r.id);
    if j < s.len() {
        assert(t[j] == s[j]);
    }
    assert forall|id: i64| id != r.id implies lookup(t, id) == #[trigger] lookup(s, id) by {
        if has_id(s, id) {
            let i = index_of_id(s, id);
            assert(t[i] == s[i]);
            assert(has_id(t, id));
            let k = index_of_id(t, id);
            assert(k < s.len());
            assert(t[k] == s[k]);
            if k < i {
                assert(s[k].id < s[i].id);
            } else if k > i {
                assert(s[i].id < s[k].id);
            }
        } else {
            if has_id(t, id) {
                let k = index_of_id(t, id);
                assert(k < s.len());
                assert(t[k] == s[k]);
            }
        }
    }
}

/// After a delete, the id reads as absent and every other id reads as before.
pub proof fn law_delete_then_get(s: Seq<Record>, id: i64)
    requires
        ids_ascending(s),
    ensures
        lookup(without_id(s, id), id) is None,
        forall|other: i64| other != id ==> lookup(without_id(s, id), other) == #[trigger] lookup(s, other),
{
    if has_id(s, id) {
        let i = index_of_id(s, id);
        let t = s.remove(i);
        assert forall|k: int| 0 <= k < t.len() implies (#[trigger] t[k]).id != id by {
            if k < i {
                assert(t[k] == s[k]);
                assert(s[k].id < s[i].id);
            } else {
                assert(t[k] == s[k + 1]);
                assert(s[i].id < s[k + 1].id);
            }
        }
        assert forall|other: i64| other != id implies lookup(t, other) == #[trigger] lookup(s, other) by {
            if has_id(s, other) {
                let a = index_of_id(s, other);
                assert(a != i);
                let ta = if a < i { a } else { a - 1 };
                assert(t[ta] == s[a]);
                assert(has_id(t, other));
                let b = index_of_id(t, other);
                let sb = if b < i { b } else { b + 1 };
                assert(t[b] == s[sb]);
                if sb < a {
                    assert(s[sb].id < s[a].id);
                } else if sb > a {
                    assert(s[a].id < s[sb].id);
                }
            } else if has_id(t, other) {
                let b = index_of_id(t, other);
                let sb = if b < i { b } else { b + 1 };
                assert(t[b] == s[sb]);
            }
        }
    }
}

/// Ids are never reused: the next insert's id is above every id in the
/// table, as every id in it is at most the largest id handed out.
pub proof fn law_next_id_is_fresh(store: RecordStore)
    requires
        store.wf(),
    ensures
        forall|i: int| 0 <= i < store@.len() ==> (#[trigger] store@[i]).id < store.last_id() + 1,
{
}

/// `shown_before` is a strict order: never both ways.
pub proof fn law_shown_before_asymmetric(a: Record, b: Record)
    ensures
        !(shown_before(a, b) && shown_before(b, a)),
{
}

/// In the list, a record that is shown before another sits above it; in
/// particular every pinned record sits above every unpinned one.
pub proof fn law_list_positions(l: Seq<Record>, i: int, j: int)
    requires
        in_display_order(l),
        0 <= i < l.len(),
        0 <= j < l.len(),
        shown_before(l[i], l[j]),
    ensures
        i < j,
{
    if j < i {
        assert(shown_before(l[j], l[i]));
    } else if i == j {
        assert(!shown_before(l[i], l[i]));
    }
}

/// Touching a record at a moment later than every other record's last use
/// moves it above every other record with the same pin state.
pub proof fn law_touch_moves_to_top(s: Seq<Record>, id: i64, now: i64)
    requires
        ids_ascending(s),
        forall|i: int| 0 <= i < s.len() && (#[trigger] s[i]).id != id ==> s[i].last_used_at < now,
    ensures
        forall|i: int, j: int|
            0 <= i < s.len() && 0 <= j < s.len() && (#[trigger] touched(s, id, now)[i]).id == id
                && (#[trigger] touched(s, id, now)[j]).id != id && touched(s, id, now)[j].pinned
                == touched(s, id, now)[i].pinned ==> shown_before(
                touched(s, id, now)[i],
                touched(s, id, now)[j],
            ),
        forall|k: int|
            0 <= k < s.len() ==> {
                let t = #[trigger] touched(s, id, now)[k];
                &&& t.id == s[k].id
                &&& t.kind == s[k].kind
                &&& t.content == s[k].content
                &&& t.preview == s[k].preview
                &&& t.thumb_path == s[k].thumb_path
                &&& t.pinned == s[k].pinned
                &&& t.created_at == s[k].created_at
                &&& t.last_used_at == (if s[k].id == id { now } else { s[k].last_used_at })
            },
{
}

/// No pinned record is ever removed by a trim.
pub proof fn law_trim_keeps_pinned(s: Seq<Record>, max: u32, plan: Seq<Record>, kept: Seq<Record>)
    requires
        is_trim_plan(s, max, plan),
        kept == s.filter(|x: Record| !plan.contains(x)),
    ensures
        forall|r: Record| s.contains(r) && r.pinned ==> #[trigger] kept.contains(r),
{
    assert forall|r: Record| s.contains(r) && r.pinned implies #[trigger] kept.contains(r) by {
        let i = choose|i: int| 0 <= i < s.len() && s[i] == r;
        if plan.contains(r) {
            let k = choose|k: int| 0 <= k < plan.len() && plan[k] == r;
            assert(!plan[k].pinned);
        }
        s.lemma_filter_contains(|x: Record| !plan.contains(x), i);
    }
}

/// A trim removes least recently used records first: every removed record
/// was last used no later than every unpinned record that stays.
pub proof fn law_trim_removes_least_recent(
    s: Seq<Record>,
    max: u32,
    plan: Seq<Record>,
    kept: Seq<Record>,
)
    requires
        is_trim_plan(s, max, plan),
        kept == s.filter(|x: Record| !plan.contains(x)),
    ensures
        forall|k: int, r: Record|
            0 <= k < plan.len() && #[trigger] kept.contains(r) && !r.pinned ==> (
            #[trigger] plan[k]).last_used_at <= r.last_used_at,
{
    assert forall|k: int, r: Record|
        0 <= k < plan.len() && #[trigger] kept.contains(r) && !r.pinned implies (
        #[trigger] plan[k]).last_used_at <= r.last_used_at by {
        let m = choose|m: int| 0 <= m < kept.len() && kept[m] == r;
        lemma_filter_member(s, |x: Record| !plan.contains(x), m);
        assert(s.contains(r));
        assert(evicted_before(plan[k], r));
    }
}

/// Every element of a filtered sequence comes from the sequence.
proof fn lemma_filter_member(s: Seq<Record>, pred: spec_fn(Record) -> bool, m: int)
    requires
        0 <= m < s.filter(pred).len(),
    ensures
        s.contains(s.filter(pred)[m]),
        pred(s.filter(pred)[m]),
    decreases s.len(),
{
    reveal(Seq::filter);
    let sub = s.drop_last().filter(pred);
    if m < sub.len() {
        lemma_filter_member(s.drop_last(), pred, m);
        if pred(s.last()) {
            assert(s.filter(pred)[m] == sub[m]);
        }
        let j = choose|j: int| 0 <= j < s.drop_last().len() && s.drop_last()[j] == sub[m];
        assert(s[j] == sub[m]);
    } else {
        assert(s[s.len() - 1] == s.filter(pred)[m]);
    }
}

/// After a trim to `max`, the table holds at most `max` records, unless every
/// record left is pinned.
pub proof fn law_trim_respects_limit(s: Seq<Record>, max: u32, plan: Seq<Record>, kept: Seq<Record>)
    requires
        s.len() <= u32::MAX,
        is_trim_plan(s, max, plan),
        kept == s.filter(|x: Record| !plan.contains(x)),
        kept.len() == s.len() - plan.len(),
    ensures
        kept.len() <= max || forall|i: int| 0 <= i < kept.len() ==> (#[trigger] kept[i]).pinned,
{
    if plan.len() < overflow_of(s.len(), max) {
        assert forall|i: int| 0 <= i < kept.len() implies (#[trigger] kept[i]).pinned by {
            lemma_filter_member(s, |x: Record| !plan.contains(x), i);
        }
    }
}

proof fn lemma_plans_agree_upto(s: Seq<Record>, max: u32, p1: Seq<Record>, p2: Seq<Record>, k: int)
    requires
        ids_ascending(s),
        is_trim_plan(s, max, p1),
        is_trim_plan(s, max, p2),
        0 <= k <= p1.len(),
        k <= p2.len(),
    ensures
        forall|m: int| 0 <= m < k ==> p1[m] == p2[m],
    decreases k,
{
    if k > 0 {
        lemma_plans_agree_upto(s, max, p1, p2, k - 1);
        let m = k - 1;
        let a = p1[m];
        let b = p2[m];
        assert(s.contains(a));
        assert(s.contains(b));
        if a != b {
            // Each plan holds the other's m-th record at a later position, or not at all.
            if p2.contains(a) {
                let j = choose|j: int| 0 <= j < p2.len() && p2[j] == a;
                if j < m {
                    assert(p1[j] == p2[j]);
                    assert(evicted_before(p1[j], p1[m]));
                }
                assert(j > m);
                assert(evicted_before(b, a));
            } else {
                assert(evicted_before(p2[m], a));
            }
            if p1.contains(b) {
                let j = choose|j: int| 0 <= j < p1.len() && p1[j] == b;
                if j < m {
                    assert(p1[j] == p2[j]);
                    assert(evicted_before(p2[j], p2[m]));
                }
                assert(j > m);
                assert(evicted_before(a, b));
            } else {
                assert(evicted_before(p1[m], b));
            }
        }
    }
}

/// A trim's removal list is determined by the table and the limit.
pub proof fn law_trim_plan_unique(s: Seq<Record>, max: u32, p1: Seq<Record>, p2: Seq<Record>)
    requires
        ids_ascending(s),
        is_trim_plan(s, max, p1),
        is_trim_plan(s, max, p2),
    ensures
        p1 == p2,
{
    if p1.len() <= p2.len() {
        lemma_plans_agree_upto(s, max, p1, p2, p1.len() as int);
        if p1.len() < p2.len() {
            let b = p2[p1.len() as int];
            assert(s.contains(b) && !b.pinned);
            assert(p1.contains(b));
            let j = choose|j: int| 0 <= j < p1.len() && p1[j] == b;
            assert(p2[j] == b);
            assert(evicted_before(p2[j], p2[p1.len() as int]));
        }
    } else {
        lemma_plans_agree_upto(s, max, p1, p2, p2.len() as int);
        let a = p1[p2.len() as int];
        assert(s.contains(a) && !a.pinned);
        assert(p2.contains(a));
        let j = choose|j: int| 0 <= j < p2.len() && p2[j] == a;
        assert(p1[j] == a);
        assert(evicted_before(p1[j], p1[p2.len() as int]));
    }
    assert(p1 =~= p2);
}

/// Clearing with `keep_pinned` leaves exactly the pinned records, and
/// clearing without it leaves nothing.
pub proof fn law_clear_all(s: Seq<Record>, keep_pinned: bool, kept: Seq<Record>)
    requires
        kept == after_clear(s, keep_pinned),
    ensures
        forall|r: Record| #[trigger] kept.contains(r) <==> (keep_pinned && s.contains(r) && r.pinned),
        !keep_pinned ==> kept.len() == 0,
{
    let pred = |x: Record| keep_pinned && x.pinned;
    assert forall|r: Record| #[trigger] kept.contains(r) <==> (keep_pinned && s.contains(r)
        && r.pinned) by {
        if kept.contains(r) {
            let m = choose|m: int| 0 <= m < kept.len() && kept[m] == r;
            lemma_filter_member(s, pred, m);
        }
        if keep_pinned && s.contains(r) && r.pinned {
            let i = choose|i: int| 0 <= i < s.len() && s[i] == r;
            s.lemma_filter_contains(pred, i);
        }
    }
    if kept.len() > 0 {
        lemma_filter_member(s, pred, 0);
    }
}

} // verus!
