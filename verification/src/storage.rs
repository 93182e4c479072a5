//! The clipboard history: filtering, deduplication that bumps a repeated clip
//! to the top, and trimming to the newest `MAX_ITEMS` entries.
use vstd::prelude::*;

use std::collections::hash_map::DefaultHasher;
use std::hash::Hasher;
use vstd::std_specs::hash::DefaultHasherAdditionalSpecFns;
use std::time::{Duration, SystemTime, SystemTimeError, UNIX_EPOCH};

use image::codecs::png::PngEncoder;
use image::{ExtendedColorType, ImageEncoder};

use crate::model;
use crate::model::{ClipItem, Content};
use crate::text;
use crate::text::{is_blank_str, push_hex_fixed};

verus! {

broadcast use vstd::std_specs::hash::group_hash_axioms;

/// The most entries the history keeps; older ones are pushed out.
pub const MAX_ITEMS: usize = 100;

/// The largest text, in UTF-8 bytes, that the history takes.
pub const MAX_TEXT_BYTES: usize = 1024 * 1024;

/// The largest PNG encoding, in bytes, of an image that the history takes.
pub const MAX_IMAGE_BYTES: usize = 10 * 1024 * 1024;

/// What an attempt to add a clip did.
#[derive(Debug, Clone, Copy, PartialEq, Eq, Structural)]
pub enum AddOutcome {
    /// A new entry was added.
    Added,
    /// The same clip was already there; it moved to the top.
    Bumped,
    /// The clip was filtered out: a blank text, a text or image too large,
    /// or pixels that do not match their size.
    Ignored,
}

/// Why the history could not record a clip.
#[derive(Debug, Clone, Copy, PartialEq, Eq, Structural)]
pub enum StorageError {
    /// Every identifier up to `i64::MAX` has been handed out.
    IdsExhausted,
}

/// Why raw RGBA could not be encoded as PNG.
#[derive(Debug, Clone, Copy, PartialEq, Eq, Structural)]
pub enum EncodeError {
    /// `width × height × 4` does not fit in `usize`.
    TooLarge,
    /// The buffer is not `width × height × 4` bytes long.
    LengthMismatch { expected: usize, actual: usize },
    /// The PNG encoder refused the image.
    Encoder,
}

/// One row of the history: the entry, and for an image the fingerprint of its
/// raw pixels by which a repeated image is recognised.
#[derive(Debug, PartialEq, Eq)]
pub struct StoredItem {
    pub item: ClipItem,
    pub fingerprint: Option<String>,
}

/// The mathematical value of a [`StoredItem`].
pub struct StoredItemView {
    pub item: model::ClipItemView,
    pub fingerprint: Option<Seq<char>>,
}

impl View for StoredItem {
    type V = StoredItemView;

    open spec fn view(&self) -> StoredItemView {
        StoredItemView {
            item: self.item@,
            fingerprint: crate::clipboard::opt_text_view(self.fingerprint),
        }
    }
}

impl Clone for StoredItem {
    fn clone(&self) -> (r: Self)
        ensures
            r@ == self@,
    {
        let fingerprint = match &self.fingerprint {
            Some(f) => Some(f.clone()),
            None => None,
        };
        StoredItem { item: self.item.clone(), fingerprint }
    }
}

/// The views of a sequence of rows.
pub open spec fn rows_view(v: Seq<StoredItem>) -> Seq<StoredItemView> {
    v.map_values(|e: StoredItem| e@)
}

/// The mathematical value of a [`Storage`]: its rows, newest first, and the
/// last identifier handed out.
pub struct StorageView {
    pub entries: Seq<StoredItemView>,
    pub last_id: i64,
}

/// A history is well formed when no identifier exceeds `last_id` and the
/// identifiers strictly decrease from the newest row to the oldest.
pub open spec fn history_wf(h: StorageView) -> bool {
    &&& h.last_id >= 0
    &&& forall|i: int|
        0 <= i < h.entries.len() ==> #[trigger] h.entries[i].item.id <= h.last_id
    &&& forall|i: int, j: int|
        0 <= i < j < h.entries.len() ==> #[trigger] h.entries[i].item.id
            > #[trigger] h.entries[j].item.id
}

/// What makes two clips the same: the text itself, or an image's fingerprint.
pub enum DedupKey {
    Text(Seq<char>),
    Fingerprint(Seq<char>),
}

/// Whether a row is the same clip as `k`. A text row has no fingerprint and an
/// image row no text, so the two kinds never match each other.
pub open spec fn matches_key(e: StoredItemView, k: DedupKey) -> bool {
    match k {
        DedupKey::Text(t) => e.item.content == model::ContentView::Text(t),
        DedupKey::Fingerprint(f) => e.fingerprint == Some(f),
    }
}

/// Some row of `s` is the same clip as `k`.
pub open spec fn has_match(s: Seq<StoredItemView>, k: DedupKey) -> bool {
    exists|i: int| 0 <= i < s.len() && matches_key(#[trigger] s[i], k)
}

/// `s` without the rows that are the same clip as `k`, the others in order.
pub open spec fn remove_matching(s: Seq<StoredItemView>, k: DedupKey) -> Seq<StoredItemView>
    decreases s.len(),
{
    if s.len() == 0 {
        s
    } else {
        let r = remove_matching(s.drop_last(), k);
        if matches_key(s.last(), k) {
            r
        } else {
            r.push(s.last())
        }
    }
}

/// The newest `MAX_ITEMS` rows of `s`.
pub open spec fn cap(s: Seq<StoredItemView>) -> Seq<StoredItemView> {
    if s.len() > MAX_ITEMS {
        s.take(MAX_ITEMS as int)
    } else {
        s
    }
}

/// The history after recording a clip under the next identifier: earlier
/// copies of it go, it stands first, and only the newest `MAX_ITEMS` rows stay.
pub open spec fn record(
    h: StorageView,
    k: DedupKey,
    content: model::ContentView,
    fingerprint: Option<Seq<char>>,
    now: i64,
) -> StorageView {
    let id = (h.last_id + 1) as i64;
    let e = StoredItemView {
        item: model::ClipItemView { id, content, created_at: now },
        fingerprint,
    };
    StorageView { entries: cap(seq![e] + remove_matching(h.entries, k)), last_id: id }
}

/// `Bumped` when the clip was already there, else `Added`.
pub open spec fn insert_outcome(h: StorageView, k: DedupKey) -> AddOutcome {
    if has_match(h.entries, k) {
        AddOutcome::Bumped
    } else {
        AddOutcome::Added
    }
}

/// Recording under key `k`, or the error when no identifier is left.
pub open spec fn record_result(
    h: StorageView,
    k: DedupKey,
    content: model::ContentView,
    fingerprint: Option<Seq<char>>,
    now: i64,
) -> (Result<AddOutcome, StorageError>, StorageView) {
    if h.last_id == i64::MAX {
        (Err(StorageError::IdsExhausted), h)
    } else {
        (Ok(insert_outcome(h, k)), record(h, k, content, fingerprint, now))
    }
}

/// A text the history takes: not blank, and at most `MAX_TEXT_BYTES` bytes
/// of UTF-8.
pub open spec fn text_admitted(t: Seq<char>) -> bool {
    !text::is_blank(t) && vstd::utf8::encode_utf8(t).len() <= MAX_TEXT_BYTES
}

/// What adding text `t` at time `now` returns and leaves.
pub open spec fn add_text_spec(h: StorageView, t: Seq<char>, now: i64) -> (
    Result<AddOutcome, StorageError>,
    StorageView,
) {
    if !text_admitted(t) {
        (Ok(AddOutcome::Ignored), h)
    } else {
        record_result(h, DedupKey::Text(t), model::ContentView::Text(t), None, now)
    }
}

/// The bytes of `n` from least to most significant, `count` of them.
pub open spec fn le_bytes(n: nat, count: nat) -> Seq<u8>
    decreases count,
{
    if count == 0 {
        Seq::empty()
    } else {
        seq![(n % 256) as u8] + le_bytes(n / 256, (count - 1) as nat)
    }
}

/// What the fingerprint feeds `DefaultHasher`: the width, the height, the
/// length and every byte of the pixels, as `(width, height, rgba).hash` feeds
/// them on a little-endian 64-bit machine.
pub open spec fn fingerprint_writes(rgba: Seq<u8>, width: u32, height: u32) -> Seq<Seq<u8>> {
    seq![le_bytes(width as nat, 4), le_bytes(height as nat, 4), le_bytes(rgba.len(), 8), rgba]
}

/// The fingerprint of raw pixels: the `DefaultHasher` digest of
/// [`fingerprint_writes`], rendered as sixteen lower-case hex digits.
pub open spec fn image_fingerprint(rgba: Seq<u8>, width: u32, height: u32) -> Seq<char> {
    text::hex_fixed(DefaultHasher::spec_finish(fingerprint_writes(rgba, width, height)) as nat, 16)
}

/// The PNG encoding of `width × height` RGBA8 pixels by the `image` crate's
/// encoder at its default settings, or `None` where it refuses them.
pub uninterp spec fn png_encoding(rgba: Seq<u8>, width: u32, height: u32) -> Option<Seq<u8>>;

/// The eight bytes that open every PNG file.
pub open spec fn png_signature() -> Seq<u8> {
    seq![137u8, 80u8, 78u8, 71u8, 13u8, 10u8, 26u8, 10u8]
}

/// The PNG of raw RGBA, or `None` when the length does not match the size.
pub open spec fn png_of(rgba: Seq<u8>, width: u32, height: u32) -> Option<Seq<u8>> {
    let expected = width * height * 4;
    if expected > usize::MAX || rgba.len() != expected {
        None
    } else {
        png_encoding(rgba, width, height)
    }
}

/// What adding an image at time `now` returns and leaves.
pub open spec fn add_image_spec(
    h: StorageView,
    rgba: Seq<u8>,
    width: u32,
    height: u32,
    now: i64,
) -> (Result<AddOutcome, StorageError>, StorageView) {
    let f = image_fingerprint(rgba, width, height);
    match png_of(rgba, width, height) {
        None => (Ok(AddOutcome::Ignored), h),
        Some(png) => if png.len() > MAX_IMAGE_BYTES {
            (Ok(AddOutcome::Ignored), h)
        } else {
            record_result(
                h,
                DedupKey::Fingerprint(f),
                model::ContentView::Image { png, width, height },
                Some(f),
                now,
            )
        },
    }
}

/// The entries of a history, newest first.
pub open spec fn history_items(h: StorageView) -> Seq<model::ClipItemView> {
    h.entries.map_values(|e: StoredItemView| e.item)
}

/// The clipboard history, held as plain values.
pub struct Storage {
    entries: Vec<StoredItem>,
    last_id: i64,
}

impl View for Storage {
    type V = StorageView;

    closed spec fn view(&self) -> StorageView {
        StorageView { entries: rows_view(self.entries@), last_id: self.last_id }
    }
}

impl Storage {
    #[verifier::type_invariant]
    closed spec fn inv(self) -> bool {
        history_wf(self@)
    }
}

/// The key by which a clip is recognised, as plain values.
enum Key {
    Text(String),
    Fingerprint(String),
}

impl View for Key {
    type V = DedupKey;

    closed spec fn view(&self) -> DedupKey {
        match self {
            Key::Text(t) => DedupKey::Text(t@),
            Key::Fingerprint(f) => DedupKey::Fingerprint(f@),
        }
    }
}

fn row_matches(e: &StoredItem, k: &Key) -> (b: bool)
    ensures
        b == matches_key(e@, k@),
{
    match k {
        Key::Text(t) => match &e.item.content {
            Content::Text(s) => s.eq(t),
            Content::Image { .. } => false,
        },
        Key::Fingerprint(f) => match &e.fingerprint {
            Some(g) => g.eq(f),
            None => false,
        },
    }
}

proof fn lemma_remove_matching_push(s: Seq<StoredItemView>, e: StoredItemView, k: DedupKey)
    ensures
        remove_matching(s.push(e), k) == (if matches_key(e, k) {
            remove_matching(s, k)
        } else {
            remove_matching(s, k).push(e)
        }),
        has_match(s.push(e), k) == (has_match(s, k) || matches_key(e, k)),
{
    assert(s.push(e).drop_last() =~= s);
    if has_match(s, k) {
        let i = choose|i: int| 0 <= i < s.len() && matches_key(s[i], k);
        assert(s.push(e)[i] == s[i]);
    }
    if has_match(s.push(e), k) {
        let i = choose|i: int| 0 <= i < s.push(e).len() && matches_key(s.push(e)[i], k);
        if i < s.len() {
            assert(s[i] == s.push(e)[i]);
        }
    }
    if matches_key(e, k) {
        assert(s.push(e)[s.len() as int] == e);
    }
}

/// Every row that `remove_matching` keeps comes from its argument, in the same
/// order, and none of them is the same clip as `k`.
pub proof fn lemma_remove_matching_sub(s: Seq<StoredItemView>, k: DedupKey)
    ensures
        remove_matching(s, k).len() <= s.len(),
        forall|i: int|
            0 <= i < remove_matching(s, k).len() ==> !matches_key(
                #[trigger] remove_matching(s, k)[i],
                k,
            ),
        forall|i: int|
            0 <= i < remove_matching(s, k).len() ==> exists|j: int|
                0 <= j < s.len() && #[trigger] remove_matching(s, k)[i] == s[j],
        forall|i: int, j: int|
            #![trigger remove_matching(s, k)[i], remove_matching(s, k)[j]]
            0 <= i < j < remove_matching(s, k).len() ==> exists|a: int, b: int|
                #![trigger s[a], s[b]]
                0 <= a < b < s.len() && remove_matching(s, k)[i] == s[a]
                    && remove_matching(s, k)[j] == s[b],
        remove_matching(s, k).len() < s.len() <==> has_match(s, k),
    decreases s.len(),
{
    if s.len() == 0 {
    } else {
        let p = s.drop_last();
        lemma_remove_matching_sub(p, k);
        lemma_remove_matching_push(p, s.last(), k);
        assert(p.push(s.last()) =~= s);
        let r = remove_matching(s, k);
        let rp = remove_matching(p, k);
        assert forall|i: int| 0 <= i < r.len() implies exists|j: int|
            0 <= j < s.len() && #[trigger] r[i] == s[j] by {
            if i < rp.len() {
                let j = choose|j: int| 0 <= j < p.len() && rp[i] == p[j];
                assert(r[i] == s[j]);
            } else {
                assert(r[i] == s[s.len() - 1]);
            }
        }
        assert forall|i: int, j: int|
            #![trigger r[i], r[j]]
            0 <= i < j < r.len() implies exists|a: int, b: int|
            #![trigger s[a], s[b]]
            0 <= a < b < s.len() && r[i] == s[a] && r[j] == s[b] by {
            if j < rp.len() {
                let (a, b) = choose|a: int, b: int|
                    0 <= a < b < p.len() && rp[i] == p[a] && rp[j] == p[b];
                assert(r[i] == s[a] && r[j] == s[b]);
            } else {
                let a = choose|a: int| 0 <= a < p.len() && rp[i] == p[a];
                assert(r[i] == s[a]);
                assert(r[j] == s[s.len() - 1]);
            }
        }
    }
}

/// Removing copies of a clip, putting a fresher row first and trimming keeps a
/// history well formed.
pub proof fn lemma_record_wf(
    h: StorageView,
    k: DedupKey,
    content: model::ContentView,
    fingerprint: Option<Seq<char>>,
    now: i64,
)
    requires
        history_wf(h),
        h.last_id < i64::MAX,
    ensures
        history_wf(record(h, k, content, fingerprint, now)),
{
    lemma_remove_matching_sub(h.entries, k);
    let r = remove_matching(h.entries, k);
    let n = record(h, k, content, fingerprint, now);
    let full = seq![n.entries[0]] + r;
    assert forall|i: int| 0 <= i < r.len() implies #[trigger] r[i].item.id <= h.last_id by {
        let j = choose|j: int| 0 <= j < h.entries.len() && r[i] == h.entries[j];
        assert(h.entries[j].item.id <= h.last_id);
    }
    assert forall|i: int, j: int| 0 <= i < j < full.len() implies #[trigger] full[i].item.id
        > #[trigger] full[j].item.id by {
        if i == 0 {
            assert(full[j] == r[j - 1]);
        } else {
            let (a, b) = choose|a: int, b: int|
                0 <= a < b < h.entries.len() && r[i - 1] == h.entries[a] && r[j - 1]
                    == h.entries[b];
            assert(h.entries[a].item.id > h.entries[b].item.id);
        }
    }
    assert forall|i: int| 0 <= i < full.len() implies #[trigger] full[i].item.id
        <= n.last_id by {
        if i > 0 {
            assert(full[i] == r[i - 1]);
        }
    }
}

impl Storage {
    /// An empty history, held in memory.
    pub fn open_in_memory() -> (r: Result<Storage, StorageError>)
        ensures
            r matches Ok(s) && s@.entries.len() == 0 && s@.last_id == 0,
    {
        let s = Storage { entries: Vec::new(), last_id: 0 };
        assert(s@.entries =~= Seq::<StoredItemView>::empty());
        Ok(s)
    }

    /// A history made of rows kept elsewhere, newest first, with the last
    /// identifier handed out; `None` when they do not form a well-formed
    /// history.
    pub fn restore(entries: Vec<StoredItem>, last_id: i64) -> (r: Option<Storage>)
        ensures
            r is Some <==> history_wf(StorageView { entries: rows_view(entries@), last_id }),
            r matches Some(s) ==> s@ == (StorageView { entries: rows_view(entries@), last_id }),
    {
        let ghost h = StorageView { entries: rows_view(entries@), last_id };
        if last_id < 0 {
            return None;
        }
        let n = entries.len();
        let mut i: usize = 0;
        while i < n
            invariant
                n == entries.len(),
                h == (StorageView { entries: rows_view(entries@), last_id }),
                last_id >= 0,
                i <= n,
                forall|a: int| 0 <= a < i ==> #[trigger] h.entries[a].item.id <= last_id,
                forall|a: int, b: int|
                    0 <= a < b < i ==> #[trigger] h.entries[a].item.id
                        > #[trigger] h.entries[b].item.id,
            decreases n - i,
        {
            let id = entries[i].item.id;
            assert(h.entries[i as int] == entries@[i as int]@);
            assert(h.entries[i as int].item.id == id);
            if id > last_id {
                return None;
            }
            if i > 0 && entries[i - 1].item.id <= id {
                assert(h.entries[i - 1] == entries@[i - 1]@);
                assert(h.entries[i - 1].item.id <= h.entries[i as int].item.id);
                return None;
            }
            if i > 0 {
                assert(h.entries[i - 1] == entries@[i - 1]@);
                assert forall|a: int| 0 <= a < i implies #[trigger] h.entries[a].item.id
                    > h.entries[i as int].item.id by {
                    if a < i - 1 {
                        assert(h.entries[a].item.id > h.entries[i - 1].item.id);
                    }
                }
            }
            i = i + 1;
        }
        Some(Storage { entries, last_id })
    }

    /// The rows of the history, newest first.
    pub fn entries(&self) -> (r: &Vec<StoredItem>)
        ensures
            rows_view(r@) == self@.entries,
    {
        &self.entries
    }

    /// The last identifier handed out.
    pub fn last_id(&self) -> (r: i64)
        ensures
            r == self@.last_id,
    {
        self.last_id
    }

    /// Takes out the rows that are the same clip as `k`, keeping the others in
    /// order; tells whether any went.
    fn take_matching(entries: Vec<StoredItem>, k: &Key) -> (r: (Vec<StoredItem>, bool))
        ensures
            rows_view(r.0@) == remove_matching(rows_view(entries@), k@),
            r.1 == has_match(rows_view(entries@), k@),
    {
        let ghost orig = rows_view(entries@);
        let mut rest = entries;
        let mut kept: Vec<StoredItem> = Vec::new();
        let mut found = false;
        let ghost mut i: int = 0;
        assert(orig.take(0) =~= Seq::<StoredItemView>::empty());
        assert(rows_view(rest@) =~= orig.skip(0));
        assert(rows_view(kept@) =~= Seq::<StoredItemView>::empty());
        while rest.len() > 0
            invariant
                0 <= i <= orig.len(),
                rows_view(rest@) == orig.skip(i),
                rows_view(kept@) == remove_matching(orig.take(i), k@),
                found == has_match(orig.take(i), k@),
            decreases rest.len(),
        {
            let ghost before = rest@;
            let e = rest.remove(0);
            proof {
                assert(rows_view(before)[0] == e@);
                assert(rows_view(before).len() == orig.len() - i);
                assert(orig.skip(i)[0] == orig[i]);
                assert(orig[i] == e@);
                assert(orig.take(i + 1) =~= orig.take(i).push(e@));
                lemma_remove_matching_push(orig.take(i), e@, k@);
                assert forall|j: int| 0 <= j < rest@.len() implies #[trigger] rows_view(rest@)[j]
                    == orig.skip(i + 1)[j] by {
                    assert(rest@[j] == before[j + 1]);
                    assert(rows_view(before)[j + 1] == orig.skip(i)[j + 1]);
                }
                assert(rows_view(rest@) =~= orig.skip(i + 1));
            }
            if row_matches(&e, k) {
                found = true;
            } else {
                let ghost kept_before = kept@;
                kept.push(e);
                assert(rows_view(kept@) =~= rows_view(kept_before).push(e@));
            }
            proof {
                i = i + 1;
            }
        }
        assert(orig.take(i) =~= orig);
        (kept, found)
    }

    /// Records a clip under key `k` with the given content and fingerprint.
    fn record_clip(
        &mut self,
        k: Key,
        content: Content,
        fingerprint: Option<String>,
        now: i64,
    ) -> (r: Result<AddOutcome, StorageError>)
        ensures
            (r, final(self)@) == record_result(
                old(self)@,
                k@,
                content@,
                crate::clipboard::opt_text_view(fingerprint),
                now,
            ),
            history_wf(final(self)@),
    {
        proof {
            use_type_invariant(&*self);
        }
        if self.last_id == i64::MAX {
            return Err(StorageError::IdsExhausted);
        }
        let ghost old_view = self@;
        let ghost fview = crate::clipboard::opt_text_view(fingerprint);
        let mut entries: Vec<StoredItem> = Vec::new();
        std::mem::swap(&mut entries, &mut self.entries);
        let (mut kept, found) = Self::take_matching(entries, &k);
        let id = self.last_id + 1;
        let row = StoredItem { item: ClipItem { id, content, created_at: now }, fingerprint };
        let ghost kept_before = kept@;
        kept.insert(0, row);
        assert(rows_view(kept@) =~= seq![row@] + rows_view(kept_before));
        if kept.len() > MAX_ITEMS {
            let ghost full = kept@;
            kept.truncate(MAX_ITEMS);
            assert(rows_view(kept@) =~= rows_view(full).take(MAX_ITEMS as int));
        }
        proof {
            lemma_record_wf(old_view, k@, content@, fview, now);
        }
        *self = Storage { entries: kept, last_id: id };
        assert(self@ =~= record(old_view, k@, content@, fview, now));
        if found {
            Ok(AddOutcome::Bumped)
        } else {
            Ok(AddOutcome::Added)
        }
    }

    /// Adds a text seen at time `now` (Unix milliseconds): a blank text or one
    /// over `MAX_TEXT_BYTES` bytes is ignored; an earlier copy of the same
    /// text goes, the text stands first under a fresh identifier, and the
    /// history keeps its newest `MAX_ITEMS` entries.
    pub fn add_text_at(&mut self, text: &str, now: i64) -> (r: Result<AddOutcome, StorageError>)
        ensures
            (r, final(self)@) == add_text_spec(old(self)@, text@, now),
            history_wf(final(self)@),
    {
        proof {
            use_type_invariant(&*self);
        }
        if is_blank_str(text) {
            return Ok(AddOutcome::Ignored);
        }
        if text.as_bytes().len() > MAX_TEXT_BYTES {
            return Ok(AddOutcome::Ignored);
        }
        let key = Key::Text(text.to_owned());
        self.record_clip(key, Content::Text(text.to_owned()), None, now)
    }

    /// Adds a text, stamped with the current time; see [`Storage::add_text_at`].
    pub fn add_text(&mut self, text: &str) -> (r: Result<AddOutcome, StorageError>)
        ensures
            exists|now: i64| (r, final(self)@) == #[trigger] add_text_spec(old(self)@, text@, now),
    {
        let now = now_millis();
        let r = self.add_text_at(text, now);
        assert((r, self@) == add_text_spec(old(self)@, text@, now));
        r
    }

    /// Adds an image given as raw RGBA of `width × height` pixels, seen at
    /// time `now`: pixels that do not match the size, or whose PNG is over
    /// `MAX_IMAGE_BYTES`, are ignored; an earlier copy of the same pixels
    /// goes, the image stands first as PNG under a fresh identifier, and the
    /// history keeps its newest `MAX_ITEMS` entries.
    pub fn add_image_at(&mut self, rgba: &[u8], width: u32, height: u32, now: i64) -> (r: Result<
        AddOutcome,
        StorageError,
    >)
        ensures
            (r, final(self)@) == add_image_spec(old(self)@, rgba@, width, height, now),
            width > 0 && height > 0 && width * height * 4 <= usize::MAX && rgba@.len() == width
                * height * 4 ==> png_of(rgba@, width, height) is Some,
            history_wf(final(self)@),
    {
        proof {
            use_type_invariant(&*self);
        }
        let fingerprint = rgba_hash(rgba, width, height);
        let png = match encode_png(rgba, width, height) {
            Ok(png) => png,
            Err(_) => {
                return Ok(AddOutcome::Ignored);
            },
        };
        if png.len() > MAX_IMAGE_BYTES {
            return Ok(AddOutcome::Ignored);
        }
        let key = Key::Fingerprint(fingerprint.clone());
        self.record_clip(key, Content::Image { png, width, height }, Some(fingerprint), now)
    }

    /// Adds an image, stamped with the current time; see
    /// [`Storage::add_image_at`].
    pub fn add_image(&mut self, rgba: &[u8], width: u32, height: u32) -> (r: Result<
        AddOutcome,
        StorageError,
    >)
        ensures
            exists|now: i64|
                (r, final(self)@) == #[trigger] add_image_spec(
                    old(self)@,
                    rgba@,
                    width,
                    height,
                    now,
                ),
    {
        let now = now_millis();
        let r = self.add_image_at(rgba, width, height, now);
        assert((r, self@) == add_image_spec(old(self)@, rgba@, width, height, now));
        r
    }

    /// The history from newest to oldest, at most `limit` entries. Reading a
    /// history held in memory does not fail.
    pub fn list(&self, limit: usize) -> (r: Result<Vec<ClipItem>, StorageError>)
        ensures
            r matches Ok(v) && v@.map_values(|c: ClipItem| c@) == history_items(self@).take(
                if limit < self@.entries.len() {
                    limit as int
                } else {
                    self@.entries.len() as int
                },
            ),
            r matches Ok(v) && forall|i: int, j: int|
                0 <= i < j < v@.len() ==> #[trigger] v@[i].id > #[trigger] v@[j].id,
    {
        proof {
            use_type_invariant(self);
            lemma_items_newest_first(self@);
        }
        let n = if limit < self.entries.len() {
            limit
        } else {
            self.entries.len()
        };
        let mut out: Vec<ClipItem> = Vec::new();
        let mut i: usize = 0;
        while i < n
            invariant
                n <= self.entries.len(),
                i <= n,
                out@.map_values(|c: ClipItem| c@) == history_items(self@).take(i as int),
            decreases n - i,
        {
            let ghost before = out@;
            out.push(self.entries[i].item.clone());
            assert(self@.entries[i as int] == self.entries@[i as int]@);
            assert(out@.map_values(|c: ClipItem| c@) =~= before.map_values(|c: ClipItem| c@).push(
                self@.entries[i as int].item,
            ));
            assert(history_items(self@).take(i + 1) =~= history_items(self@).take(i as int).push(
                self@.entries[i as int].item,
            ));
            i = i + 1;
        }
        assert forall|i: int, j: int| 0 <= i < j < out@.len() implies #[trigger] out@[i].id
            > #[trigger] out@[j].id by {
            assert(out@.map_values(|c: ClipItem| c@)[i] == out@[i]@);
            assert(out@.map_values(|c: ClipItem| c@)[j] == out@[j]@);
            assert(history_items(self@)[i].id > history_items(self@)[j].id);
        }
        Ok(out)
    }

    /// How many entries the history holds. Counting a history held in memory
    /// does not fail.
    pub fn count(&self) -> (r: Result<usize, StorageError>)
        ensures
            r == Ok::<usize, StorageError>(self@.entries.len() as usize),
    {
        Ok(self.entries.len())
    }
}

/// The bytes of `n` from least to most significant, `count` of them.
fn le_bytes_vec(n: u64, count: usize) -> (v: Vec<u8>)
    ensures
        v@ == le_bytes(n as nat, count as nat),
    decreases count,
{
    if count == 0 {
        Vec::new()
    } else {
        let mut rest = le_bytes_vec(n / 256, count - 1);
        let ghost tail = rest@;
        rest.insert(0, (n % 256) as u8);
        assert(rest@ =~= seq![(n % 256) as u8] + tail);
        rest
    }
}

/// The fingerprint of raw pixels by which a repeated image is recognised,
/// as sixteen lower-case hex digits.
pub fn rgba_hash(rgba: &[u8], width: u32, height: u32) -> (r: String)
    ensures
        r@ == image_fingerprint(rgba@, width, height),
{
    let mut hasher = DefaultHasher::new();
    let w = le_bytes_vec(width as u64, 4);
    hasher.write(w.as_slice());
    let h = le_bytes_vec(height as u64, 4);
    hasher.write(h.as_slice());
    let len = le_bytes_vec(rgba.len() as u64, 8);
    hasher.write(len.as_slice());
    hasher.write(rgba);
    let digest = hasher.finish();
    assert(hasher@ =~= fingerprint_writes(rgba@, width, height));
    let mut out = String::new();
    push_hex_fixed(&mut out, digest, 16);
    assert(out@ =~= text::hex_fixed(digest as nat, 16));
    out
}

/// `image::codecs::png::PngEncoder::write_image` on RGBA8 pixels, with the
/// encoder's default compression and filter, into a fresh `Vec`. The claim is
/// that it succeeds exactly where `png_encoding` of the same pixels and size is
/// some byte string, and that it then gives that byte string. Of those bytes
/// only what the `png` crate's writer fixes is stated: they open with the PNG
/// signature, a zero width or height is refused, and any other size is
/// encoded (the writer's only other failures are writes into the `Vec`, which
/// do not fail). It panics when the length
/// does not match the size, which `requires` rules out.
#[verifier::external_body]
fn png_encode_rgba8(rgba: &[u8], width: u32, height: u32) -> (r: Result<
    Vec<u8>,
    image::ImageError,
>)
    requires
        rgba@.len() == width * height * 4,
    ensures
        r is Ok <==> png_encoding(rgba@, width, height) is Some,
        r matches Ok(v) ==> Some(v@) == png_encoding(rgba@, width, height),
        r matches Ok(v) ==> v@.len() >= 8 && v@.take(8) == png_signature(),
        width == 0 || height == 0 ==> r is Err,
        width > 0 && height > 0 ==> r is Ok,
{
    let mut png = Vec::new();
    let res = PngEncoder::new(&mut png).write_image(rgba, width, height, ExtendedColorType::Rgba8);
    match res {
        Ok(()) => Ok(png),
        Err(e) => Err(e),
    }
}

/// Encodes raw RGBA of `width × height` pixels as PNG; an error when the
/// buffer is not `width × height × 4` bytes long, or the encoder refuses it.
pub fn encode_png(rgba: &[u8], width: u32, height: u32) -> (r: Result<Vec<u8>, EncodeError>)
    ensures
        width * height * 4 > usize::MAX ==> r == Err::<Vec<u8>, EncodeError>(
            EncodeError::TooLarge,
        ),
        width * height * 4 <= usize::MAX && rgba@.len() != width * height * 4 ==> r == Err::<
            Vec<u8>,
            EncodeError,
        >(EncodeError::LengthMismatch { expected: (width * height * 4) as usize, actual: rgba@.len() as usize }),
        width * height * 4 <= usize::MAX && rgba@.len() == width * height * 4 ==> match png_encoding(rgba@, width, height) {
            Some(p) => r matches Ok(v) && v@ == p,
            None => r == Err::<Vec<u8>, EncodeError>(EncodeError::Encoder),
        },
        r matches Ok(v) ==> v@.len() >= 8 && v@.take(8) == png_signature(),
        width == 0 || height == 0 ==> r is Err,
        width > 0 && height > 0 && width * height * 4 <= usize::MAX && rgba@.len() == width
            * height * 4 ==> r is Ok,
{
    let expected = match (width as usize).checked_mul(height as usize) {
        Some(px) => match px.checked_mul(4) {
            Some(b) => b,
            None => {
                assert(width * height * 4 > usize::MAX) by (nonlinear_arith)
                    requires px == width * height, px * 4 > usize::MAX;
                return Err(EncodeError::TooLarge);
            },
        },
        None => {
            assert(width * height * 4 > usize::MAX) by (nonlinear_arith)
                requires width * height > usize::MAX;
            return Err(EncodeError::TooLarge);
        },
    };
    if rgba.len() != expected {
        return Err(EncodeError::LengthMismatch { expected, actual: rgba.len() });
    }
    match png_encode_rgba8(rgba, width, height) {
        Ok(png) => Ok(png),
        Err(_) => Err(EncodeError::Encoder),
    }
}

#[verifier::external_type_specification]
#[verifier::external_body]
pub struct ExImageError(image::ImageError);

#[verifier::external_type_specification]
#[verifier::external_body]
pub struct ExSystemTime(SystemTime);

#[verifier::external_type_specification]
#[verifier::external_body]
pub struct ExSystemTimeError(SystemTimeError);

/// `SystemTime::now`: the wall-clock time; nothing is stated of it.
#[verifier::external_body]
fn system_now() -> SystemTime {
    SystemTime::now()
}

/// `SystemTime::duration_since(UNIX_EPOCH)`: the time since the Unix epoch, or
/// an error for a time before it; nothing is stated of either.
#[verifier::external_body]
fn since_unix_epoch(t: &SystemTime) -> Result<Duration, SystemTimeError> {
    t.duration_since(UNIX_EPOCH)
}

/// `Duration::as_millis`: the whole milliseconds of a duration; nothing is
/// stated of the value.
#[verifier::external_body]
fn whole_millis(d: &Duration) -> u128 {
    d.as_millis()
}

/// The time stamp for a clock reading: the whole milliseconds since the Unix
/// epoch cut to `i64` as `as` cuts, or `0` for a clock before the epoch.
pub open spec fn stamp_of(since: Option<u128>) -> i64 {
    match since {
        Some(m) => m as i64,
        None => 0i64,
    }
}

/// The time stamp for a clock reading: `since` is the whole milliseconds since
/// the Unix epoch, or `None` when the clock stands before it.
pub fn millis_since_epoch(since: Option<u128>) -> (r: i64)
    ensures
        r == stamp_of(since),
{
    match since {
        Some(m) => m as i64,
        None => 0,
    }
}

/// The current time in Unix milliseconds, cut to `i64` as `as` cuts; `0` when
/// the clock stands before the epoch. The clock is read through the trusted
/// wrappers above; [`millis_since_epoch`] turns the reading into the stamp.
pub fn now_millis() -> i64 {
    let since = match since_unix_epoch(&system_now()) {
        Ok(d) => Some(whole_millis(&d)),
        Err(_) => None,
    };
    millis_since_epoch(since)
}

/// Two rows hold the same clip: equal texts, or equal image fingerprints.
pub open spec fn same_clip(a: StoredItemView, b: StoredItemView) -> bool {
    ||| (a.item.content is Text && a.item.content == b.item.content)
    ||| (a.fingerprint is Some && a.fingerprint == b.fingerprint)
}

/// No clip stands twice in the history.
pub open spec fn no_repeats(h: StorageView) -> bool {
    forall|i: int, j: int|
        0 <= i < j < h.entries.len() ==> !same_clip(#[trigger] h.entries[i], #[trigger] h.entries[j])
}

/// After a clip is recorded it stands first, under an identifier above every
/// earlier one and stamped with the time given; no other row is the same clip;
/// the history holds at most `MAX_ITEMS` rows; it says `Bumped` exactly when the
/// clip was there before; and a history in which no clip stood twice still has
/// none standing twice.
pub proof fn lemma_record_effects(
    h: StorageView,
    k: DedupKey,
    content: model::ContentView,
    fingerprint: Option<Seq<char>>,
    now: i64,
)
    requires
        history_wf(h),
        h.last_id < i64::MAX,
        forall|e: StoredItemView|
            #![trigger matches_key(e, k)]
            e.item.content == content && e.fingerprint == fingerprint ==> matches_key(e, k),
        forall|e: StoredItemView, f: StoredItemView|
            #![trigger same_clip(e, f)]
            e.item.content == content && e.fingerprint == fingerprint && same_clip(e, f)
                ==> matches_key(f, k),
    ensures
        ({
            let n = record(h, k, content, fingerprint, now);
            &&& history_wf(n)
            &&& n.entries.len() >= 1
            &&& n.entries[0].item.content == content
            &&& n.entries[0].fingerprint == fingerprint
            &&& n.entries[0].item.created_at == now
            &&& n.entries[0].item.id == h.last_id + 1
            &&& forall|i: int|
                0 <= i < h.entries.len() ==> #[trigger] h.entries[i].item.id < n.entries[0].item.id
            &&& forall|i: int| 1 <= i < n.entries.len() ==> !matches_key(#[trigger] n.entries[i], k)
            &&& n.entries.len() <= MAX_ITEMS
            &&& has_match(h.entries, k) ==> n.entries.len() <= h.entries.len()
            &&& !has_match(h.entries, k) && h.entries.len() < MAX_ITEMS ==> n.entries.len()
                == h.entries.len() + 1
            &&& no_repeats(h) ==> no_repeats(n)
        }),
{
    lemma_record_wf(h, k, content, fingerprint, now);
    lemma_remove_matching_sub(h.entries, k);
    let r = remove_matching(h.entries, k);
    let n = record(h, k, content, fingerprint, now);
    let full = seq![n.entries[0]] + r;
    assert(full[0] == n.entries[0]);
    assert forall|i: int| 1 <= i < n.entries.len() implies !matches_key(#[trigger] n.entries[i], k) by {
        assert(n.entries[i] == full[i]);
        assert(full[i] == r[i - 1]);
    }
    if no_repeats(h) {
        assert forall|i: int, j: int| 0 <= i < j < n.entries.len() implies !same_clip(
            #[trigger] n.entries[i],
            #[trigger] n.entries[j],
        ) by {
            assert(n.entries[i] == full[i] && n.entries[j] == full[j]);
            if i == 0 {
                assert(full[j] == r[j - 1]);
                assert(!matches_key(r[j - 1], k));
                if same_clip(full[0], full[j]) {
                    assert(matches_key(full[j], k));
                }
            } else {
                assert(full[i] == r[i - 1] && full[j] == r[j - 1]);
                let (a, b) = choose|a: int, b: int|
                    #![trigger h.entries[a], h.entries[b]]
                    0 <= a < b < h.entries.len() && r[i - 1] == h.entries[a] && r[j - 1]
                        == h.entries[b];
                assert(!same_clip(h.entries[a], h.entries[b]));
            }
        }
    }
}

/// Adding an admitted text puts it first and keeps every law of
/// [`lemma_record_effects`]; a text that is not admitted, or a history with no
/// identifier left, is left as it was.
pub proof fn lemma_add_text_effects(h: StorageView, t: Seq<char>, now: i64)
    requires
        history_wf(h),
    ensures
        ({
            let (r, n) = add_text_spec(h, t, now);
            &&& !text_admitted(t) ==> r == Ok::<AddOutcome, StorageError>(AddOutcome::Ignored)
                && n == h
            &&& text_admitted(t) && h.last_id == i64::MAX ==> r == Err::<AddOutcome, StorageError>(
                StorageError::IdsExhausted,
            ) && n == h
            &&& text_admitted(t) && h.last_id < i64::MAX ==> {
                &&& r == Ok::<AddOutcome, StorageError>(insert_outcome(h, DedupKey::Text(t)))
                &&& (r == Ok::<AddOutcome, StorageError>(AddOutcome::Bumped) <==> exists|i: int|
                    0 <= i < h.entries.len() && #[trigger] h.entries[i].item.content
                        == model::ContentView::Text(t))
                &&& n.entries[0].item.content == model::ContentView::Text(t)
                &&& forall|i: int|
                    1 <= i < n.entries.len() ==> #[trigger] n.entries[i].item.content
                        != model::ContentView::Text(t)
                &&& n.entries.len() <= MAX_ITEMS
                &&& no_repeats(h) ==> no_repeats(n)
            }
            &&& history_wf(n)
        }),
{
    if text_admitted(t) && h.last_id < i64::MAX {
        let k = DedupKey::Text(t);
        lemma_record_effects(h, k, model::ContentView::Text(t), None, now);
        let n = add_text_spec(h, t, now).1;
        assert forall|i: int| 1 <= i < n.entries.len() implies #[trigger] n.entries[i].item.content
            != model::ContentView::Text(t) by {
            assert(!matches_key(n.entries[i], k));
        }
        if has_match(h.entries, k) {
            let i = choose|i: int| 0 <= i < h.entries.len() && matches_key(h.entries[i], k);
            assert(h.entries[i].item.content == model::ContentView::Text(t));
        }
        if exists|i: int|
            0 <= i < h.entries.len() && #[trigger] h.entries[i].item.content
                == model::ContentView::Text(t) {
            let i = choose|i: int|
                0 <= i < h.entries.len() && #[trigger] h.entries[i].item.content
                    == model::ContentView::Text(t);
            assert(matches_key(h.entries[i], k));
        }
    }
}

/// Adding an image whose PNG is taken puts it first under its fingerprint and
/// keeps every law of [`lemma_record_effects`]; pixels that do not match the
/// size, or an oversized PNG, leave the history as it was.
pub proof fn lemma_add_image_effects(h: StorageView, rgba: Seq<u8>, width: u32, height: u32, now: i64)
    requires
        history_wf(h),
    ensures
        ({
            let (r, n) = add_image_spec(h, rgba, width, height, now);
            let f = image_fingerprint(rgba, width, height);
            &&& rgba.len() != width * height * 4 ==> r == Ok::<AddOutcome, StorageError>(
                AddOutcome::Ignored,
            ) && n == h
            &&& r == Ok::<AddOutcome, StorageError>(AddOutcome::Ignored) ==> n == h
            &&& (r == Ok::<AddOutcome, StorageError>(AddOutcome::Added) || r == Ok::<
                AddOutcome,
                StorageError,
            >(AddOutcome::Bumped)) ==> {
                &&& png_of(rgba, width, height) matches Some(png) && n.entries[0].item.content
                    == (model::ContentView::Image { png, width, height })
                &&& n.entries[0].fingerprint == Some(f)
                &&& forall|i: int|
                    1 <= i < n.entries.len() ==> #[trigger] n.entries[i].fingerprint != Some(f)
                &&& n.entries.len() <= MAX_ITEMS
                &&& (r == Ok::<AddOutcome, StorageError>(AddOutcome::Bumped) <==> has_match(
                    h.entries,
                    DedupKey::Fingerprint(f),
                ))
                &&& no_repeats(h) ==> no_repeats(n)
            }
            &&& history_wf(n)
        }),
{
    let f = image_fingerprint(rgba, width, height);
    let k = DedupKey::Fingerprint(f);
    if let Some(png) = png_of(rgba, width, height) {
        if png.len() <= MAX_IMAGE_BYTES && h.last_id < i64::MAX {
            let c = model::ContentView::Image { png, width, height };
            lemma_record_effects(h, k, c, Some(f), now);
            let n = add_image_spec(h, rgba, width, height, now).1;
            assert forall|i: int| 1 <= i < n.entries.len() implies #[trigger] n.entries[i].fingerprint
                != Some(f) by {
                assert(!matches_key(n.entries[i], k));
            }
        }
    }
}

/// A well-formed history lists its entries from newest to oldest: the
/// identifiers strictly decrease along the list.
pub proof fn lemma_items_newest_first(h: StorageView)
    requires
        history_wf(h),
    ensures
        forall|i: int, j: int|
            0 <= i < j < history_items(h).len() ==> #[trigger] history_items(h)[i].id
                > #[trigger] history_items(h)[j].id,
{
    assert forall|i: int, j: int| 0 <= i < j < history_items(h).len() implies #[trigger] history_items(
        h,
    )[i].id > #[trigger] history_items(h)[j].id by {
        assert(h.entries[i].item.id > h.entries[j].item.id);
    }
}

/// Trimming keeps exactly the `MAX_ITEMS` newest rows of a well-formed
/// history, unchanged and in order, and every row it drops is older than every
/// row it keeps.
pub proof fn lemma_trim_keeps_newest(h: StorageView)
    requires
        history_wf(h),
    ensures
        cap(h.entries) == h.entries.take(
            if h.entries.len() > MAX_ITEMS {
                MAX_ITEMS as int
            } else {
                h.entries.len() as int
            },
        ),
        cap(h.entries).len() <= MAX_ITEMS,
        forall|i: int, j: int|
            0 <= i < cap(h.entries).len() <= j < h.entries.len() ==> #[trigger] cap(h.entries)[i].item.id
                > #[trigger] h.entries[j].item.id,
{
    if h.entries.len() <= MAX_ITEMS {
        assert(h.entries.take(h.entries.len() as int) =~= h.entries);
    }
    assert forall|i: int, j: int|
        0 <= i < cap(h.entries).len() <= j < h.entries.len() implies #[trigger] cap(h.entries)[i].item.id
            > #[trigger] h.entries[j].item.id by {
        assert(cap(h.entries)[i] == h.entries[i]);
    }
}

/// An image whose pixels match its size is recorded, first in the history,
/// unless its PNG is over `MAX_IMAGE_BYTES`; `add_image_at` guarantees the PNG
/// exists for every non-empty size whose pixels match it.
pub proof fn lemma_image_recorded_unless_too_large(
    h: StorageView,
    rgba: Seq<u8>,
    width: u32,
    height: u32,
    now: i64,
)
    requires
        history_wf(h),
        h.last_id < i64::MAX,
        png_of(rgba, width, height) is Some,
    ensures
        ({
            let png = png_of(rgba, width, height).unwrap();
            let (r, n) = add_image_spec(h, rgba, width, height, now);
            &&& png.len() <= MAX_IMAGE_BYTES ==> (r == Ok::<AddOutcome, StorageError>(
                AddOutcome::Added,
            ) || r == Ok::<AddOutcome, StorageError>(AddOutcome::Bumped)) && n.entries[0].item.content
                == (model::ContentView::Image { png, width, height })
            &&& png.len() > MAX_IMAGE_BYTES ==> r == Ok::<AddOutcome, StorageError>(
                AddOutcome::Ignored,
            ) && n == h
        }),
{
    lemma_add_image_effects(h, rgba, width, height, now);
}

/// Some row of the history carries identifier `x`.
pub open spec fn holds_id(h: StorageView, x: i64) -> bool {
    exists|i: int| 0 <= i < h.entries.len() && #[trigger] h.entries[i].item.id == x
}

/// How to bring a copy of the history kept elsewhere up to date: the
/// identifiers to delete there, and the positions of the rows to insert.
pub struct SavePlan {
    pub delete: Vec<i64>,
    pub insert: Vec<usize>,
}

fn vec_has(v: &Vec<i64>, x: i64) -> (b: bool)
    ensures
        b == v@.contains(x),
{
    let mut i: usize = 0;
    while i < v.len()
        invariant
            i <= v.len(),
            forall|j: int| 0 <= j < i ==> v@[j] != x,
        decreases v.len() - i,
    {
        if v[i] == x {
            return true;
        }
        i = i + 1;
    }
    false
}

impl Storage {
    fn has_id(&self, x: i64) -> (b: bool)
        ensures
            b == holds_id(self@, x),
    {
        let mut i: usize = 0;
        while i < self.entries.len()
            invariant
                i <= self.entries.len(),
                forall|j: int| 0 <= j < i ==> #[trigger] self@.entries[j].item.id != x,
            decreases self.entries.len() - i,
        {
            assert(self@.entries[i as int] == self.entries@[i as int]@);
            if self.entries[i].item.id == x {
                assert(self@.entries[i as int].item.id == x);
                return true;
            }
            i = i + 1;
        }
        false
    }

    /// Compares the history with the identifiers a copy kept elsewhere holds:
    /// the copy must delete exactly the identifiers the history no longer
    /// holds, and insert exactly the rows whose identifiers it lacks.
    pub fn save_plan(&self, stored_ids: &Vec<i64>) -> (p: SavePlan)
        ensures
            forall|x: i64|
                #![trigger p.delete@.contains(x)]
                p.delete@.contains(x) <==> stored_ids@.contains(x) && !holds_id(self@, x),
            forall|i: usize|
                #![trigger p.insert@.contains(i)]
                p.insert@.contains(i) <==> (i < self@.entries.len() && !stored_ids@.contains(
                    self@.entries[i as int].item.id,
                )),
    {
        let mut delete: Vec<i64> = Vec::new();
        let mut k: usize = 0;
        while k < stored_ids.len()
            invariant
                k <= stored_ids.len(),
                forall|x: i64|
                    #![trigger delete@.contains(x)]
                    delete@.contains(x) <==> stored_ids@.take(k as int).contains(x) && !holds_id(
                        self@,
                        x,
                    ),
            decreases stored_ids.len() - k,
        {
            let x = stored_ids[k];
            let ghost before = delete@;
            if !self.has_id(x) {
                delete.push(x);
                assert forall|y: i64| #[trigger] delete@.contains(y) <==> before.contains(y) || y == x by {
                    if y == x {
                        assert(delete@[delete@.len() - 1] == x);
                    }
                    if before.contains(y) {
                        let j = choose|j: int| 0 <= j < before.len() && before[j] == y;
                        assert(delete@[j] == y);
                    }
                    if delete@.contains(y) && y != x {
                        let j = choose|j: int| 0 <= j < delete@.len() && delete@[j] == y;
                        assert(before[j] == y);
                    }
                }
            }
            let ghost pre = stored_ids@.take(k as int);
            assert(stored_ids@.take(k + 1) =~= pre.push(x));
            assert forall|y: i64| #[trigger] pre.push(x).contains(y) <==> pre.contains(y) || y == x by {
                if y == x {
                    assert(pre.push(x)[pre.len() as int] == x);
                }
                if pre.contains(y) {
                    let j = choose|j: int| 0 <= j < pre.len() && pre[j] == y;
                    assert(pre.push(x)[j] == y);
                }
                if pre.push(x).contains(y) && y != x {
                    let j = choose|j: int| 0 <= j < pre.push(x).len() && pre.push(x)[j] == y;
                    assert(pre[j] == y);
                }
            }
            k = k + 1;
        }
        assert(stored_ids@.take(stored_ids@.len() as int) =~= stored_ids@);
        let mut insert: Vec<usize> = Vec::new();
        let mut i: usize = 0;
        while i < self.entries.len()
            invariant
                i <= self.entries.len(),
                forall|m: usize|
                    #![trigger insert@.contains(m)]
                    insert@.contains(m) <==> (m < i && !stored_ids@.contains(
                        self@.entries[m as int].item.id,
                    )),
            decreases self.entries.len() - i,
        {
            assert(self@.entries[i as int] == self.entries@[i as int]@);
            let ghost before = insert@;
            if !vec_has(stored_ids, self.entries[i].item.id) {
                insert.push(i);
                assert forall|m: usize| #[trigger] insert@.contains(m) <==> before.contains(m) || m == i by {
                    if m == i {
                        assert(insert@[insert@.len() - 1] == i);
                    }
                    if before.contains(m) {
                        let j = choose|j: int| 0 <= j < before.len() && before[j] == m;
                        assert(insert@[j] == m);
                    }
                    if insert@.contains(m) && m != i {
                        let j = choose|j: int| 0 <= j < insert@.len() && insert@[j] == m;
                        assert(before[j] == m);
                    }
                }
            }
            i = i + 1;
        }
        SavePlan { delete, insert }
    }
}

/// `count` little-endian bytes keep a number modulo `256^count`: two numbers
/// give the same bytes exactly when they agree there.
pub proof fn lemma_le_bytes_keep_the_number(a: nat, b: nat, count: nat)
    ensures
        le_bytes(a, count).len() == count,
        le_bytes(a, count) == le_bytes(b, count) <==> a % text::power(256, count) == b % text::power(
            256,
            count,
        ),
    decreases count,
{
    if count > 0 {
        let k = (count - 1) as nat;
        lemma_le_bytes_keep_the_number(a / 256, b / 256, k);
        lemma_le_bytes_keep_the_number(a / 256, a / 256, k);
        text::lemma_power_positive(256, k);
        vstd::arithmetic::div_mod::lemma_breakdown(a as int, 256, text::power(256, k) as int);
        vstd::arithmetic::div_mod::lemma_breakdown(b as int, 256, text::power(256, k) as int);
        let la = le_bytes(a, count);
        let lb = le_bytes(b, count);
        assert(la.drop_first() =~= le_bytes(a / 256, k));
        assert(lb.drop_first() =~= le_bytes(b / 256, k));
        let da = a % 256;
        let db = b % 256;
        assert(la[0] == da as u8 && lb[0] == db as u8);
        if la == lb {
            assert(la[0] == lb[0]);
            assert(da == db);
        }
        if a % text::power(256, count) == b % text::power(256, count) {
            let x = (a / 256) % text::power(256, k);
            let y = (b / 256) % text::power(256, k);
            assert(256 * x + da == 256 * y + db);
            assert(da == db && x == y);
            assert(la =~= lb);
        }
    }
}

/// The fingerprint reads the whole image. It is the rendering of the
/// `DefaultHasher` digest of [`fingerprint_writes`], so two images share a
/// fingerprint only if the hasher gives their writes the same digest; those
/// writes end with every byte of the pixels, and two images give the same
/// writes only when they have the same width, height and pixels.
pub proof fn lemma_fingerprint_reads_the_whole_image(
    r1: Seq<u8>,
    w1: u32,
    h1: u32,
    r2: Seq<u8>,
    w2: u32,
    h2: u32,
)
    ensures
        image_fingerprint(r1, w1, h1) == image_fingerprint(r2, w2, h2) ==> DefaultHasher::spec_finish(
            fingerprint_writes(r1, w1, h1),
        ) == DefaultHasher::spec_finish(fingerprint_writes(r2, w2, h2)),
        fingerprint_writes(r1, w1, h1).last() == r1,
        fingerprint_writes(r1, w1, h1) == fingerprint_writes(r2, w2, h2) ==> r1 == r2 && w1 == w2
            && h1 == h2,
{
    let d1 = DefaultHasher::spec_finish(fingerprint_writes(r1, w1, h1));
    let d2 = DefaultHasher::spec_finish(fingerprint_writes(r2, w2, h2));
    text::lemma_hex_fixed_keeps_every_digit(d1 as nat, d2 as nat, 16);
    assert(text::power(16, 16) == 0x1_0000_0000_0000_0000) by {
        reveal_with_fuel(text::power, 17);
    }
    assert(text::power(256, 4) == 0x1_0000_0000) by {
        reveal_with_fuel(text::power, 5);
    }
    lemma_le_bytes_keep_the_number(w1 as nat, w2 as nat, 4);
    lemma_le_bytes_keep_the_number(h1 as nat, h2 as nat, 4);
    let f1 = fingerprint_writes(r1, w1, h1);
    let f2 = fingerprint_writes(r2, w2, h2);
    if f1 == f2 {
        assert(f1[0] == f2[0] && f1[1] == f2[1] && f1[3] == f2[3]);
    }
}

} // verus!
