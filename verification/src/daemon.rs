//! One poll of the clipboard watcher: read the clipboard and, when what it
//! holds changed since the last poll, record it in the history. A text is
//! preferred; without one, an image is tried.
use vstd::prelude::*;

use crate::clipboard::{ClipImage, Clipboard, ClipboardError, MockClipboard};
use crate::storage;
use crate::storage::{rgba_hash, now_millis, AddOutcome, Storage, StorageError};

verus! {

/// How long the watcher waits between two polls, in milliseconds.
pub const POLL_INTERVAL_MS: u64 = 500;

/// What the watcher handled on the previous poll: the text itself, or the
/// fingerprint of the image's pixels.
#[derive(Debug, PartialEq, Eq)]
pub enum LastSeen {
    Text(String),
    Image(String),
}

/// The mathematical value of a [`LastSeen`].
pub enum LastSeenView {
    Text(Seq<char>),
    Image(Seq<char>),
}

impl View for LastSeen {
    type V = LastSeenView;

    open spec fn view(&self) -> LastSeenView {
        match self {
            LastSeen::Text(t) => LastSeenView::Text(t@),
            LastSeen::Image(f) => LastSeenView::Image(f@),
        }
    }
}

/// The view of an optional [`LastSeen`].
pub open spec fn last_seen_view(o: Option<LastSeen>) -> Option<LastSeenView> {
    match o {
        Some(l) => Some(l@),
        None => None,
    }
}

/// Why a poll failed.
#[derive(Debug)]
pub enum PollError {
    /// The clipboard could not be read.
    Clipboard(ClipboardError),
    /// The history could not record the clip.
    Storage(StorageError),
}

/// The result of adding a clip, as a poll reports it.
pub open spec fn as_poll_result(r: Result<AddOutcome, StorageError>) -> Result<
    Option<AddOutcome>,
    StorageError,
> {
    match r {
        Ok(o) => Ok(Some(o)),
        Err(e) => Err(e),
    }
}

/// A poll that found text `t`: nothing when `t` is what the previous poll
/// handled; else `t` becomes the last seen clip, whether or not the history
/// takes it, and the history adds it at time `now`.
pub open spec fn poll_text_spec(
    h: storage::StorageView,
    last: Option<LastSeenView>,
    t: Seq<char>,
    now: i64,
) -> (Result<Option<AddOutcome>, StorageError>, storage::StorageView, Option<LastSeenView>) {
    if last == Some(LastSeenView::Text(t)) {
        (Ok(None), h, last)
    } else {
        let (r, n) = storage::add_text_spec(h, t, now);
        (as_poll_result(r), n, Some(LastSeenView::Text(t)))
    }
}

/// A poll that found an image: nothing when the fingerprint of its pixels is
/// the one the previous poll handled; else that fingerprint becomes the last
/// seen clip and the history adds the image at time `now`.
pub open spec fn poll_image_spec(
    h: storage::StorageView,
    last: Option<LastSeenView>,
    img: crate::clipboard::ClipImageView,
    now: i64,
) -> (Result<Option<AddOutcome>, StorageError>, storage::StorageView, Option<LastSeenView>) {
    let f = storage::image_fingerprint(img.rgba, img.width, img.height);
    if last == Some(LastSeenView::Image(f)) {
        (Ok(None), h, last)
    } else {
        let (r, n) = storage::add_image_spec(h, img.rgba, img.width, img.height, now);
        (as_poll_result(r), n, Some(LastSeenView::Image(f)))
    }
}

fn same_text(last: &Option<LastSeen>, text: &String) -> (b: bool)
    ensures
        b == (last_seen_view(*last) == Some(LastSeenView::Text(text@))),
{
    match last {
        Some(LastSeen::Text(t)) => t.eq(text),
        _ => false,
    }
}

fn same_image(last: &Option<LastSeen>, fingerprint: &String) -> (b: bool)
    ensures
        b == (last_seen_view(*last) == Some(LastSeenView::Image(fingerprint@))),
{
    match last {
        Some(LastSeen::Image(f)) => f.eq(fingerprint),
        _ => false,
    }
}

/// Handles a text found on the clipboard at time `now`.
pub fn poll_text(
    storage: &mut Storage,
    last_seen: &mut Option<LastSeen>,
    text: String,
    now: i64,
) -> (r: Result<Option<AddOutcome>, StorageError>)
    ensures
        (r, final(storage)@, last_seen_view(*final(last_seen))) == poll_text_spec(
            old(storage)@,
            last_seen_view(*old(last_seen)),
            text@,
            now,
        ),
{
    if same_text(last_seen, &text) {
        return Ok(None);
    }
    let r = storage.add_text_at(text.as_str(), now);
    *last_seen = Some(LastSeen::Text(text));
    match r {
        Ok(o) => Ok(Some(o)),
        Err(e) => Err(e),
    }
}

/// Handles an image found on the clipboard at time `now`.
pub fn poll_image(
    storage: &mut Storage,
    last_seen: &mut Option<LastSeen>,
    img: &ClipImage,
    now: i64,
) -> (r: Result<Option<AddOutcome>, StorageError>)
    ensures
        (r, final(storage)@, last_seen_view(*final(last_seen))) == poll_image_spec(
            old(storage)@,
            last_seen_view(*old(last_seen)),
            img@,
            now,
        ),
{
    let fingerprint = rgba_hash(img.rgba.as_slice(), img.width, img.height);
    if same_image(last_seen, &fingerprint) {
        return Ok(None);
    }
    let r = storage.add_image_at(img.rgba.as_slice(), img.width, img.height, now);
    *last_seen = Some(LastSeen::Image(fingerprint));
    match r {
        Ok(o) => Ok(Some(o)),
        Err(e) => Err(e),
    }
}

/// A poll given what the clipboard held: its text, and, only when it held no
/// text, its image. A text is handled as [`poll_text_spec`] says; without a
/// text an image is handled as [`poll_image_spec`] says; with neither the poll
/// finds nothing and changes nothing.
pub open spec fn poll_step_spec(
    h: storage::StorageView,
    last: Option<LastSeenView>,
    text: Option<Seq<char>>,
    image: Option<crate::clipboard::ClipImageView>,
    now: i64,
) -> (Result<Option<AddOutcome>, StorageError>, storage::StorageView, Option<LastSeenView>) {
    match text {
        Some(t) => poll_text_spec(h, last, t, now),
        None => match image {
            Some(i) => poll_image_spec(h, last, i, now),
            None => (Ok(None), h, last),
        },
    }
}

/// The part of a poll's result that the history gave, or `None` for a failed
/// clipboard read.
pub open spec fn history_part(r: Result<Option<AddOutcome>, PollError>) -> Option<
    Result<Option<AddOutcome>, StorageError>,
> {
    match r {
        Ok(o) => Some(Ok(o)),
        Err(PollError::Storage(e)) => Some(Err(e)),
        Err(PollError::Clipboard(_)) => None,
    }
}

/// Handles what one poll read from the clipboard at time `now`: the text when
/// there is one, else the image, else nothing.
pub fn poll_step(
    storage: &mut Storage,
    last_seen: &mut Option<LastSeen>,
    text: Option<String>,
    image: Option<ClipImage>,
    now: i64,
) -> (r: Result<Option<AddOutcome>, StorageError>)
    ensures
        (r, final(storage)@, last_seen_view(*final(last_seen))) == poll_step_spec(
            old(storage)@,
            last_seen_view(*old(last_seen)),
            crate::clipboard::opt_text_view(text),
            crate::clipboard::opt_image_view(image),
            now,
        ),
{
    match text {
        Some(t) => poll_text(storage, last_seen, t, now),
        None => match image {
            Some(img) => poll_image(storage, last_seen, &img, now),
            None => Ok(None),
        },
    }
}

/// One poll: reads the clipboard's text and, only when there is none, its
/// image, and hands both reads to [`poll_step`] with the current time. What the
/// clipboard gives is up to it. Whatever it gives, a failed read changes
/// nothing; otherwise the result, the history and the last seen clip are those
/// of [`poll_step_spec`] for the text the clipboard answered, the image it
/// answered when it had no text (none when it had), and some time: the
/// answers are ones that `text_reading` and `image_reading` allow. In particular a poll that records nothing, or is
/// ignored, or that the history cannot take, leaves the history as it was; the
/// history fails only once every identifier is spent; and a recorded clip
/// stands first under the next identifier.
pub fn poll_once<C: Clipboard>(
    clipboard: &mut C,
    storage: &mut Storage,
    last_seen: &mut Option<LastSeen>,
) -> (r: Result<Option<AddOutcome>, PollError>)
    ensures
        history_part(r) is None ==> final(storage)@ == old(storage)@ && last_seen_view(
            *final(last_seen),
        ) == last_seen_view(*old(last_seen)),
        history_part(r) matches Some(hr) ==> exists|
            text: Option<Seq<char>>,
            image: Option<crate::clipboard::ClipImageView>,
            now: i64,
        |
            old(clipboard).text_reading(text) && (text is None ==> old(
                clipboard,
            ).image_reading(image)) && (text is None || image is None) && #[trigger] poll_step_spec(
                old(storage)@,
                last_seen_view(*old(last_seen)),
                text,
                image,
                now,
            ) == (hr, final(storage)@, last_seen_view(*final(last_seen))),
        r matches Ok(None) ==> final(storage)@ == old(storage)@ && last_seen_view(
            *final(last_seen),
        ) == last_seen_view(*old(last_seen)),
        r matches Ok(Some(AddOutcome::Ignored)) ==> final(storage)@ == old(storage)@,
        r matches Err(PollError::Storage(_)) ==> final(storage)@ == old(storage)@
            && old(storage)@.last_id == i64::MAX,
        (r matches Ok(Some(AddOutcome::Added)) || r matches Ok(Some(AddOutcome::Bumped)))
            ==> final(storage)@.last_id == old(storage)@.last_id + 1
            && final(storage)@.entries.len() >= 1
            && final(storage)@.entries[0].item.id == final(storage)@.last_id,
        r matches Ok(Some(_)) ==> *final(last_seen) is Some,
{
    let ghost h0 = storage@;
    let ghost l0 = last_seen_view(*last_seen);
    let text = match clipboard.get_text() {
        Ok(t) => t,
        Err(e) => {
            return Err(PollError::Clipboard(e));
        },
    };
    let image = if text.is_some() {
        None
    } else {
        match clipboard.get_image() {
            Ok(i) => i,
            Err(e) => {
                return Err(PollError::Clipboard(e));
            },
        }
    };
    let ghost tv = crate::clipboard::opt_text_view(text);
    let ghost iv = crate::clipboard::opt_image_view(image);
    let now = now_millis();
    let r = poll_step(storage, last_seen, text, image, now);
    assert(poll_step_spec(h0, l0, tv, iv, now) == (r, storage@, last_seen_view(*last_seen)));
    match r {
        Ok(o) => Ok(o),
        Err(e) => Err(PollError::Storage(e)),
    }
}

/// A clipboard that keeps the same text is recorded once: the poll after the
/// one that handled a text finds nothing new and changes nothing, whether or
/// not the history took the text.
pub proof fn lemma_unchanged_text_is_recorded_once(
    h: storage::StorageView,
    last: Option<LastSeenView>,
    t: Seq<char>,
    now1: i64,
    now2: i64,
)
    ensures
        ({
            let (_, h1, l1) = poll_text_spec(h, last, t, now1);
            poll_text_spec(h1, l1, t, now2) == (Ok::<Option<AddOutcome>, StorageError>(None), h1, l1)
        }),
{
}

/// The same for images: the poll after the one that handled an image with the
/// same pixels finds nothing new and changes nothing.
pub proof fn lemma_unchanged_image_is_recorded_once(
    h: storage::StorageView,
    last: Option<LastSeenView>,
    img: crate::clipboard::ClipImageView,
    now1: i64,
    now2: i64,
)
    ensures
        ({
            let (_, h1, l1) = poll_image_spec(h, last, img, now1);
            poll_image_spec(h1, l1, img, now2) == (Ok::<Option<AddOutcome>, StorageError>(None), h1, l1)
        }),
{
}

/// The poll recorded a clip: it was added or bumped.
pub open spec fn recorded(r: Result<Option<AddOutcome>, StorageError>) -> bool {
    r == Ok::<Option<AddOutcome>, StorageError>(Some(AddOutcome::Added)) || r == Ok::<
        Option<AddOutcome>,
        StorageError,
    >(Some(AddOutcome::Bumped))
}

/// A poll of the in-memory clipboard, with the answers its reads give (as
/// [`poll_once`] guarantees), handles what the clipboard holds. A held text,
/// exactly as held, becomes the last seen clip and, when recorded, the newest
/// entry, with no other entry holding it. Without a text, a held image becomes
/// the last seen clip by its fingerprint and, when recorded, the newest entry
/// as the PNG of its own pixels with its own width and height. With neither,
/// nothing changes.
pub proof fn lemma_poll_records_what_the_clipboard_holds(
    c: MockClipboard,
    h: storage::StorageView,
    last: Option<LastSeenView>,
    text: Option<Seq<char>>,
    image: Option<crate::clipboard::ClipImageView>,
    now: i64,
)
    requires
        storage::history_wf(h),
        c.text_reading(text),
        text is None ==> c.image_reading(image),
        text is None || image is None,
    ensures
        ({
            let (r, n, l) = poll_step_spec(h, last, text, image, now);
            &&& c@.text matches Some(t) ==> {
                &&& l == Some(LastSeenView::Text(t))
                &&& recorded(r) ==> n.entries[0].item.content == crate::model::ContentView::Text(t)
                &&& recorded(r) ==> forall|k: int|
                    1 <= k < n.entries.len() ==> #[trigger] n.entries[k].item.content
                        != crate::model::ContentView::Text(t)
            }
            &&& c@.text is None ==> (c@.image matches Some(i) ==> {
                &&& l == Some(
                    LastSeenView::Image(storage::image_fingerprint(i.rgba, i.width, i.height)),
                )
                &&& recorded(r) ==> (storage::png_of(i.rgba, i.width, i.height) matches Some(png)
                    && n.entries[0].item.content == (crate::model::ContentView::Image {
                    png,
                    width: i.width,
                    height: i.height,
                }))
            })
            &&& (c@.text is None && c@.image is None) ==> r == Ok::<
                Option<AddOutcome>,
                StorageError,
            >(None) && n == h && l == last
        }),
{
    if let Some(t) = text {
        storage::lemma_add_text_effects(h, t, now);
    } else if let Some(i) = image {
        storage::lemma_add_image_effects(h, i.rgba, i.width, i.height, now);
    }
}

} // verus!
