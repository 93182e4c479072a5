use reclip::clipboard::{ClipImage, MockClipboard};
use reclip::daemon::{poll_image, poll_once, poll_step, poll_text, LastSeen};
use reclip::storage::{rgba_hash, AddOutcome, Storage};

fn image(fill: u8) -> ClipImage {
    ClipImage { width: 2, height: 2, rgba: vec![fill; 2 * 2 * 4] }
}

#[test]
fn adds_new_text() {
    let mut storage = Storage::open_in_memory().unwrap();
    let mut cb = MockClipboard::new();
    let mut last = None;

    cb.put("привет");
    let out = poll_once(&mut cb, &mut storage, &mut last).unwrap();

    assert_eq!(out, Some(AddOutcome::Added));
    assert_eq!(storage.count().unwrap(), 1);
    assert_eq!(last, Some(LastSeen::Text("привет".to_string())));
}

#[test]
fn unchanged_text_is_not_added_again() {
    let mut storage = Storage::open_in_memory().unwrap();
    let mut cb = MockClipboard::new();
    let mut last = None;

    cb.put("x");
    poll_once(&mut cb, &mut storage, &mut last).unwrap();
    let out = poll_once(&mut cb, &mut storage, &mut last).unwrap();

    assert_eq!(out, None);
    assert_eq!(storage.count().unwrap(), 1);
}

#[test]
fn changed_text_is_added() {
    let mut storage = Storage::open_in_memory().unwrap();
    let mut cb = MockClipboard::new();
    let mut last = None;

    cb.put("первый");
    poll_once(&mut cb, &mut storage, &mut last).unwrap();
    cb.put("второй");
    let out = poll_once(&mut cb, &mut storage, &mut last).unwrap();

    assert_eq!(out, Some(AddOutcome::Added));
    assert_eq!(storage.count().unwrap(), 2);
}

#[test]
fn empty_clipboard_does_nothing() {
    let mut storage = Storage::open_in_memory().unwrap();
    let mut cb = MockClipboard::new();
    let mut last = None;

    let out = poll_once(&mut cb, &mut storage, &mut last).unwrap();

    assert_eq!(out, None);
    assert_eq!(storage.count().unwrap(), 0);
}

#[test]
fn filtered_text_is_not_reprocessed() {
    let mut storage = Storage::open_in_memory().unwrap();
    let mut cb = MockClipboard::new();
    let mut last = None;

    cb.put("   \n  ");
    let first = poll_once(&mut cb, &mut storage, &mut last).unwrap();
    let second = poll_once(&mut cb, &mut storage, &mut last).unwrap();

    assert_eq!(first, Some(AddOutcome::Ignored));
    assert_eq!(second, None);
    assert_eq!(storage.count().unwrap(), 0);
}

#[test]
fn reselecting_old_item_bumps_it_to_top() {
    let mut storage = Storage::open_in_memory().unwrap();
    let mut cb = MockClipboard::new();
    let mut last = None;

    cb.put("a");
    poll_once(&mut cb, &mut storage, &mut last).unwrap();
    cb.put("b");
    poll_once(&mut cb, &mut storage, &mut last).unwrap();
    cb.put("a");
    let out = poll_once(&mut cb, &mut storage, &mut last).unwrap();

    assert_eq!(out, Some(AddOutcome::Bumped));
    let items = storage.list(10).unwrap();
    assert_eq!(items[0].text().unwrap(), "a");
    assert_eq!(storage.count().unwrap(), 2);
}

#[test]
fn adds_new_image() {
    let mut storage = Storage::open_in_memory().unwrap();
    let mut cb = MockClipboard::new();
    let mut last = None;

    cb.put_image(image(100));
    let out = poll_once(&mut cb, &mut storage, &mut last).unwrap();

    assert_eq!(out, Some(AddOutcome::Added));
    assert_eq!(storage.count().unwrap(), 1);
    assert!(storage.list(10).unwrap()[0].image().is_some());
}

#[test]
fn unchanged_image_is_not_added_again() {
    let mut storage = Storage::open_in_memory().unwrap();
    let mut cb = MockClipboard::new();
    let mut last = None;

    cb.put_image(image(50));
    poll_once(&mut cb, &mut storage, &mut last).unwrap();
    let out = poll_once(&mut cb, &mut storage, &mut last).unwrap();

    assert_eq!(out, None);
    assert_eq!(storage.count().unwrap(), 1);
}

#[test]
fn switching_between_text_and_image_records_both() {
    let mut storage = Storage::open_in_memory().unwrap();
    let mut cb = MockClipboard::new();
    let mut last = None;

    cb.put("текст");
    assert_eq!(poll_once(&mut cb, &mut storage, &mut last).unwrap(), Some(AddOutcome::Added));
    cb.put_image(image(7));
    assert_eq!(poll_once(&mut cb, &mut storage, &mut last).unwrap(), Some(AddOutcome::Added));
    cb.put("снова текст");
    assert_eq!(poll_once(&mut cb, &mut storage, &mut last).unwrap(), Some(AddOutcome::Added));

    assert_eq!(storage.count().unwrap(), 3);
    let items = storage.list(10).unwrap();
    assert_eq!(items[0].text(), Some("снова текст"));
    assert!(items[1].image().is_some());
    assert_eq!(items[2].text(), Some("текст"));
}

#[test]
fn reselecting_old_image_bumps_it_to_top() {
    let mut storage = Storage::open_in_memory().unwrap();
    let mut cb = MockClipboard::new();
    let mut last = None;

    cb.put_image(image(1));
    poll_once(&mut cb, &mut storage, &mut last).unwrap();
    cb.put_image(image(2));
    poll_once(&mut cb, &mut storage, &mut last).unwrap();
    cb.put_image(image(1));
    let out = poll_once(&mut cb, &mut storage, &mut last).unwrap();

    assert_eq!(out, Some(AddOutcome::Bumped));
    assert_eq!(storage.count().unwrap(), 2);
}

// --- further cases ---

#[test]
fn poll_text_remembers_text_even_when_ignored() {
    let mut storage = Storage::open_in_memory().unwrap();
    let mut last = None;
    assert_eq!(poll_text(&mut storage, &mut last, " ".to_string(), 1), Ok(Some(AddOutcome::Ignored)));
    assert_eq!(last, Some(LastSeen::Text(" ".to_string())));
    assert_eq!(poll_text(&mut storage, &mut last, " ".to_string(), 2), Ok(None));
    assert_eq!(poll_text(&mut storage, &mut last, "q".to_string(), 3), Ok(Some(AddOutcome::Added)));
    assert_eq!(storage.list(1).unwrap()[0].created_at, 3);
}

#[test]
fn poll_image_remembers_fingerprint() {
    let mut storage = Storage::open_in_memory().unwrap();
    let mut last = None;
    let img = image(9);
    assert_eq!(poll_image(&mut storage, &mut last, &img, 1), Ok(Some(AddOutcome::Added)));
    assert_eq!(last, Some(LastSeen::Image(rgba_hash(&img.rgba, 2, 2))));
    assert_eq!(poll_image(&mut storage, &mut last, &img, 2), Ok(None));
    // A malformed image is remembered too and not retried.
    let bad = ClipImage { width: 3, height: 3, rgba: vec![0; 5] };
    assert_eq!(poll_image(&mut storage, &mut last, &bad, 3), Ok(Some(AddOutcome::Ignored)));
    assert_eq!(poll_image(&mut storage, &mut last, &bad, 4), Ok(None));
    assert_eq!(storage.count().unwrap(), 1);
}

#[test]
fn text_after_same_text_as_image_fingerprint_is_new() {
    let mut storage = Storage::open_in_memory().unwrap();
    let mut last = Some(LastSeen::Image("abc".to_string()));
    assert_eq!(poll_text(&mut storage, &mut last, "abc".to_string(), 0), Ok(Some(AddOutcome::Added)));
}

#[test]
fn poll_step_prefers_text_then_image_then_nothing() {
    let mut storage = Storage::open_in_memory().unwrap();
    let mut last = None;
    assert_eq!(poll_step(&mut storage, &mut last, None, None, 1), Ok(None));
    assert_eq!(last, None);
    assert_eq!(storage.count().unwrap(), 0);
    assert_eq!(
        poll_step(&mut storage, &mut last, Some("t".to_string()), Some(image(3)), 2),
        Ok(Some(AddOutcome::Added))
    );
    assert_eq!(last, Some(LastSeen::Text("t".to_string())));
    assert_eq!(storage.count().unwrap(), 1);
    assert_eq!(poll_step(&mut storage, &mut last, None, Some(image(3)), 3), Ok(Some(AddOutcome::Added)));
    assert_eq!(last, Some(LastSeen::Image(rgba_hash(&image(3).rgba, 2, 2))));
    assert!(storage.list(1).unwrap()[0].image().is_some());
}
