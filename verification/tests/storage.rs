use std::hash::{Hash, Hasher};

use reclip::model::Content;
use reclip::storage::{
    millis_since_epoch, now_millis, encode_png, rgba_hash, AddOutcome, EncodeError, Storage, StoredItem, MAX_ITEMS, MAX_TEXT_BYTES,
};

fn texts(storage: &Storage) -> Vec<String> {
    storage
        .list(MAX_ITEMS).unwrap()
        .into_iter()
        .map(|item| item.text().unwrap().to_string())
        .collect()
}

/// A solid RGBA image `width × height` (compresses to a tiny PNG).
fn solid_rgba(width: u32, height: u32, fill: u8) -> Vec<u8> {
    vec![fill; (width * height * 4) as usize]
}

/// A noisy RGBA image: compresses badly, so its PNG is large. Deterministic
/// xorshift so the test is stable.
fn noise_rgba(width: u32, height: u32) -> Vec<u8> {
    let n = (width * height * 4) as usize;
    let mut v = Vec::with_capacity(n);
    let mut state: u32 = 0x1234_5678;
    for _ in 0..n {
        state ^= state << 13;
        state ^= state >> 17;
        state ^= state << 5;
        v.push((state & 0xff) as u8);
    }
    v
}

#[test]
fn add_then_list_returns_item() {
    let mut s = Storage::open_in_memory().unwrap();
    assert_eq!(s.add_text("привет").unwrap(), AddOutcome::Added);
    assert_eq!(texts(&s), vec!["привет"]);
}

#[test]
fn newest_item_is_first() {
    let mut s = Storage::open_in_memory().unwrap();
    s.add_text("первый").unwrap();
    s.add_text("второй").unwrap();
    s.add_text("третий").unwrap();
    assert_eq!(texts(&s), vec!["третий", "второй", "первый"]);
}

#[test]
fn duplicate_is_bumped_to_top_not_duplicated() {
    let mut s = Storage::open_in_memory().unwrap();
    s.add_text("a").unwrap();
    s.add_text("b").unwrap();
    assert_eq!(s.add_text("a").unwrap(), AddOutcome::Bumped);
    assert_eq!(texts(&s), vec!["a", "b"]);
    assert_eq!(s.count().unwrap(), 2);
}

#[test]
fn empty_or_whitespace_is_ignored() {
    let mut s = Storage::open_in_memory().unwrap();
    assert_eq!(s.add_text("").unwrap(), AddOutcome::Ignored);
    assert_eq!(s.add_text("   \n\t ").unwrap(), AddOutcome::Ignored);
    assert_eq!(s.count().unwrap(), 0);
}

#[test]
fn oversized_text_is_ignored() {
    let mut s = Storage::open_in_memory().unwrap();
    let big = "x".repeat(MAX_TEXT_BYTES + 1);
    assert_eq!(s.add_text(&big).unwrap(), AddOutcome::Ignored);
    assert_eq!(s.count().unwrap(), 0);
}

#[test]
fn history_is_trimmed_to_max_items() {
    let mut s = Storage::open_in_memory().unwrap();
    for i in 0..(MAX_ITEMS + 10) {
        s.add_text(&format!("item-{i}")).unwrap();
    }
    assert_eq!(s.count().unwrap(), MAX_ITEMS);
    let all = texts(&s);
    assert_eq!(all.first().unwrap(), &format!("item-{}", MAX_ITEMS + 9));
    assert!(!all.contains(&"item-0".to_string()));
}

#[test]
fn add_image_then_list_returns_image_as_png() {
    let mut s = Storage::open_in_memory().unwrap();
    assert_eq!(s.add_image(&solid_rgba(4, 3, 200), 4, 3).unwrap(), AddOutcome::Added);

    let items = s.list(MAX_ITEMS).unwrap();
    assert_eq!(items.len(), 1);
    let (png, w, h) = items[0].image().expect("должна быть картинка");
    assert_eq!((w, h), (4, 3));
    assert_eq!(&png[..4], &[0x89, b'P', b'N', b'G']);
}

#[test]
fn duplicate_image_is_bumped_to_top() {
    let mut s = Storage::open_in_memory().unwrap();
    let a = solid_rgba(2, 2, 10);
    let b = solid_rgba(2, 2, 20);
    s.add_image(&a, 2, 2).unwrap();
    s.add_image(&b, 2, 2).unwrap();
    assert_eq!(s.add_image(&a, 2, 2).unwrap(), AddOutcome::Bumped);
    assert_eq!(s.count().unwrap(), 2);

    let items = s.list(MAX_ITEMS).unwrap();
    let (_, w0, h0) = items[0].image().unwrap();
    assert_eq!((w0, h0), (2, 2));
    let a_png = encode_png(&a, 2, 2).unwrap();
    assert_eq!(items[0].image().unwrap().0, a_png.as_slice());
}

#[test]
fn oversized_image_is_ignored() {
    let mut s = Storage::open_in_memory().unwrap();
    let big = noise_rgba(2048, 2048);
    assert_eq!(s.add_image(&big, 2048, 2048).unwrap(), AddOutcome::Ignored);
    assert_eq!(s.count().unwrap(), 0);
}

#[test]
fn malformed_rgba_is_ignored() {
    let mut s = Storage::open_in_memory().unwrap();
    assert_eq!(s.add_image(&[0u8; 10], 3, 3).unwrap(), AddOutcome::Ignored);
    assert_eq!(s.count().unwrap(), 0);
}

#[test]
fn text_and_images_coexist_newest_first() {
    let mut s = Storage::open_in_memory().unwrap();
    s.add_text("привет").unwrap();
    s.add_image(&solid_rgba(2, 2, 5), 2, 2).unwrap();
    s.add_text("пока").unwrap();

    let items = s.list(MAX_ITEMS).unwrap();
    assert_eq!(items.len(), 3);
    assert_eq!(items[0].text(), Some("пока"));
    assert!(items[1].image().is_some());
    assert_eq!(items[2].text(), Some("привет"));
}

// --- further cases ---

#[test]
fn text_of_exactly_max_bytes_is_taken() {
    let mut s = Storage::open_in_memory().unwrap();
    let edge = "x".repeat(MAX_TEXT_BYTES);
    assert_eq!(s.add_text(&edge).unwrap(), AddOutcome::Added);
    // Multi-byte characters count by their UTF-8 bytes: 524289 two-byte
    // characters are one byte over the limit.
    let wide = "ж".repeat(MAX_TEXT_BYTES / 2 + 1);
    assert_eq!(s.add_text(&wide).unwrap(), AddOutcome::Ignored);
    assert_eq!(s.count().unwrap(), 1);
}

#[test]
fn text_with_content_around_whitespace_is_kept_as_is() {
    let mut s = Storage::open_in_memory().unwrap();
    assert_eq!(s.add_text("  a \n").unwrap(), AddOutcome::Added);
    assert_eq!(texts(&s), vec!["  a \n"]);
    // Unicode whitespace alone is blank too.
    assert_eq!(s.add_text("\u{3000}\u{2028}").unwrap(), AddOutcome::Ignored);
}

#[test]
fn add_text_at_stamps_time_and_ids_grow() {
    let mut s = Storage::open_in_memory().unwrap();
    assert_eq!(s.add_text_at("a", 1000).unwrap(), AddOutcome::Added);
    assert_eq!(s.add_text_at("b", 2000).unwrap(), AddOutcome::Added);
    assert_eq!(s.add_text_at("a", 3000).unwrap(), AddOutcome::Bumped);
    let items = s.list(10).unwrap();
    assert_eq!(items[0].id, 3);
    assert_eq!(items[0].created_at, 3000);
    assert_eq!(items[1].id, 2);
    assert_eq!(items[1].created_at, 2000);
    assert_eq!(s.last_id(), 3);
}

#[test]
fn list_respects_limit() {
    let mut s = Storage::open_in_memory().unwrap();
    for t in ["a", "b", "c"] {
        s.add_text_at(t, 0).unwrap();
    }
    assert_eq!(s.list(2).unwrap().len(), 2);
    assert_eq!(s.list(0).unwrap().len(), 0);
    assert_eq!(s.list(100).unwrap().len(), 3);
    assert_eq!(s.list(2).unwrap()[1].text(), Some("b"));
}

#[test]
fn trimming_drops_the_oldest_and_keeps_order() {
    let mut s = Storage::open_in_memory().unwrap();
    for i in 0..(MAX_ITEMS + 1) {
        s.add_text_at(&format!("t{i}"), i as i64).unwrap();
    }
    let all = texts(&s);
    assert_eq!(all.len(), MAX_ITEMS);
    assert_eq!(all.last().unwrap(), "t1");
    // Bumping an entry of a full history keeps the count.
    assert_eq!(s.add_text_at("t50", 0).unwrap(), AddOutcome::Bumped);
    assert_eq!(s.count().unwrap(), MAX_ITEMS);
    assert_eq!(texts(&s)[0], "t50");
}

#[test]
fn same_pixels_with_another_size_are_another_image() {
    let mut s = Storage::open_in_memory().unwrap();
    let px = solid_rgba(2, 2, 1);
    assert_eq!(s.add_image(&px, 2, 2).unwrap(), AddOutcome::Added);
    assert_eq!(s.add_image(&px, 4, 1).unwrap(), AddOutcome::Added);
    assert_eq!(s.count().unwrap(), 2);
}

#[test]
fn text_never_bumps_an_image() {
    let mut s = Storage::open_in_memory().unwrap();
    s.add_image(&solid_rgba(1, 1, 3), 1, 1).unwrap();
    let h = rgba_hash(&solid_rgba(1, 1, 3), 1, 1);
    // A text that equals the image's fingerprint is a different clip.
    assert_eq!(s.add_text(&h).unwrap(), AddOutcome::Added);
    assert_eq!(s.count().unwrap(), 2);
}

#[test]
fn zero_sized_image_is_ignored() {
    let mut s = Storage::open_in_memory().unwrap();
    assert_eq!(s.add_image(&[], 0, 0).unwrap(), AddOutcome::Ignored);
    assert_eq!(s.count().unwrap(), 0);
}

#[test]
fn encode_png_errors() {
    assert_eq!(
        encode_png(&[0u8; 10], 3, 3),
        Err(EncodeError::LengthMismatch { expected: 36, actual: 10 })
    );
    assert_eq!(encode_png(&[], u32::MAX, u32::MAX), Err(EncodeError::TooLarge));
    assert_eq!(encode_png(&[], 0, 5), Err(EncodeError::Encoder));
    let png = encode_png(&solid_rgba(1, 1, 0), 1, 1).unwrap();
    assert_eq!(&png[..8], &[0x89, b'P', b'N', b'G', 0x0d, 0x0a, 0x1a, 0x0a]);
}

#[test]
fn rgba_hash_is_the_default_hasher_digest_of_size_and_pixels() {
    let px = vec![1u8, 2, 3, 4, 5, 6, 7, 8];
    let mut h = std::collections::hash_map::DefaultHasher::new();
    2u32.hash(&mut h);
    1u32.hash(&mut h);
    px.as_slice().hash(&mut h);
    let expected = format!("{:016x}", h.finish());
    let got = rgba_hash(&px, 2, 1);
    assert_eq!(got, expected);
    assert_eq!(got.len(), 16);
    assert_ne!(rgba_hash(&px, 1, 2), got);
}

#[test]
fn restore_checks_order_and_ids() {
    let row = |id: i64, t: &str| StoredItem {
        item: reclip::model::ClipItem { id, content: Content::Text(t.to_string()), created_at: 0 },
        fingerprint: None,
    };
    let s = Storage::restore(vec![row(5, "b"), row(2, "a")], 7).unwrap();
    assert_eq!(s.count().unwrap(), 2);
    assert_eq!(s.last_id(), 7);
    assert_eq!(s.entries()[0].item.id, 5);
    assert!(Storage::restore(vec![row(2, "a"), row(5, "b")], 7).is_none());
    assert!(Storage::restore(vec![row(8, "a")], 7).is_none());
    // Ids below 1 (rows written by hand) are read as they are.
    assert_eq!(Storage::restore(vec![row(0, "a"), row(-3, "b")], 7).unwrap().count().unwrap(), 2);
    assert!(Storage::restore(vec![], -1).is_none());
    let mut s = s;
    assert_eq!(s.add_text_at("a", 1).unwrap(), AddOutcome::Bumped);
    assert_eq!(s.list(10).unwrap()[0].id, 8);
}

#[test]
fn exhausted_ids_are_an_error_and_change_nothing() {
    let mut s = Storage::restore(vec![], i64::MAX).unwrap();
    assert_eq!(s.add_text_at("a", 0), Err(reclip::storage::StorageError::IdsExhausted));
    assert_eq!(s.count().unwrap(), 0);
    assert_eq!(s.add_text_at(" ", 0), Ok(AddOutcome::Ignored));
}

#[test]
fn millis_since_epoch_cuts_to_i64_and_maps_pre_epoch_to_zero() {
    assert_eq!(millis_since_epoch(None), 0);
    assert_eq!(millis_since_epoch(Some(1_700_000_000_123)), 1_700_000_000_123);
    assert_eq!(millis_since_epoch(Some(u128::from(u64::MAX))), -1);
    assert_eq!(millis_since_epoch(Some(1u128 << 64)), 0);
}

#[test]
fn now_millis_reads_the_clock() {
    let expected = std::time::SystemTime::now()
        .duration_since(std::time::UNIX_EPOCH)
        .unwrap()
        .as_millis() as i64;
    let got = now_millis();
    assert!((got - expected).abs() < 60_000);
}

#[test]
fn encoded_png_opens_with_the_signature_and_zero_sides_are_refused() {
    let png = encode_png(&solid_rgba(3, 2, 7), 3, 2).unwrap();
    assert_eq!(&png[..8], &[137, 80, 78, 71, 13, 10, 26, 10]);
    assert_eq!(encode_png(&[], 3, 0), Err(EncodeError::Encoder));
}

#[test]
fn list_runs_from_newest_to_oldest() {
    let mut s = Storage::open_in_memory().unwrap();
    for t in ["a", "b", "c", "a"] {
        s.add_text_at(t, 0).unwrap();
    }
    let ids: Vec<i64> = s.list(10).unwrap().iter().map(|i| i.id).collect();
    assert_eq!(ids, vec![4, 3, 2]);
}

#[test]
fn well_formed_images_are_recorded() {
    let mut s = Storage::open_in_memory().unwrap();
    assert_eq!(s.add_image(&solid_rgba(1, 1, 0), 1, 1).unwrap(), AddOutcome::Added);
    assert!(encode_png(&solid_rgba(5, 7, 1), 5, 7).is_ok());
}

#[test]
fn save_plan_deletes_dropped_ids_and_inserts_new_rows() {
    let mut s = Storage::open_in_memory().unwrap();
    for t in ["a", "b", "c"] {
        s.add_text_at(t, 0).unwrap();
    }
    // The copy holds rows 1 and 2 and a row 9 the history never had.
    s.add_text_at("a", 0).unwrap(); // row 1 goes, row 4 comes
    let plan = s.save_plan(&vec![1, 2, 9]);
    let mut delete = plan.delete.clone();
    delete.sort();
    assert_eq!(delete, vec![1, 9]);
    let ids: Vec<i64> = plan.insert.iter().map(|&i| s.entries()[i].item.id).collect();
    assert_eq!(ids, vec![4, 3]);
    let empty = s.save_plan(&vec![4, 3, 2]);
    assert!(empty.delete.is_empty() && empty.insert.is_empty());
}
