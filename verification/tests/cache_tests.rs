use std::cell::Cell;

use image_cache::cache::{Key, LoadCache, STALENESS_DEFAULT_MS};
use image_cache::decode::{decode, ImageFormat};
use image_cache::state::{LoadContext, LoadingStatus};
use image_cache::pipeline::{fetch_error_message, load_image_async, FetchError};
use image_cache::traits::Background;

struct Spy {
    count: Cell<u32>,
}

impl Spy {
    fn new() -> Spy {
        Spy { count: Cell::new(0) }
    }
}

impl Background for Spy {
    fn start_loading_image(&self, _key: Key, _slot: usize) {
        self.count.set(self.count.get() + 1);
    }
}

fn png_bytes(w: u32, h: u32) -> Vec<u8> {
    let img = image::RgbaImage::from_fn(w, h, |x, y| image::Rgba([x as u8, y as u8, 100, 255]));
    let mut buf = std::io::Cursor::new(Vec::new());
    img.write_to(&mut buf, image::ImageFormat::Png).unwrap();
    buf.into_inner()
}

#[test]
fn dedup_spawns_one_task() {
    let spy = Spy::new();
    let mut cache = LoadCache::new();
    let key = Key::Https(String::from("https://example/a.png"));
    let (s1, spawned1) = cache.get_context(&spy, key.clone(), 1);
    let (s2, spawned2) = cache.get_context(&spy, key.clone(), 2);
    let (s3, spawned3) = cache.get_context(&spy, key.clone(), 3);
    assert!(spawned1);
    assert!(!spawned2);
    assert!(!spawned3);
    assert_eq!(s1, s2);
    assert_eq!(s1, s3);
    assert_eq!(spy.count.get(), 1);
    assert_eq!(cache.holder_count(&key), Some(4));

    let other = Key::Https(String::from("https://example/b.png"));
    let (s4, spawned4) = cache.get_context(&spy, other, 4);
    assert!(spawned4);
    assert_ne!(s4, s1);
    assert_eq!(spy.count.get(), 2);
}

#[test]
fn default_staleness_threshold() {
    let cache = LoadCache::new();
    assert_eq!(cache.staleness(), STALENESS_DEFAULT_MS);
    assert_eq!(LoadCache::with_staleness(5).staleness(), 5);
}

#[test]
fn lifecycle_terminal_is_never_overwritten() {
    let spy = Spy::new();
    let mut cache = LoadCache::new();
    let key = Key::Https(String::from("https://example/a.png"));
    let (slot, _) = cache.get_context(&spy, key.clone(), 1);
    // the task fails: terminal Error
    let r = load_image_async(
        &mut cache,
        key.clone(),
        slot,
        Err(FetchError::ConnectionFailed(String::from("boom"))),
        2,
    );
    assert!(r.is_none());
    assert_eq!(
        cache.get_error(slot, 3).as_deref(),
        Some("Could not connect to server: boom")
    );
    // a later successful decode must not revert the terminal state
    let (slot2, spawned) = cache.get_context(&spy, key.clone(), 4);
    assert_eq!(slot2, slot);
    assert!(!spawned);
    let img = load_image_async(&mut cache, key.clone(), slot, Ok((png_bytes(2, 2), None)), 5)
        .expect("decode should succeed");
    img.finish_load(&mut cache, 99, 6);
    assert_eq!(cache.get_texture_id(slot, 7), None);
    assert_eq!(
        cache.get_error(slot, 8).as_deref(),
        Some("Could not connect to server: boom")
    );
}

#[test]
fn snapshot_reads_refresh_access_time() {
    let mut ctx = LoadContext::new(5);
    assert_eq!(ctx.last_access(), 5);
    let t = ctx.get_texture_id(10);
    assert_eq!(t, None);
    assert_eq!(ctx.last_access(), 10);
    let e = ctx.get_error(12);
    assert_eq!(e, None);
    assert_eq!(ctx.last_access(), 12);
}

#[test]
fn cleanup_frees_stale_unreferenced_entry_once() {
    let spy = Spy::new();
    let mut cache = LoadCache::new();
    let key = Key::Https(String::from("https://example/a.png"));
    let (slot, _) = cache.get_context(&spy, key.clone(), 1_000);
    let img = load_image_async(&mut cache, key.clone(), slot, Ok((png_bytes(2, 2), None)), 1_001)
        .expect("decode should succeed");
    img.finish_load(&mut cache, 7, 1_002);
    // the consumer lets go of its reference too: no holder remains
    cache.release(slot);
    assert_eq!(cache.holder_count(&key), Some(0));
    let freed = cache.cleanup(1_002 + STALENESS_DEFAULT_MS + 1);
    assert_eq!(freed, vec![7]);
    assert_eq!(cache.holder_count(&key), None);
}

#[test]
fn cleanup_spares_referenced_entry() {
    let spy = Spy::new();
    let mut cache = LoadCache::new();
    let key = Key::Https(String::from("https://example/a.png"));
    let (slot, _) = cache.get_context(&spy, key.clone(), 1_000);
    let img = load_image_async(&mut cache, key.clone(), slot, Ok((png_bytes(2, 2), None)), 1_001)
        .expect("decode should succeed");
    img.finish_load(&mut cache, 7, 1_002);
    // the consumer still holds its reference
    assert_eq!(cache.holder_count(&key), Some(1));
    let freed = cache.cleanup(1_002 + STALENESS_DEFAULT_MS + 1);
    // the texture is not freed and the record stays usable
    assert_eq!(freed, Vec::<u64>::new());
    assert_eq!(cache.holder_count(&key), None);
    assert_eq!(cache.get_texture_id(slot, 9_999_999), Some(7));
}

#[test]
fn cleanup_keeps_fresh_entries() {
    let spy = Spy::new();
    let mut cache = LoadCache::new();
    let key = Key::Https(String::from("https://example/a.png"));
    let (_slot, _) = cache.get_context(&spy, key.clone(), 1_000);
    let freed = cache.cleanup(1_500);
    assert_eq!(freed, Vec::<u64>::new());
    assert_eq!(cache.holder_count(&key), Some(2));
}

#[test]
fn decode_known_png() {
    let bytes = png_bytes(3, 2);
    let p = decode(&bytes, None).expect("valid png should decode");
    assert_eq!(p.width(), 3);
    assert_eq!(p.height(), 2);
    let data = p.data();
    assert_eq!(data.len(), 3 * 2 * 4);
    // texel (x = 1, y = 1) was written as [x, y, 100, 255]
    let off = (1 * 3 + 1) * 4;
    assert_eq!(&data[off..off + 4], &[1, 1, 100, 255]);
}

#[test]
fn decode_corrupt_bytes_fails() {
    let r = decode(&vec![1, 2, 3, 4, 5], None);
    assert!(r.is_err());
    let mut truncated = png_bytes(3, 2);
    truncated.truncate(10);
    assert!(decode(&truncated, None).is_err());
}

#[test]
fn decode_with_wrong_format_hint_fails() {
    let bytes = png_bytes(2, 2);
    assert!(decode(&bytes, Some(ImageFormat::Jpeg)).is_err());
    assert!(decode(&bytes, Some(ImageFormat::Png)).is_ok());
}

#[test]
fn end_to_end_success() {
    let spy = Spy::new();
    let mut cache = LoadCache::new();
    let key = Key::Https(String::from("https://example/a.png"));
    let (slot, spawned) = cache.get_context(&spy, key.clone(), 1);
    assert!(spawned);
    let img = load_image_async(&mut cache, key.clone(), slot, Ok((png_bytes(10, 10), None)), 2)
        .expect("decode should succeed");
    assert_eq!(img.slot(), slot);
    assert_eq!(img.key(), &key);
    assert_eq!(img.image().width(), 10);
    assert_eq!(img.image().height(), 10);
    img.finish_load(&mut cache, 1, 3);
    assert_eq!(cache.get_texture_id(slot, 4), Some(1));
    assert_eq!(cache.get_error(slot, 5), None);
}

#[test]
fn end_to_end_connection_failure() {
    let spy = Spy::new();
    let mut cache = LoadCache::new();
    let key = Key::Https(String::from("https://example/a.png"));
    let (slot, _) = cache.get_context(&spy, key.clone(), 1);
    let r = load_image_async(
        &mut cache,
        key.clone(),
        slot,
        Err(FetchError::ConnectionFailed(String::from("refused"))),
        2,
    );
    assert!(r.is_none());
    assert_eq!(
        cache.get_error(slot, 3).as_deref(),
        Some("Could not connect to server: refused")
    );
    assert_eq!(cache.get_texture_id(slot, 4), None);
}

#[test]
fn transfer_failure_message() {
    let e = FetchError::TransferFailed(String::from("reset"));
    assert_eq!(fetch_error_message(&e), "Could not download image: reset");
    let c = FetchError::ConnectionFailed(String::from("dns"));
    assert_eq!(fetch_error_message(&c), "Could not connect to server: dns");
}

#[test]
fn decode_failure_is_recorded_with_cause() {
    let spy = Spy::new();
    let mut cache = LoadCache::new();
    let key = Key::Https(String::from("https://example/bad.png"));
    let (slot, _) = cache.get_context(&spy, key.clone(), 1);
    let r = load_image_async(&mut cache, key.clone(), slot, Ok((vec![0, 1, 2], None)), 2);
    assert!(r.is_none());
    let msg = cache.get_error(slot, 3).expect("decode failure is terminal");
    assert!(msg.starts_with("Could not decode image: "));
    assert!(msg.len() > "Could not decode image: ".len());
}

#[test]
fn loading_status_accessors() {
    let l = LoadingStatus::Loading;
    assert_eq!(l.as_texture(), None);
    assert_eq!(l.as_error(), None);
    let t = LoadingStatus::Loaded(42);
    assert_eq!(t.as_texture(), Some(42));
    assert_eq!(t.as_error(), None);
    let e = LoadingStatus::Error(String::from("x"));
    assert_eq!(e.as_texture(), None);
    assert_eq!(e.as_error().as_deref(), Some("x"));
}

#[test]
fn key_dup_names_same_source() {
    let key = Key::Https(String::from("https://example/a.png"));
    assert_eq!(key.dup(), key);
}
