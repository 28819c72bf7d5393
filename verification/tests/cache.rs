use std::cell::Cell;
use std::cell::RefCell;

use alloy::image_cache::directory::DirItem;
use alloy::image_cache::disk::Disk;
use alloy::image_cache::errors::Error;
use alloy::image_cache::errors::TextureCreationError;
use alloy::image_cache::image_loader::DecodedImage;
use alloy::image_cache::image_loader::LoadRequest;
use alloy::image_cache::image_loader::LoadResult;
use alloy::image_cache::image_loader::ModTime;
use alloy::image_cache::image_loader::Orientation;
use alloy::image_cache::state::LookupState;
use alloy::image_cache::texture::Gpu;
use alloy::image_cache::texture::TileImage;
use alloy::image_cache::ImageCache;
use alloy::image_cache::RequestKind;

const T1: ModTime = ModTime { secs: 1_700_000_000, nanos: 1 };
const T2: ModTime = ModTime { secs: 1_700_000_500, nanos: 2 };

fn dir() -> String {
    "/pictures".to_string()
}

fn name(n: u32) -> String {
    format!("{n}.png")
}

fn path(n: u32) -> String {
    format!("/pictures/{n}.png")
}

/// A listing of `count` files: the file at index `i` is `i.png`, with the
/// request id `100 + i`.
fn listing(count: u32) -> Vec<DirItem> {
    (0..count).map(|n| DirItem { path: path(n), file_name: name(n), request_id: 100 + n }).collect()
}

fn image(w: u32, h: u32, shade: u8) -> DecodedImage {
    DecodedImage::new(w, h, vec![shade; (4 * w * h) as usize]).unwrap()
}

fn frame(req_id: u32, w: u32, h: u32, shade: u8) -> LoadResult {
    LoadResult::Frame {
        req_id,
        image: image(w, h, shade),
        delay_nano: shade as u64,
        orientation: Orientation::Deg0,
    }
}

/// What the decode backend sends for a still image.
fn still(req_id: u32, w: u32, h: u32, time: ModTime) -> Vec<LoadResult> {
    vec![
        LoadResult::Start { req_id, mod_time: Some(time) },
        frame(req_id, w, h, 1),
        LoadResult::Done { req_id },
    ]
}

/// A device whose texture is the first byte of the tile.
fn device() -> Gpu<u8, impl Fn(&TileImage) -> Result<u8, TextureCreationError>> {
    Gpu::new(8192, |tile: &TileImage| Ok(tile.pixels[0]))
}

/// A disk on which every file was modified at `T1`.
fn unchanged() -> Disk<impl Fn(&String) -> Option<ModTime>> {
    Disk::new(|_path: &String| Some(T1))
}

/// A cache of the directory `/pictures` with `count` files, the first of
/// which is current.
fn opened(capacity: isize, count: u32) -> ImageCache<u8> {
    let mut cache = ImageCache::new(capacity);
    cache.change_directory(&dir());
    cache.update_directory(listing(count));
    cache
}

fn ids(requests: &[LoadRequest]) -> Vec<u32> {
    requests.iter().map(|r| r.req_id).collect()
}

#[test]
fn new_cache_is_empty() {
    let cache: ImageCache<u8> = ImageCache::new(5000);
    assert_eq!(cache.remaining_capacity(), 5000);
    assert_eq!(cache.cached_count(), 0);
    assert_eq!(cache.priority_request(), None);
    assert_eq!(cache.current_filename(), None);
    assert_eq!(cache.current_file_path(), None);
    assert_eq!(cache.current_file_index(), None);
    assert_eq!(cache.current_dir_len(), None);
    assert!(!cache.loaded_still_image());
    assert!(!cache.is_listed());
    assert_eq!(cache.directory_path(), "");
}

#[test]
fn load_waits_for_the_listing() {
    let mut cache: ImageCache<u8> = ImageCache::new(1_000_000);
    let gpu = device();
    let disk = unchanged();
    let loaded = cache.load_specific(&gpu, &disk, &dir(), Some(&name(1)), None);
    assert_eq!(loaded.err(), Some(Error::WaitingOnDirFilter));
    assert_eq!(cache.directory_path(), "/pictures");
    assert!(!cache.is_listed());
    assert!(cache.take_requests().is_empty());

    cache.update_directory(listing(3));
    assert!(cache.is_listed());
    assert_eq!(cache.current_dir_len(), Some(3));
    assert_eq!(cache.current_file_index(), Some(1));
    assert_eq!(cache.current_filename(), Some(name(1)));
    assert_eq!(cache.current_file_path(), Some(path(1)));
}

#[test]
fn load_of_a_directory_takes_its_first_file() {
    let mut cache: ImageCache<u8> = ImageCache::new(1_000_000);
    let gpu = device();
    let disk = unchanged();
    let loaded = cache.load_specific(&gpu, &disk, &dir(), None, None);
    assert_eq!(loaded.err(), Some(Error::WaitingOnDirFilter));
    cache.update_directory(listing(3));
    let loaded = cache.load_specific(&gpu, &disk, &dir(), None, None);
    assert_eq!(loaded.err(), Some(Error::WaitingOnLoader));
    assert_eq!(ids(&cache.take_requests()), vec![100]);
}

#[test]
fn load_of_an_empty_directory_is_an_error() {
    let mut cache = opened(1_000_000, 0);
    let gpu = device();
    let disk = unchanged();
    let loaded = cache.load_specific(&gpu, &disk, &dir(), None, None);
    assert!(matches!(loaded, Err(Error::Msg(_))));
    let loaded = cache.load_jump(&gpu, &disk, 3, 0);
    assert!(matches!(loaded, Err(Error::Msg(_))));
    let loaded = cache.load_next(&gpu, &disk);
    assert!(matches!(loaded, Err(Error::Msg(_))));
    let loaded = cache.load_jump(&gpu, &disk, 0, 1);
    assert!(matches!(loaded, Err(Error::Msg(_))));
}

#[test]
fn load_of_a_file_that_is_not_listed_is_an_error() {
    let mut cache = opened(1_000_000, 3);
    let gpu = device();
    let disk = unchanged();
    let loaded = cache.load_specific(&gpu, &disk, &dir(), Some(&"x.png".to_string()), None);
    assert!(matches!(loaded, Err(Error::Msg(_))));
    assert_eq!(cache.current_file_index(), Some(0));
    assert!(cache.take_requests().is_empty());
}

#[test]
fn unrequested_image_is_requested_with_priority() {
    let mut cache = opened(1_000_000, 3);
    let gpu = device();
    let disk = unchanged();
    let loaded = cache.load_specific(&gpu, &disk, &dir(), Some(&name(2)), None);
    assert_eq!(loaded.err(), Some(Error::WaitingOnLoader));
    let requests = cache.take_requests();
    assert_eq!(requests, vec![LoadRequest { req_id: 102, path: path(2) }]);
    assert_eq!(cache.priority_request(), Some(102));
    assert_eq!(cache.cancelled(102), Some(false));
    assert_eq!(cache.lookup_state(102, Some(T1)), LookupState::PendingKnown);
    assert_eq!(cache.lookup_state(101, Some(T1)), LookupState::Unrequested);
}

#[test]
fn cached_frame_is_returned_without_a_new_request() {
    // Request 107 produces Start, Frame, Done; a later load finds the file
    // unchanged and returns the frame.
    let mut cache = opened(1_000_000, 8);
    let gpu = device();
    let disk = unchanged();
    let loaded = cache.load_specific(&gpu, &disk, &dir(), Some(&name(7)), None);
    assert_eq!(loaded.err(), Some(Error::WaitingOnLoader));
    assert_eq!(ids(&cache.take_requests()), vec![107]);

    cache.receive_prefetched(still(107, 3, 2, T1));
    let frame = cache.load_specific(&gpu, &disk, &dir(), Some(&name(7)), None).unwrap();
    assert_eq!((frame.w, frame.h), (3, 2));
    assert_eq!(frame.tex_grid[0].tex, 1);
    assert!(cache.take_requests().is_empty());
    assert_eq!(cache.priority_request(), None);
    assert_eq!(cache.cancelled(107), None);
    assert!(cache.is_cached(107));
    assert_eq!(cache.remaining_capacity(), 1_000_000 - 36);
    assert!(cache.loaded_still_image());
    assert_eq!(cache.lookup_state(107, Some(T1)), LookupState::CachedFresh);

    // And again.
    let frame = cache.load_specific(&gpu, &disk, &dir(), Some(&name(7)), None).unwrap();
    assert_eq!((frame.w, frame.h), (3, 2));
    assert!(cache.take_requests().is_empty());
}

#[test]
fn changed_file_is_dropped_and_requested_again() {
    let mut cache = opened(1_000_000, 8);
    let gpu = device();
    let time = Cell::new(Some(T1));
    let disk = Disk::new(|_path: &String| time.get());
    let _ = cache.load_specific(&gpu, &disk, &dir(), Some(&name(7)), None);
    let _ = cache.take_requests();
    cache.receive_prefetched(still(107, 3, 2, T1));
    assert!(cache.load_specific(&gpu, &disk, &dir(), Some(&name(7)), None).is_ok());
    assert_eq!(cache.remaining_capacity(), 1_000_000 - 36);

    // The file changes between two visits.
    time.set(Some(T2));
    assert_eq!(cache.lookup_state(107, time.get()), LookupState::CachedStale);
    let loaded = cache.load_specific(&gpu, &disk, &dir(), Some(&name(7)), None);
    assert_eq!(loaded.err(), Some(Error::WaitingOnLoader));
    assert!(!cache.is_cached(107));
    assert_eq!(cache.cached_count(), 0);
    assert_eq!(cache.remaining_capacity(), 1_000_000);
    assert_eq!(cache.take_requests(), vec![LoadRequest { req_id: 107, path: path(7) }]);
    assert_eq!(cache.priority_request(), Some(107));

    // The new decode fills the entry again.
    cache.receive_prefetched(vec![
        LoadResult::Start { req_id: 107, mod_time: Some(T2) },
        frame(107, 5, 5, 9),
        LoadResult::Done { req_id: 107 },
    ]);
    let frame = cache.load_specific(&gpu, &disk, &dir(), Some(&name(7)), None).unwrap();
    assert_eq!((frame.w, frame.h), (5, 5));
    assert_eq!(frame.tex_grid[0].tex, 9);
    assert_eq!(cache.remaining_capacity(), 1_000_000 - 150);
}

#[test]
fn file_that_cannot_be_asked_for_is_trusted() {
    let mut cache = opened(1_000_000, 2);
    let gpu = device();
    let none = Disk::new(|_path: &String| None);
    let _ = cache.load_specific(&gpu, &none, &dir(), Some(&name(0)), None);
    cache.receive_prefetched(still(100, 1, 1, T1));
    assert!(cache.load_specific(&gpu, &none, &dir(), Some(&name(0)), None).is_ok());
    assert_eq!(cache.lookup_state(100, None), LookupState::CachedFresh);
}

#[test]
fn disk_is_asked_for_the_current_file() {
    let mut cache = opened(1_000_000, 3);
    let gpu = device();
    let asked = RefCell::new(Vec::new());
    let disk = Disk::new(|path: &String| {
        asked.borrow_mut().push(path.clone());
        Some(T1)
    });
    let _ = cache.load_specific(&gpu, &disk, &dir(), Some(&name(2)), None);
    assert_eq!(*asked.borrow(), vec![path(2)]);
}

#[test]
fn second_load_returns_the_same_and_requests_nothing() {
    let mut cache = opened(1_000_000, 3);
    let gpu = device();
    let disk = unchanged();
    let first = cache.load_specific(&gpu, &disk, &dir(), Some(&name(1)), None);
    assert_eq!(first.err(), Some(Error::WaitingOnLoader));
    assert_eq!(ids(&cache.take_requests()), vec![101]);
    let second = cache.load_specific(&gpu, &disk, &dir(), Some(&name(1)), None);
    assert_eq!(second.err(), Some(Error::WaitingOnLoader));
    assert!(cache.take_requests().is_empty());
    assert_eq!(cache.priority_request(), Some(101));

    cache.receive_prefetched(vec![
        LoadResult::Start { req_id: 101, mod_time: Some(T1) },
        frame(101, 2, 2, 1),
        frame(101, 2, 2, 2),
        frame(101, 2, 2, 3),
        LoadResult::Done { req_id: 101 },
    ]);
    let first = cache.load_specific(&gpu, &disk, &dir(), Some(&name(1)), Some(2)).unwrap();
    let second = cache.load_specific(&gpu, &disk, &dir(), Some(&name(1)), Some(2)).unwrap();
    assert_eq!(first.delay_nano, 3);
    assert_eq!(second.delay_nano, 3);
    // Without a frame index, the frame that was handed out last is kept.
    let third = cache.load_specific(&gpu, &disk, &dir(), Some(&name(1)), None).unwrap();
    assert_eq!(third.delay_nano, 3);
    assert!(cache.take_requests().is_empty());
}

#[test]
fn frames_are_cached_in_arrival_order() {
    let mut cache = opened(1_000_000, 1);
    let gpu = device();
    let disk = unchanged();
    let _ = cache.load_specific(&gpu, &disk, &dir(), Some(&name(0)), None);
    cache.receive_prefetched(vec![LoadResult::Start { req_id: 100, mod_time: Some(T1) }]);
    cache.receive_prefetched(vec![frame(100, 1, 1, 30), frame(100, 1, 1, 10)]);
    cache.receive_prefetched(vec![frame(100, 1, 1, 20)]);
    for (index, shade) in [(0, 30), (1, 10), (2, 20)] {
        let frame = cache.load_specific(&gpu, &disk, &dir(), Some(&name(0)), Some(index)).unwrap();
        assert_eq!(frame.delay_nano, shade);
        assert_eq!(frame.tex_grid[0].tex, shade as u8);
    }
    cache.receive_prefetched(vec![frame(100, 1, 1, 40), LoadResult::Done { req_id: 100 }]);
    let frame = cache.load_specific(&gpu, &disk, &dir(), Some(&name(0)), Some(3)).unwrap();
    assert_eq!(frame.delay_nano, 40);
}

#[test]
fn frame_index_is_wrapped_once_the_animation_is_complete() {
    let mut cache = opened(1_000_000, 1);
    let gpu = device();
    let disk = unchanged();
    let _ = cache.load_specific(&gpu, &disk, &dir(), Some(&name(0)), None);
    cache.receive_prefetched(vec![
        LoadResult::Start { req_id: 100, mod_time: Some(T1) },
        frame(100, 1, 1, 0),
        frame(100, 1, 1, 1),
        frame(100, 1, 1, 2),
    ]);
    // While frames may still arrive, only those that are there are handed out.
    let inside = cache.try_getting_requested_image(&gpu, &disk, 2).unwrap();
    assert_eq!(inside.delay_nano, 2);
    let beyond = cache.try_getting_requested_image(&gpu, &disk, 3);
    assert_eq!(beyond.err(), Some(Error::WaitingOnLoader));
    let before = cache.try_getting_requested_image(&gpu, &disk, -1);
    assert_eq!(before.err(), Some(Error::WaitingOnLoader));
    assert!(!cache.loaded_still_image());

    cache.receive_prefetched(vec![LoadResult::Done { req_id: 100 }]);
    for (asked, expected) in [(3, 0), (4, 1), (-1, 2), (-3, 0), (-4, 2), (300, 0), (2, 2)] {
        let frame = cache.try_getting_requested_image(&gpu, &disk, asked).unwrap();
        assert_eq!(frame.delay_nano, expected);
    }
    assert!(!cache.loaded_still_image());
}

#[test]
fn frame_jump_on_a_still_image_wraps_to_its_only_frame() {
    let mut cache = opened(1_000_000, 2);
    let gpu = device();
    let disk = unchanged();
    let _ = cache.load_specific(&gpu, &disk, &dir(), Some(&name(0)), None);
    cache.receive_prefetched(still(100, 4, 4, T1));
    let (frame, at) = cache.load_jump(&gpu, &disk, 0, 1).unwrap();
    assert_eq!(at, path(0));
    assert_eq!((frame.w, frame.h), (4, 4));
    assert!(cache.loaded_still_image());
    let (frame, _) = cache.load_jump(&gpu, &disk, 0, -1).unwrap();
    assert_eq!((frame.w, frame.h), (4, 4));
}

#[test]
fn frame_jump_steps_through_an_animation() {
    let mut cache = opened(1_000_000, 1);
    let gpu = device();
    let disk = unchanged();
    let _ = cache.load_specific(&gpu, &disk, &dir(), Some(&name(0)), None);
    cache.receive_prefetched(vec![
        LoadResult::Start { req_id: 100, mod_time: Some(T1) },
        frame(100, 1, 1, 0),
        frame(100, 1, 1, 1),
        frame(100, 1, 1, 2),
        LoadResult::Done { req_id: 100 },
    ]);
    let mut seen = Vec::new();
    let (first, _) = cache.load_jump(&gpu, &disk, 0, 0).unwrap();
    seen.push(first.delay_nano);
    for _ in 0..4 {
        let (next, _) = cache.load_jump(&gpu, &disk, 0, 1).unwrap();
        seen.push(next.delay_nano);
    }
    let (back, _) = cache.load_jump(&gpu, &disk, 0, -2).unwrap();
    seen.push(back.delay_nano);
    assert_eq!(seen, vec![0, 1, 2, 0, 1, 2]);
}

#[test]
fn file_jumps_wrap_around_the_listing() {
    let mut cache = opened(1_000_000, 5);
    let gpu = device();
    let disk = unchanged();
    assert_eq!(cache.load_next(&gpu, &disk).err(), Some(Error::WaitingOnLoader));
    assert_eq!(cache.current_file_index(), Some(1));
    assert_eq!(cache.load_prev(&gpu, &disk).err(), Some(Error::WaitingOnLoader));
    assert_eq!(cache.load_prev(&gpu, &disk).err(), Some(Error::WaitingOnLoader));
    assert_eq!(cache.current_file_index(), Some(4));
    assert_eq!(cache.load_jump(&gpu, &disk, 3, 0).err(), Some(Error::WaitingOnLoader));
    assert_eq!(cache.current_file_index(), Some(2));
    assert_eq!(cache.load_jump(&gpu, &disk, -13, 0).err(), Some(Error::WaitingOnLoader));
    assert_eq!(cache.current_file_index(), Some(4));
    assert_eq!(cache.load_jump(&gpu, &disk, 10, 0).err(), Some(Error::WaitingOnLoader));
    assert_eq!(cache.current_file_index(), Some(4));
    assert_eq!(ids(&cache.take_requests()), vec![101, 100, 104, 102]);
}

#[test]
fn file_jump_returns_the_path_of_its_target() {
    let mut cache = opened(1_000_000, 3);
    let gpu = device();
    let disk = unchanged();
    let _ = cache.load_next(&gpu, &disk);
    cache.receive_prefetched(still(101, 2, 2, T1));
    let _ = cache.load_prev(&gpu, &disk);
    let (frame, at) = cache.load_next(&gpu, &disk).unwrap();
    assert_eq!(at, path(1));
    assert_eq!((frame.w, frame.h), (2, 2));
}

#[test]
fn file_jump_starts_at_the_first_frame() {
    let mut cache = opened(1_000_000, 2);
    let gpu = device();
    let disk = unchanged();
    let _ = cache.load_specific(&gpu, &disk, &dir(), Some(&name(0)), None);
    let _ = cache.load_next(&gpu, &disk);
    for id in [100, 101] {
        cache.receive_prefetched(vec![
            LoadResult::Start { req_id: id, mod_time: Some(T1) },
            frame(id, 1, 1, 0),
            frame(id, 1, 1, 1),
            LoadResult::Done { req_id: id },
        ]);
    }
    let (frame, _) = cache.load_jump(&gpu, &disk, 0, 1).unwrap();
    assert_eq!(frame.delay_nano, 1);
    let (frame, at) = cache.load_prev(&gpu, &disk).unwrap();
    assert_eq!(at, path(0));
    assert_eq!(frame.delay_nano, 0);
}

#[test]
fn load_at_index_loads_the_file_there() {
    let mut cache: ImageCache<u8> = ImageCache::new(1_000_000);
    let gpu = device();
    let disk = unchanged();
    let loaded = cache.load_at_index(&gpu, &disk, 1, None);
    assert_eq!(loaded.err(), Some(Error::WaitingOnDirFilter));
    cache.change_directory(&dir());
    cache.update_directory(listing(3));
    let loaded = cache.load_at_index(&gpu, &disk, 3, None);
    assert_eq!(loaded.err(), Some(Error::WaitingOnDirFilter));
    let loaded = cache.load_at_index(&gpu, &disk, 2, None);
    assert_eq!(loaded.err(), Some(Error::WaitingOnLoader));
    assert_eq!(cache.current_file_index(), Some(2));
    cache.receive_prefetched(still(102, 6, 1, T1));
    let (frame, at) = cache.load_at_index(&gpu, &disk, 2, Some(5)).unwrap();
    assert_eq!(at, path(2));
    assert_eq!((frame.w, frame.h), (6, 1));
}

#[test]
fn failed_image_stays_failed() {
    let mut cache = opened(1_000_000, 2);
    let gpu = device();
    let disk = unchanged();
    let _ = cache.load_specific(&gpu, &disk, &dir(), Some(&name(1)), None);
    let _ = cache.take_requests();
    cache.receive_prefetched(vec![
        LoadResult::Start { req_id: 101, mod_time: Some(T1) },
        LoadResult::Failed { req_id: 101 },
    ]);
    let loaded = cache.load_specific(&gpu, &disk, &dir(), Some(&name(1)), None);
    assert_eq!(loaded.err(), Some(Error::FailedToLoadImage { req_id: 101 }));
    assert_eq!(cache.priority_request(), None);
    assert_eq!(cache.cancelled(101), None);
    assert_eq!(cache.lookup_state(101, Some(T1)), LookupState::Failed);
    let loaded = cache.load_specific(&gpu, &disk, &dir(), Some(&name(1)), None);
    assert_eq!(loaded.err(), Some(Error::FailedToLoadImage { req_id: 101 }));
    assert!(cache.take_requests().is_empty());
    assert!(!cache.loaded_still_image());
}

#[test]
fn refused_texture_is_reported_and_leaves_no_frame() {
    let mut cache = opened(1_000_000, 1);
    let refusing = Gpu::new(8192, |_tile: &TileImage| -> Result<u8, TextureCreationError> {
        Err(TextureCreationError::TypeNotSupported)
    });
    let disk = unchanged();
    let _ = cache.load_specific(&refusing, &disk, &dir(), Some(&name(0)), None);
    cache.receive_prefetched(still(100, 2, 2, T1));
    let loaded = cache.load_specific(&refusing, &disk, &dir(), Some(&name(0)), None);
    assert_eq!(
        loaded.err(),
        Some(Error::TextureCreationError(TextureCreationError::TypeNotSupported))
    );
    assert!(cache.is_cached(100));
    assert_eq!(cache.remaining_capacity(), 1_000_000);
    assert_eq!(cache.cancelled(100), Some(false));
}

#[test]
fn single_results_are_consumed_as_they_say() {
    let mut cache = opened(1_000_000, 3);
    let gpu = device();
    let disk = unchanged();
    // Nothing is in flight: what arrives is dropped.
    assert!(cache.upload_to_texture(&gpu, LoadResult::Start { req_id: 100, mod_time: None }).unwrap().is_none());
    assert!(!cache.is_cached(100));
    assert!(cache.upload_to_texture(&gpu, frame(100, 1, 1, 0)).unwrap().is_none());

    let _ = cache.load_specific(&gpu, &disk, &dir(), Some(&name(0)), None);
    // A frame without an entry is dropped.
    assert!(cache.upload_to_texture(&gpu, frame(100, 1, 1, 0)).unwrap().is_none());
    assert_eq!(cache.remaining_capacity(), 1_000_000);
    // The start makes the entry.
    let started = cache.upload_to_texture(&gpu, LoadResult::Start { req_id: 100, mod_time: Some(T1) });
    assert!(started.unwrap().is_none());
    assert!(cache.is_cached(100));
    let uploaded = cache.upload_to_texture(&gpu, frame(100, 10, 10, 5)).unwrap().unwrap();
    assert_eq!((uploaded.w, uploaded.h, uploaded.delay_nano), (10, 10, 5));
    assert_eq!(cache.remaining_capacity(), 1_000_000 - 600);
    // A start with the same time keeps the frames, one with another time does not.
    let _ = cache.upload_to_texture(&gpu, LoadResult::Start { req_id: 100, mod_time: Some(T1) });
    assert_eq!(cache.remaining_capacity(), 1_000_000 - 600);
    let _ = cache.upload_to_texture(&gpu, LoadResult::Start { req_id: 100, mod_time: Some(T2) });
    assert_eq!(cache.remaining_capacity(), 1_000_000);
    assert!(cache.is_cached(100));
    // A start without a time never keeps the frames.
    let _ = cache.upload_to_texture(&gpu, frame(100, 10, 10, 5));
    let _ = cache.upload_to_texture(&gpu, LoadResult::Start { req_id: 100, mod_time: None });
    assert_eq!(cache.remaining_capacity(), 1_000_000);
    // The end takes the request out of flight.
    assert_eq!(cache.priority_request(), Some(100));
    assert!(cache.upload_to_texture(&gpu, LoadResult::Done { req_id: 100 }).unwrap().is_none());
    assert_eq!(cache.cancelled(100), None);
    assert_eq!(cache.priority_request(), None);
    let failed = cache.upload_to_texture(&gpu, LoadResult::Failed { req_id: 101 });
    assert_eq!(failed.err(), Some(Error::FailedToLoadImage { req_id: 101 }));
}

#[test]
fn directory_change_cancels_and_empties() {
    let mut cache = opened(1_000_000, 4);
    let gpu = device();
    let disk = unchanged();
    let _ = cache.load_specific(&gpu, &disk, &dir(), Some(&name(0)), None);
    cache.receive_prefetched(still(100, 8, 8, T1));
    assert!(cache.load_specific(&gpu, &disk, &dir(), Some(&name(0)), None).is_ok());
    let _ = cache.load_specific(&gpu, &disk, &dir(), Some(&name(1)), None);
    let _ = cache.load_specific(&gpu, &disk, &dir(), Some(&name(2)), None);
    assert_eq!(cache.cancelled(101), Some(false));
    assert_eq!(cache.cancelled(102), Some(false));
    assert_eq!(cache.cached_count(), 1);

    // Opening the directory that is open changes nothing.
    cache.change_directory(&dir());
    assert_eq!(cache.cached_count(), 1);
    assert_eq!(cache.cancelled(101), Some(false));

    cache.change_directory(&"/elsewhere".to_string());
    assert_eq!(cache.cancelled(101), Some(true));
    assert_eq!(cache.cancelled(102), Some(true));
    assert_eq!(cache.cancelled(100), None);
    assert_eq!(cache.cached_count(), 0);
    assert_eq!(cache.remaining_capacity(), 1_000_000);
    assert!(!cache.is_listed());
    assert_eq!(cache.directory_path(), "/elsewhere");
}

#[test]
fn loading_from_another_directory_cancels_and_empties() {
    let mut cache = opened(1_000_000, 4);
    let gpu = device();
    let disk = unchanged();
    let _ = cache.load_specific(&gpu, &disk, &dir(), Some(&name(0)), None);
    cache.receive_prefetched(still(100, 8, 8, T1));
    assert!(cache.load_specific(&gpu, &disk, &dir(), Some(&name(0)), None).is_ok());
    let _ = cache.load_specific(&gpu, &disk, &dir(), Some(&name(1)), None);
    assert_eq!(cache.cached_count(), 1);
    let loaded = cache.load_specific(&gpu, &disk, &"/elsewhere".to_string(), Some(&name(1)), None);
    assert_eq!(loaded.err(), Some(Error::WaitingOnDirFilter));
    assert_eq!(cache.cached_count(), 0);
    assert_eq!(cache.cancelled(101), Some(true));
    assert_eq!(cache.remaining_capacity(), 1_000_000);
}

#[test]
fn results_of_cancelled_requests_are_dropped() {
    let mut cache = opened(1_000_000, 2);
    let gpu = device();
    let disk = unchanged();
    let _ = cache.load_specific(&gpu, &disk, &dir(), Some(&name(0)), None);
    cache.change_directory(&"/elsewhere".to_string());
    cache.update_directory(vec![DirItem {
        path: "/elsewhere/z.png".to_string(),
        file_name: "z.png".to_string(),
        request_id: 100,
    }]);
    let _ = cache.take_requests();
    // The same id is wanted in the new directory while the old request is
    // still in flight: nothing is issued.
    let loaded = cache.load_specific(&gpu, &disk, &"/elsewhere".to_string(), None, None);
    assert_eq!(loaded.err(), Some(Error::WaitingOnLoader));
    assert!(cache.take_requests().is_empty());
    // What the old request sends is dropped.
    cache.receive_prefetched(still(100, 8, 8, T1));
    let loaded = cache.load_specific(&gpu, &disk, &"/elsewhere".to_string(), None, None);
    assert_eq!(loaded.err(), Some(Error::WaitingOnLoader));
    assert_eq!(cache.cached_count(), 0);
    assert_eq!(cache.remaining_capacity(), 1_000_000);
    // Now that the old request is done, the new one is issued.
    assert_eq!(
        cache.take_requests(),
        vec![LoadRequest { req_id: 100, path: "/elsewhere/z.png".to_string() }]
    );
    assert_eq!(cache.cancelled(100), Some(false));
}

#[test]
fn refresh_keeps_the_closest_images_that_fit() {
    // A capacity of 100 units of 1000 bytes; two images of 60 units each,
    // the current one and its neighbour.
    let mut cache = opened(100_000, 2);
    let gpu = device();
    let disk = unchanged();
    let _ = cache.load_specific(&gpu, &disk, &dir(), Some(&name(0)), None);
    cache.prefetch_neighbors(&disk);
    assert_eq!(ids(&cache.take_requests()), vec![100, 101]);
    cache.receive_prefetched(still(100, 100, 100, T1));
    cache.receive_prefetched(still(101, 100, 100, T1));
    assert_eq!(cache.process_prefetched(&gpu), Ok(()));
    assert_eq!(cache.process_prefetched(&gpu), Ok(()));
    assert_eq!(cache.cached_count(), 2);
    assert_eq!(cache.remaining_capacity(), 100_000 - 120_000);

    cache.refresh_cache();
    assert_eq!(cache.cached_count(), 1);
    assert!(cache.is_cached(100));
    assert!(!cache.is_cached(101));
    assert_eq!(cache.remaining_capacity(), 40_000);

    // A second refresh changes nothing.
    cache.refresh_cache();
    assert_eq!(cache.cached_count(), 1);
    assert_eq!(cache.remaining_capacity(), 40_000);
}

#[test]
fn refresh_follows_the_current_file() {
    let gpu = device();
    let disk = unchanged();
    // Three images of 30 units each fit into 100 units.
    let mut cache = opened(100_000, 3);
    for n in 0..3 {
        let _ = cache.load_specific(&gpu, &disk, &dir(), Some(&name(n)), None);
    }
    for n in 0..3 {
        cache.receive_prefetched(still(100 + n, 100, 50, T1));
    }
    while cache.cached_count() < 3 {
        assert_eq!(cache.process_prefetched(&gpu), Ok(()));
    }
    assert_eq!(cache.current_file_index(), Some(2));
    cache.refresh_cache();
    assert_eq!(cache.cached_count(), 3);
    assert_eq!(cache.remaining_capacity(), 10_000);

    // Into 70 units only two of them fit.
    let mut small = opened(70_000, 3);
    for n in 0..3 {
        let _ = small.load_specific(&gpu, &disk, &dir(), Some(&name(n)), None);
        small.receive_prefetched(still(100 + n, 100, 50, T1));
        assert_eq!(small.process_prefetched(&gpu), Ok(()));
    }
    // Loading refreshes: at the last file, the first image has left.
    assert!(small.load_specific(&gpu, &disk, &dir(), Some(&name(2)), None).is_ok());
    assert!(!small.is_cached(100));
    assert!(small.is_cached(101));
    assert!(small.is_cached(102));
    assert_eq!(small.remaining_capacity(), 10_000);
    // Back at the first file, the current image is not there, and the
    // two that are closest to it stay.
    let loaded = small.load_specific(&gpu, &disk, &dir(), Some(&name(0)), None);
    assert_eq!(loaded.err(), Some(Error::WaitingOnLoader));
    assert!(small.is_cached(101));
    assert!(small.is_cached(102));
}

#[test]
fn refresh_stops_at_the_first_image_that_does_not_fit() {
    let mut cache = opened(100_000, 3);
    let gpu = device();
    let disk = unchanged();
    for n in 0..3 {
        let _ = cache.load_specific(&gpu, &disk, &dir(), Some(&name(n)), None);
    }
    // The current image is small, its neighbour is too large, and the
    // farthest is small again.
    cache.receive_prefetched(still(102, 10, 10, T1));
    cache.receive_prefetched(still(101, 200, 100, T1));
    cache.receive_prefetched(still(100, 10, 10, T1));
    while cache.cached_count() < 3 {
        assert_eq!(cache.process_prefetched(&gpu), Ok(()));
    }
    assert_eq!(cache.current_file_index(), Some(2));
    cache.refresh_cache();
    assert!(cache.is_cached(102));
    assert!(!cache.is_cached(101));
    assert!(!cache.is_cached(100));
    assert_eq!(cache.remaining_capacity(), 100_000 - 600);
}

#[test]
fn refresh_needs_more_than_the_margin() {
    // An image stays only if more than its size and 1000 bytes remain.
    let gpu = device();
    let disk = unchanged();
    for (capacity, stays) in [(1600, false), (1601, true)] {
        let mut cache = opened(capacity, 1);
        let _ = cache.load_specific(&gpu, &disk, &dir(), Some(&name(0)), None);
        cache.receive_prefetched(still(100, 10, 10, T1));
        assert_eq!(cache.process_prefetched(&gpu), Ok(()));
        cache.refresh_cache();
        assert_eq!(cache.is_cached(100), stays);
        assert_eq!(cache.remaining_capacity(), if stays { capacity - 600 } else { capacity });
    }
}

#[test]
fn refresh_without_a_current_file_keeps_everything() {
    let mut cache: ImageCache<u8> = ImageCache::new(10);
    cache.refresh_cache();
    assert_eq!(cache.remaining_capacity(), 10);
    assert_eq!(cache.cached_count(), 0);
}

#[test]
fn prefetch_requests_the_files_behind_the_current_one() {
    let mut cache = opened(1_000_000, 10);
    let disk = unchanged();
    cache.prefetch_neighbors(&disk);
    // Five requests may be in flight.
    assert_eq!(ids(&cache.take_requests()), vec![101, 102, 103, 104, 105]);
    assert_eq!(cache.priority_request(), None);
    cache.prefetch_neighbors(&disk);
    assert!(cache.take_requests().is_empty());
    assert!(!cache.prefetch_at_index(&disk, 7));
}

#[test]
fn prefetch_stops_at_the_end_of_the_listing() {
    let mut cache = opened(1_000_000, 3);
    let gpu = device();
    let disk = unchanged();
    let _ = cache.load_specific(&gpu, &disk, &dir(), Some(&name(1)), None);
    cache.prefetch_neighbors(&disk);
    assert_eq!(ids(&cache.take_requests()), vec![101, 102]);
}

#[test]
fn prefetch_stops_when_the_capacity_is_used_up() {
    // Each image is taken to occupy 1000 bytes.
    let mut cache = opened(3500, 10);
    let disk = unchanged();
    cache.prefetch_neighbors(&disk);
    assert_eq!(ids(&cache.take_requests()), vec![101, 102, 103]);

    let mut none = opened(1000, 10);
    none.prefetch_neighbors(&disk);
    assert!(none.take_requests().is_empty());
    assert!(!none.prefetch_at_index(&disk, 1));
    let mut one = opened(1001, 10);
    one.prefetch_neighbors(&disk);
    assert_eq!(ids(&one.take_requests()), vec![101]);
}

#[test]
fn prefetch_stops_at_a_file_that_is_cached() {
    let mut cache = opened(1_000_000, 5);
    let gpu = device();
    let disk = unchanged();
    let _ = cache.load_specific(&gpu, &disk, &dir(), Some(&name(2)), None);
    cache.receive_prefetched(still(102, 1, 1, T1));
    let _ = cache.load_specific(&gpu, &disk, &dir(), Some(&name(2)), None);
    let _ = cache.load_specific(&gpu, &disk, &dir(), Some(&name(0)), None);
    let _ = cache.take_requests();
    cache.prefetch_neighbors(&disk);
    assert_eq!(ids(&cache.take_requests()), vec![101]);
    assert!(!cache.prefetch_at_index(&disk, 2));
    assert!(cache.prefetch_at_index(&disk, 3));
    assert!(!cache.prefetch_at_index(&disk, 3));
    assert!(!cache.prefetch_at_index(&disk, 5));
}

#[test]
fn prefetch_without_a_listing_does_nothing() {
    let mut cache: ImageCache<u8> = ImageCache::new(1_000_000);
    let disk = unchanged();
    cache.prefetch_neighbors(&disk);
    assert!(cache.take_requests().is_empty());
    assert!(!cache.prefetch_at_index(&disk, 0));
}

#[test]
fn updated_directory_has_cached_files_compared_with_the_disk() {
    let mut cache = opened(1_000_000, 3);
    let gpu = device();
    let time = Cell::new(Some(T1));
    let asked = Cell::new(0);
    let disk = Disk::new(|_path: &String| {
        asked.set(asked.get() + 1);
        time.get()
    });
    let _ = cache.prefetch_at_index(&disk, 1);
    let _ = cache.prefetch_at_index(&disk, 2);
    cache.receive_prefetched(still(101, 2, 2, T1));
    cache.receive_prefetched(still(102, 2, 2, T1));
    assert_eq!(cache.process_prefetched(&gpu), Ok(()));
    assert_eq!(cache.process_prefetched(&gpu), Ok(()));
    let _ = cache.take_requests();
    assert_eq!(asked.get(), 0);

    // Cached and not marked: nothing to compare, nothing to request.
    assert!(!cache.prefetch_at_index(&disk, 1));
    assert_eq!(asked.get(), 0);

    cache.update_directory(listing(3));
    // Marked and unchanged on disk: compared once, not requested.
    assert!(!cache.prefetch_at_index(&disk, 1));
    assert_eq!(asked.get(), 1);
    assert!(!cache.prefetch_at_index(&disk, 1));
    assert_eq!(asked.get(), 1);
    assert!(cache.is_cached(101));

    // Marked and changed on disk: dropped and requested.
    time.set(Some(T2));
    assert!(cache.prefetch_at_index(&disk, 2));
    assert_eq!(asked.get(), 2);
    assert!(!cache.is_cached(102));
    assert_eq!(cache.remaining_capacity(), 1_000_000 - 24);
    assert_eq!(ids(&cache.take_requests()), vec![102]);
    assert_eq!(cache.priority_request(), None);
}

#[test]
fn updated_directory_keeps_the_current_file() {
    let mut cache = opened(1_000_000, 3);
    let gpu = device();
    let disk = unchanged();
    let _ = cache.load_specific(&gpu, &disk, &dir(), Some(&name(2)), None);
    let mut longer = vec![DirItem {
        path: "/pictures/00.png".to_string(),
        file_name: "00.png".to_string(),
        request_id: 99,
    }];
    longer.extend(listing(3));
    cache.update_directory(longer);
    assert_eq!(cache.current_file_index(), Some(3));
    assert_eq!(cache.current_filename(), Some(name(2)));
    assert_eq!(cache.current_dir_len(), Some(4));
}

#[test]
fn process_prefetched_uploads_one_request_at_a_time() {
    let mut cache = opened(1_000_000, 4);
    let gpu = device();
    let disk = unchanged();
    cache.prefetch_neighbors(&disk);
    cache.receive_prefetched(still(101, 1, 1, T1));
    cache.receive_prefetched(still(102, 1, 1, T1));
    cache.receive_prefetched(still(103, 1, 1, T1));
    assert_eq!(cache.process_prefetched(&gpu), Ok(()));
    assert_eq!(cache.cached_count(), 1);
    assert!(cache.is_cached(101));
    assert_eq!(cache.process_prefetched(&gpu), Ok(()));
    assert_eq!(cache.cached_count(), 2);
    assert_eq!(cache.process_prefetched(&gpu), Ok(()));
    assert_eq!(cache.cached_count(), 3);
    assert_eq!(cache.process_prefetched(&gpu), Ok(()));
    assert_eq!(cache.cached_count(), 3);
}

#[test]
fn process_prefetched_passes_over_images_that_failed() {
    let mut cache = opened(1_000_000, 4);
    let gpu = device();
    let disk = unchanged();
    cache.prefetch_neighbors(&disk);
    cache.receive_prefetched(vec![LoadResult::Failed { req_id: 101 }]);
    cache.receive_prefetched(still(102, 1, 1, T1));
    // The failure is no upload: the next request is consumed as well.
    assert_eq!(cache.process_prefetched(&gpu), Ok(()));
    assert_eq!(cache.cancelled(101), None);
    assert!(cache.is_cached(102));
}

#[test]
fn process_prefetched_returns_other_errors() {
    let mut cache = opened(1_000_000, 4);
    let refusing = Gpu::new(8192, |_tile: &TileImage| -> Result<u8, TextureCreationError> {
        Err(TextureCreationError::FormatNotSupported)
    });
    let disk = unchanged();
    cache.prefetch_neighbors(&disk);
    cache.receive_prefetched(still(101, 1, 1, T1));
    assert_eq!(
        cache.process_prefetched(&refusing),
        Err(Error::TextureCreationError(TextureCreationError::FormatNotSupported))
    );
}

#[test]
fn priority_request_makes_room_at_the_limit() {
    let mut cache = opened(1_000_000, 10);
    let gpu = device();
    let disk = unchanged();
    cache.prefetch_neighbors(&disk);
    assert_eq!(ids(&cache.take_requests()), vec![101, 102, 103, 104, 105]);
    // Five requests are in flight and nothing has arrived: no room.
    let loaded = cache.load_specific(&gpu, &disk, &dir(), Some(&name(8)), None);
    assert_eq!(loaded.err(), Some(Error::WaitingOnLoader));
    assert!(cache.take_requests().is_empty());
    assert_eq!(cache.cancelled(108), None);
    // Once a request is answered, consuming its results makes room.
    cache.receive_prefetched(still(103, 1, 1, T1));
    let loaded = cache.load_specific(&gpu, &disk, &dir(), Some(&name(8)), None);
    assert_eq!(loaded.err(), Some(Error::WaitingOnLoader));
    assert_eq!(ids(&cache.take_requests()), vec![108]);
    assert_eq!(cache.priority_request(), Some(108));
    assert!(cache.is_cached(103));
    assert_eq!(cache.cancelled(103), None);
}

#[test]
fn send_request_tells_whether_it_issued_one() {
    let mut cache = opened(1_000_000, 10);
    let gpu = device();
    let disk = unchanged();
    let sent = cache.send_request_for_file(&disk, path(4), 104, RequestKind::Priority { display: &gpu });
    assert!(sent);
    assert_eq!(cache.priority_request(), Some(104));
    let again = cache.send_request_for_file(&disk, path(4), 104, RequestKind::Priority { display: &gpu });
    assert!(!again);
    assert_eq!(cache.take_requests(), vec![LoadRequest { req_id: 104, path: path(4) }]);
    assert!(cache.request_file(path(5), 105, false, None));
    assert_eq!(cache.priority_request(), Some(104));
    assert!(!cache.request_file(path(5), 105, true, None));
    assert_eq!(cache.priority_request(), Some(105));
}

#[test]
fn request_kind_knows_its_priority() {
    let gpu = device();
    assert!(RequestKind::Priority { display: &gpu }.priority());
    let other: RequestKind<u8, fn(&TileImage) -> Result<u8, TextureCreationError>> =
        RequestKind::NonPriority;
    assert!(!other.priority());
}

#[test]
fn results_for_an_evicted_entry_are_dropped() {
    let mut cache = opened(2000, 2);
    let gpu = device();
    let disk = unchanged();
    let _ = cache.load_specific(&gpu, &disk, &dir(), Some(&name(0)), None);
    cache.receive_prefetched(vec![
        LoadResult::Start { req_id: 100, mod_time: Some(T1) },
        frame(100, 20, 20, 1),
    ]);
    let _ = cache.take_requests();
    // The frame occupies 2400 bytes: more than the cache holds. It is
    // handed out as it arrives, and leaves with the next refresh.
    assert!(cache.load_specific(&gpu, &disk, &dir(), Some(&name(0)), None).is_ok());
    assert!(cache.is_cached(100));
    assert_eq!(cache.remaining_capacity(), -400);
    cache.receive_prefetched(vec![frame(100, 20, 20, 2), LoadResult::Done { req_id: 100 }]);
    let loaded = cache.load_specific(&gpu, &disk, &dir(), Some(&name(0)), None);
    assert_eq!(loaded.err(), Some(Error::WaitingOnLoader));
    assert_eq!(cache.remaining_capacity(), 2000);
    assert_eq!(cache.cached_count(), 0);
    // The image is not there and nothing is in flight for it any more.
    assert_eq!(ids(&cache.take_requests()), vec![100]);
}

#[test]
fn frame_that_the_accounts_cannot_hold_is_refused() {
    // So little capacity that the size of a frame cannot be taken off it.
    let mut cache = opened(isize::MIN + 100, 1);
    let gpu = device();
    assert!(cache.request_file(path(0), 100, true, None));
    let started = cache.upload_to_texture(&gpu, LoadResult::Start { req_id: 100, mod_time: None });
    assert!(started.unwrap().is_none());
    let refused = cache.upload_to_texture(&gpu, frame(100, 10, 10, 1));
    assert!(matches!(refused, Err(Error::Msg(_))));
    assert_eq!(cache.remaining_capacity(), isize::MIN + 100);
    assert!(cache.is_cached(100));
    // A frame that fits is taken.
    let taken = cache.upload_to_texture(&gpu, frame(100, 4, 4, 1));
    assert!(taken.unwrap().is_some());
    assert_eq!(cache.remaining_capacity(), isize::MIN + 4);
}

#[test]
fn whole_answer_makes_a_whole_entry() {
    let mut cache = opened(1_000_000, 1);
    let gpu = device();
    let disk = unchanged();
    let _ = cache.load_specific(&gpu, &disk, &dir(), None, None);
    cache.receive_prefetched(vec![
        LoadResult::Start { req_id: 100, mod_time: Some(T1) },
        frame(100, 2, 3, 5),
        frame(100, 2, 3, 6),
        LoadResult::Done { req_id: 100 },
    ]);
    assert_eq!(cache.process_prefetched(&gpu), Ok(()));
    assert!(cache.is_cached(100));
    assert_eq!(cache.cancelled(100), None);
    assert_eq!(cache.priority_request(), None);
    assert_eq!(cache.remaining_capacity(), 1_000_000 - 2 * 36);
    assert_eq!(cache.lookup_state(100, Some(T1)), LookupState::CachedFresh);
    assert_eq!(cache.lookup_state(100, Some(T2)), LookupState::CachedStale);
    let first = cache.try_getting_requested_image(&gpu, &disk, 0).unwrap();
    let second = cache.try_getting_requested_image(&gpu, &disk, 1).unwrap();
    assert_eq!((first.delay_nano, second.delay_nano), (5, 6));
}
