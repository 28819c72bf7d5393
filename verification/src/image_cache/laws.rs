//! What holds of the cache in general.

use vstd::prelude::*;

use super::cached_texture::textures_size;
use super::directory::DirItemView;
use super::disk::Disk;
use super::effects::consumed_all;
use super::effects::consumed_until;
use super::effects::consumed;
use super::effects::loaded_specific;
use super::effects::looked_up;
use super::effects::made_room;
use super::effects::requested_compared;
use super::effects::requested_image;
use super::effects::sent_with_priority;
use super::errors::Error;
use super::errors::TextureCreationError;
use super::eviction::distance;
use super::eviction::lemma_closer_entries_stay;
use super::eviction::lemma_retained_entries;
use super::eviction::lemma_retained_is_settled;
use super::eviction::lemma_settled_stays;
use super::eviction::lemma_settled_without;
use super::eviction::retained;
use super::image_loader::LoadResult;
use super::image_loader::ModTime;
use super::state::CacheView;
use super::state::LookupState;
use super::state::wrap_frame;
use super::texture::AnimationFrameTexture;
use super::texture::Gpu;
use super::texture::TileImage;

verus! {

/// `frame` is what the device `display` made of the frame that `result`
/// carries.
pub open spec fn frame_of<T, U: Fn(&TileImage) -> Result<T, TextureCreationError>>(
    display: &Gpu<T, U>,
    result: LoadResult,
    frame: AnimationFrameTexture<T>,
) -> bool {
    result matches LoadResult::Frame { image, delay_nano, orientation, .. } && frame.covers(
        display,
        image@,
    ) && frame.delay_nano == delay_nano && frame.orientation == orientation
}

/// Consuming a result keeps a cache well-formed.
pub proof fn lemma_consumed_wf<T, U: Fn(&TileImage) -> Result<T, TextureCreationError>>(
    display: &Gpu<T, U>,
    before: CacheView<T>,
    result: LoadResult,
    after: CacheView<T>,
    outcome: Result<Option<AnimationFrameTexture<T>>, Error>,
)
    requires
        before.wf(),
        consumed(display, before, result, after, outcome),
    ensures
        after.wf(),
{
    match result {
        LoadResult::Start { req_id, mod_time } => {
            before.lemma_start_wf(req_id, mod_time);
        },
        LoadResult::Frame { req_id, .. } => {
            if let Ok(Some(frame)) = outcome {
                if after == before.insert_frame(req_id, frame) && before.accepts_frame(req_id) {
                    before.lemma_insert_frame_wf(req_id, frame);
                }
            }
        },
        LoadResult::Done { req_id } => {
            before.lemma_finish_wf(req_id, false);
        },
        LoadResult::Failed { req_id } => {
            before.lemma_finish_wf(req_id, true);
        },
    }
}

/// The frames of a request are cached in the order in which they arrive.
///
/// When frames of one request are consumed, all with success, by a cache
/// that accepts frames of the request, the entry of the request holds the
/// frames that it held, and behind them, in the order of their arrival,
/// what the device made of the frames that were consumed.
pub proof fn law_frames_keep_arrival_order<T, U: Fn(&TileImage) -> Result<T, TextureCreationError>>(
    display: &Gpu<T, U>,
    before: CacheView<T>,
    id: u32,
    results: Seq<LoadResult>,
    after: CacheView<T>,
)
    requires
        before.wf(),
        before.accepts_frame(id),
        forall|k: int|
            0 <= k < results.len() ==> (#[trigger] results[k]) is Frame
                && results[k].spec_req_id() == id,
        consumed_all(display, before, results, after),
    ensures
        after.wf(),
        after.accepts_frame(id),
        after.texture_index(id) == before.texture_index(id),
        after.texture(id).frames.len() == before.texture(id).frames.len() + results.len(),
        after.texture(id).frames.take(before.texture(id).frames.len() as int)
            == before.texture(id).frames,
        forall|k: int|
            0 <= k < results.len() ==> frame_of(
                display,
                #[trigger] results[k],
                after.texture(id).frames[before.texture(id).frames.len() + k],
            ),
    decreases results.len(),
{
    let held = before.texture(id).frames;
    if results.len() == 0 {
        assert(held.take(held.len() as int) =~= held);
    } else {
        let (mid, outcome) = choose|
            mid: CacheView<T>,
            outcome: Result<Option<AnimationFrameTexture<T>>, Error>,
        |
            {
                &&& consumed_all(display, before, results.drop_last(), mid)
                &&& #[trigger] consumed(display, mid, results.last(), after, outcome)
                &&& outcome is Ok
            };
        let front = results.drop_last();
        assert forall|k: int| 0 <= k < front.len() implies (#[trigger] front[k]) is Frame
            && front[k].spec_req_id() == id by {
            assert(front[k] == results[k]);
        }
        law_frames_keep_arrival_order(display, before, id, front, mid);
        lemma_consumed_wf(display, mid, results.last(), after, outcome);
        let last = results.last();
        assert(last is Frame && last.spec_req_id() == id);
        mid.lemma_texture_index(id);
        let frame = outcome->Ok_0->Some_0;
        assert(after == mid.insert_frame(id, frame));
        let at = mid.texture_index(id);
        super::cached_texture::lemma_distinct_same_ids(mid.textures, after.textures);
        assert(after.texture(id).frames == mid.texture(id).frames.push(frame));
        assert(after.texture(id).frames.take(held.len() as int) =~= held) by {
            assert(mid.texture(id).frames.take(held.len() as int) == held);
            assert forall|k: int| 0 <= k < held.len() implies after.texture(id).frames[k]
                == held[k] by {
                assert(mid.texture(id).frames.take(held.len() as int)[k] == held[k]);
            }
        }
        assert forall|k: int| 0 <= k < results.len() implies frame_of(
            display,
            #[trigger] results[k],
            after.texture(id).frames[held.len() + k],
        ) by {
            if k < front.len() {
                assert(front[k] == results[k]);
                assert(frame_of(display, front[k], mid.texture(id).frames[held.len() + k]));
            }
        }
    }
}

/// Results that were consumed one after the other were consumed up to any
/// place among them, and from there on.
pub proof fn lemma_consumed_all_split<T, U: Fn(&TileImage) -> Result<T, TextureCreationError>>(
    display: &Gpu<T, U>,
    before: CacheView<T>,
    first: Seq<LoadResult>,
    second: Seq<LoadResult>,
    after: CacheView<T>,
) -> (mid: CacheView<T>)
    requires
        before.wf(),
        consumed_all(display, before, first + second, after),
    ensures
        mid.wf(),
        after.wf(),
        consumed_all(display, before, first, mid),
        consumed_all(display, mid, second, after),
    decreases second.len(),
{
    let all = first + second;
    if second.len() == 0 {
        assert(all =~= first);
        lemma_consumed_all_wf(display, before, first, after);
        after
    } else {
        let (last_mid, outcome) = choose|
            last_mid: CacheView<T>,
            outcome: Result<Option<AnimationFrameTexture<T>>, Error>,
        |
            {
                &&& consumed_all(display, before, all.drop_last(), last_mid)
                &&& #[trigger] consumed(display, last_mid, all.last(), after, outcome)
                &&& outcome is Ok
            };
        assert(all.drop_last() =~= first + second.drop_last());
        assert(all.last() == second.last());
        let mid = lemma_consumed_all_split(display, before, first, second.drop_last(), last_mid);
        lemma_consumed_wf(display, last_mid, second.last(), after, outcome);
        mid
    }
}

/// Consuming results keeps a cache well-formed, and leaves the directory,
/// the capacity, the frame that is current, the requests that were issued
/// and the results that wait as they are.
pub proof fn lemma_consumed_all_wf<T, U: Fn(&TileImage) -> Result<T, TextureCreationError>>(
    display: &Gpu<T, U>,
    before: CacheView<T>,
    results: Seq<LoadResult>,
    after: CacheView<T>,
)
    requires
        before.wf(),
        consumed_all(display, before, results, after),
    ensures
        after.wf(),
        after.dir == before.dir,
        after.current_frame_idx == before.current_frame_idx,
        after.total_capacity == before.total_capacity,
        after.curr_est_size == before.curr_est_size,
        after.requests == before.requests,
        after.pending.results == before.pending.results,
    decreases results.len(),
{
    if results.len() > 0 {
        let (mid, outcome) = choose|
            mid: CacheView<T>,
            outcome: Result<Option<AnimationFrameTexture<T>>, Error>,
        |
            {
                &&& consumed_all(display, before, results.drop_last(), mid)
                &&& #[trigger] consumed(display, mid, results.last(), after, outcome)
                &&& outcome is Ok
            };
        lemma_consumed_all_wf(display, before, results.drop_last(), mid);
        lemma_consumed_wf(display, mid, results.last(), after, outcome);
        super::effects::lemma_consumed_surroundings(
            display,
            mid,
            results.last(),
            after,
            outcome,
        );
    }
}

/// One result that was consumed with success has led where its kind says.
pub proof fn lemma_consumed_one<T, U: Fn(&TileImage) -> Result<T, TextureCreationError>>(
    display: &Gpu<T, U>,
    before: CacheView<T>,
    result: LoadResult,
    after: CacheView<T>,
)
    requires
        consumed_all(display, before, seq![result], after),
    ensures
        exists|outcome: Result<Option<AnimationFrameTexture<T>>, Error>| #[trigger]
            consumed(display, before, result, after, outcome) && outcome is Ok,
{
    let results = seq![result];
    let (mid, outcome) = choose|
        mid: CacheView<T>,
        outcome: Result<Option<AnimationFrameTexture<T>>, Error>,
    |
        {
            &&& consumed_all(display, before, results.drop_last(), mid)
            &&& #[trigger] consumed(display, mid, results.last(), after, outcome)
            &&& outcome is Ok
        };
    assert(results.drop_last() =~= Seq::empty());
    assert(mid == before);
    assert(consumed(display, before, result, after, outcome));
}

/// A whole answer of the decode backend makes a whole entry.
///
/// When the start of a decode, its frames and its end are consumed for a
/// request that is in flight, not cancelled and without an entry, the
/// request has an entry afterwards that is complete and has not failed,
/// with the modification time that the start has told and with what the
/// device made of the frames, in the order of their arrival. The request
/// is no longer in flight.
pub proof fn law_whole_answer_makes_whole_entry<
    T,
    U: Fn(&TileImage) -> Result<T, TextureCreationError>,
>(
    display: &Gpu<T, U>,
    before: CacheView<T>,
    id: u32,
    mod_time: Option<ModTime>,
    frames: Seq<LoadResult>,
    after: CacheView<T>,
)
    requires
        before.wf(),
        before.pending.live(id),
        !before.has_texture(id),
        forall|k: int|
            0 <= k < frames.len() ==> (#[trigger] frames[k]) is Frame && frames[k].spec_req_id()
                == id,
        consumed_all(
            display,
            before,
            seq![LoadResult::Start { req_id: id, mod_time }] + frames + seq![
                LoadResult::Done { req_id: id },
            ],
            after,
        ),
    ensures
        after.wf(),
        after.has_texture(id),
        after.texture(id).fully_loaded,
        !after.texture(id).failed,
        after.texture(id).mod_time == mod_time,
        after.texture(id).frames.len() == frames.len(),
        forall|k: int|
            0 <= k < frames.len() ==> frame_of(
                display,
                #[trigger] frames[k],
                after.texture(id).frames[k],
            ),
        !after.pending.contains(id),
        after.priority != Some(id),
        after.remaining_capacity == before.remaining_capacity - after.texture(id).size(),
{
    let start = LoadResult::Start { req_id: id, mod_time };
    let done = LoadResult::Done { req_id: id };
    lemma_consumed_all_wf(display, before, seq![start] + frames + seq![done], after);
    let filled = lemma_consumed_all_split(display, before, seq![start] + frames, seq![done], after);
    let started = lemma_consumed_all_split(display, before, seq![start], frames, filled);
    lemma_consumed_one(display, before, start, started);
    lemma_consumed_one(display, filled, done, after);
    assert(started == before.start(id, mod_time));
    assert(after == filled.finish(id, false));
    // The start has made an empty entry.
    before.lemma_texture_index(id);
    let entry = super::cached_texture::TextureView::<T>::started(id, mod_time);
    assert(started.textures == before.textures.push(entry));
    started.lemma_texture_at(before.textures.len() as int);
    assert(started.texture(id) == entry);
    super::cached_texture::lemma_textures_size_push(before.textures, entry);
    assert(entry.size() == 0);
    // The frames have filled it.
    law_frames_keep_arrival_order(display, started, id, frames, filled);
    lemma_frames_touch_one_entry(display, started, id, frames, filled);
    // The end has completed it.
    filled.lemma_texture_index(id);
    filled.lemma_finish_wf(id, false);
    filled.pending.lemma_set_finished(id, id);
    let at = before.textures.len() as int;
    assert(filled.texture_index(id) == at);
    super::cached_texture::lemma_distinct_same_ids(filled.textures, after.textures);
    assert(after.texture_index(id) == at);
    assert(after.texture(id).frames == filled.texture(id).frames);
    assert(after.textures.remove(at) =~= before.textures) by {
        assert forall|k: int| 0 <= k < at implies after.textures[k] == before.textures[k] by {
            assert(filled.textures[k] == started.textures[k]);
        }
    }
    super::cached_texture::lemma_textures_size_remove(after.textures, at);
}

/// Consuming frames of one request leaves the entries of the others as
/// they are.
proof fn lemma_frames_touch_one_entry<T, U: Fn(&TileImage) -> Result<T, TextureCreationError>>(
    display: &Gpu<T, U>,
    before: CacheView<T>,
    id: u32,
    results: Seq<LoadResult>,
    after: CacheView<T>,
)
    requires
        before.wf(),
        before.accepts_frame(id),
        forall|k: int|
            0 <= k < results.len() ==> (#[trigger] results[k]) is Frame
                && results[k].spec_req_id() == id,
        consumed_all(display, before, results, after),
    ensures
        after.textures.len() == before.textures.len(),
        forall|k: int|
            0 <= k < before.textures.len() && k != before.texture_index(id)
                ==> #[trigger] after.textures[k] == before.textures[k],
        after.texture(id) == (super::cached_texture::TextureView {
            frames: after.texture(id).frames,
            ..before.texture(id)
        }),
        after.pending == before.pending,
        after.priority == before.priority,
    decreases results.len(),
{
    before.lemma_texture_index(id);
    if results.len() > 0 {
        let (mid, outcome) = choose|
            mid: CacheView<T>,
            outcome: Result<Option<AnimationFrameTexture<T>>, Error>,
        |
            {
                &&& consumed_all(display, before, results.drop_last(), mid)
                &&& #[trigger] consumed(display, mid, results.last(), after, outcome)
                &&& outcome is Ok
            };
        let front = results.drop_last();
        assert forall|k: int| 0 <= k < front.len() implies (#[trigger] front[k]) is Frame
            && front[k].spec_req_id() == id by {
            assert(front[k] == results[k]);
        }
        lemma_frames_touch_one_entry(display, before, id, front, mid);
        law_frames_keep_arrival_order(display, before, id, front, mid);
        assert(results.last() is Frame && results.last().spec_req_id() == id);
        mid.lemma_texture_index(id);
        let frame = outcome->Ok_0->Some_0;
        assert(after == mid.insert_frame(id, frame));
        assert forall|k: int|
            0 <= k < before.textures.len() && k != before.texture_index(id) implies #[trigger]
            after.textures[k] == before.textures[k] by {
            assert(mid.textures[k] == before.textures[k]);
        }
        super::cached_texture::lemma_distinct_same_ids(mid.textures, after.textures);
    }
}

/// Closest first: when a cache is refreshed, an entry stays only if every
/// entry that is closer to the current file stays too.
pub proof fn law_refresh_keeps_the_closest<T>(cache: CacheView<T>, closer: u32, farther: u32)
    requires
        cache.wf(),
        cache.has_texture(closer),
        cache.has_texture(farther),
        distance(cache.dir, closer) < distance(cache.dir, farther),
        cache.refresh_cache().has_texture(farther),
    ensures
        cache.refresh_cache().has_texture(closer),
{
    let after = cache.refresh_cache();
    cache.lemma_texture_index(closer);
    cache.lemma_texture_index(farther);
    cache.lemma_refresh_cache_wf();
    after.lemma_texture_index(closer);
    after.lemma_texture_index(farther);
    if cache.dir.curr_img_index() is Some {
        let kept = retained(cache.textures, cache.dir, cache.total_capacity, cache.curr_est_size);
        lemma_retained_entries(
            cache.textures,
            cache.dir,
            cache.total_capacity,
            cache.curr_est_size,
        );
        // The farther entry is among those that stay, as it was.
        let f = after.texture_index(farther);
        assert(cache.textures.contains(kept[f]));
        let of = choose|i: int| 0 <= i < cache.textures.len() && cache.textures[i] == kept[f];
        cache.lemma_texture_at(of);
        assert(of == cache.texture_index(farther));
        assert(kept.contains(cache.textures[cache.texture_index(farther)]));
        lemma_closer_entries_stay(
            cache.textures,
            cache.dir,
            cache.total_capacity,
            cache.curr_est_size,
            cache.texture_index(closer),
            cache.texture_index(farther),
        );
        let c = choose|i: int|
            0 <= i < kept.len() && kept[i] == cache.textures[cache.texture_index(closer)];
        after.lemma_texture_at(c);
    }
}

/// After a refresh, what remains of the capacity is exactly what the
/// entries that have stayed leave of it.
pub proof fn law_refresh_accounts_exactly<T>(cache: CacheView<T>)
    requires
        cache.wf(),
    ensures
        cache.refresh_cache().remaining_capacity == cache.total_capacity - textures_size(
            cache.refresh_cache().textures,
        ),
        cache.refresh_cache().total_capacity == cache.total_capacity,
{
}

/// A frame index is wrapped around: an entry that is complete, has `n`
/// frames and is trusted answers a request for the frame `f` with its
/// frame `((f % n) + n) % n`, which is the least non-negative remainder of
/// `f` by `n`.
pub proof fn law_frame_index_wraps<T>(
    cache: CacheView<T>,
    item: DirItemView,
    frame_id: int,
    disk: Option<ModTime>,
)
    requires
        cache.wf(),
        cache.has_texture(item.request_id),
        cache.texture(item.request_id).fully_loaded,
        !cache.texture(item.request_id).failed,
        cache.texture(item.request_id).frames.len() > 0,
        cache.lookup_state(item.request_id, disk) == LookupState::CachedFresh,
    ensures
        ({
            let frames = cache.texture(item.request_id).frames;
            let n = frames.len() as int;
            let wrapped = ((frame_id % n) + n) % n;
            &&& 0 <= wrapped < n
            &&& wrapped == wrap_frame(frame_id, n)
            &&& cache.resolved(item, frame_id, disk) == Ok::<AnimationFrameTexture<T>, Error>(
                frames[wrapped],
            )
            &&& cache.resolve(item, frame_id, disk).current_frame_idx == wrapped
        }),
{
    let n = cache.texture(item.request_id).frames.len() as int;
    vstd::arithmetic::div_mod::lemma_mod_bound(frame_id, n);
    vstd::arithmetic::div_mod::lemma_fundamental_div_mod_converse(
        frame_id % n + n,
        n,
        1,
        frame_id % n,
    );
}

/// Looking at the current image a second time gives the same answer and
/// issues no request, as long as the disk tells the same of the file. The
/// frame that was handed out stands for itself when it is asked for again.
pub proof fn law_second_look_is_the_same<T>(
    cache: CacheView<T>,
    item: DirItemView,
    frame_id: int,
    disk: Option<ModTime>,
)
    requires
        cache.wf(),
    ensures
        ({
            let first = cache.resolve(item, frame_id, disk);
            &&& first.resolved(item, frame_id, disk) == cache.resolved(item, frame_id, disk)
            &&& first.resolve(item, frame_id, disk).requests == first.requests
            &&& first.resolve(item, frame_id, disk).pending == first.pending
            &&& first.resolve(item, frame_id, disk).textures == first.textures
            &&& cache.resolved(item, frame_id, disk) is Ok ==> first.resolved(
                item,
                first.current_frame_idx,
                disk,
            ) == cache.resolved(item, frame_id, disk)
        }),
{
    let id = item.request_id;
    let first = cache.resolve(item, frame_id, disk);
    cache.lemma_texture_index(id);
    cache.lemma_resolve_wf(item, frame_id, disk);
    first.lemma_texture_index(id);
    match cache.lookup_state(id, disk) {
        LookupState::Failed => {},
        LookupState::CachedFresh => {
            if cache.resolvable(id, frame_id) {
                let n = cache.texture(id).frames.len() as int;
                vstd::arithmetic::div_mod::lemma_mod_bound(frame_id, n);
                vstd::arithmetic::div_mod::lemma_small_mod(
                    wrap_frame(frame_id, n) as nat,
                    n as nat,
                );
            }
        },
        LookupState::CachedStale => {
            let removed = cache.remove_texture(id);
            cache.lemma_remove_texture_wf(id);
            removed.lemma_texture_index(id);
            lemma_requested_twice(removed, item.path, id, disk);
        },
        LookupState::PendingKnown => {},
        LookupState::Unrequested => {
            lemma_requested_twice(cache, item.path, id, disk);
        },
    }
}

/// An image that is not in the cache and was wanted with priority is not
/// in the cache afterwards; if no request is in flight for it then, wanting
/// it again changes nothing.
proof fn lemma_requested_twice<T>(cache: CacheView<T>, path: Seq<char>, id: u32, disk: Option<ModTime>)
    requires
        cache.wf(),
        !cache.has_texture(id),
    ensures
        ({
            let first = cache.request_file(path, id, true, disk);
            &&& !first.has_texture(id)
            &&& first.textures == cache.textures
            &&& !first.pending.contains(id) ==> first.request_file(path, id, true, disk) == first
        }),
{
    let first = cache.request_file(path, id, true, disk);
    cache.lemma_texture_index(id);
    if cache.pending.requests.len() < super::state::MAX_PENDING_REQUESTS {
        if !cache.pending.contains(id) {
            cache.pending.lemma_add_request(id, id);
        }
    }
}

/// When another directory is opened, every request that was in flight is
/// cancelled, and the cache is empty.
pub proof fn law_directory_change_cancels<T>(cache: CacheView<T>, path: Seq<char>, id: u32)
    requires
        cache.wf(),
        cache.dir.path != path,
    ensures
        cache.change_directory(path).textures.len() == 0,
        cache.change_directory(path).remaining_capacity == cache.total_capacity,
        cache.pending.contains(id) ==> cache.change_directory(path).pending.cancelled(id) == Some(
            true,
        ),
        !cache.pending.contains(id) ==> cache.change_directory(path).pending.cancelled(id)
            == None::<bool>,
        forall|name: Seq<char>|
            (#[trigger] cache.change_directory_with_filename(path, name)).textures
                == cache.change_directory(path).textures && cache.change_directory_with_filename(
                path,
                name,
            ).pending == cache.change_directory(path).pending,
{
    cache.pending.lemma_cancel_all(id);
}

/// A second refresh changes nothing.
pub proof fn law_refresh_twice<T>(cache: CacheView<T>)
    requires
        cache.wf(),
    ensures
        cache.refresh_cache().refresh_cache() == cache.refresh_cache(),
{
    if cache.dir.curr_img_index() is Some {
        lemma_retained_is_settled(
            cache.textures,
            cache.dir,
            cache.total_capacity,
            cache.curr_est_size,
        );
        lemma_settled_stays(
            cache.refresh_cache().textures,
            cache.dir,
            cache.total_capacity,
            cache.curr_est_size,
        );
    }
}

/// In a cache in which no result waits, none waits for any request.
pub proof fn lemma_nothing_waits<T>(cache: CacheView<T>, id: u32)
    requires
        cache.pending.results.len() == 0,
    ensures
        !cache.pending.has_results(id),
        cache.pending.buffered(id) == Seq::<LoadResult>::empty(),
        cache.take_results(id) == cache,
{
}

/// What the disk tells does not matter to a request for an image that is
/// not in the cache.
pub proof fn lemma_request_without_entry<T>(
    cache: CacheView<T>,
    path: Seq<char>,
    id: u32,
    priority: bool,
    a: Option<ModTime>,
    b: Option<ModTime>,
)
    requires
        !cache.has_texture(id),
    ensures
        cache.request_file(path, id, priority, a) == cache.request_file(path, id, priority, b),
        cache.issues_request(id, a) == cache.issues_request(id, b),
        !cache.compares(id),
{
}

/// What a look at the current image does in a cache in which no result
/// waits is what [`CacheView::resolve`] says, and its answer is what
/// [`CacheView::resolved`] says.
pub proof fn lemma_quiet_look<
    T,
    U: Fn(&TileImage) -> Result<T, TextureCreationError>,
    S: Fn(&String) -> Option<ModTime>,
>(
    display: &Gpu<T, U>,
    disk: &Disk<S>,
    before: CacheView<T>,
    item: DirItemView,
    frame_id: int,
    time: Option<ModTime>,
    after: CacheView<T>,
    answer: Result<AnimationFrameTexture<T>, Error>,
)
    requires
        before.wf(),
        before.pending.results.len() == 0,
        looked_up(display, disk, before, item, frame_id, time, after, answer),
    ensures
        after == before.resolve(item, frame_id, time),
        answer == before.resolved(item, frame_id, time),
{
    let id = item.request_id;
    before.lemma_texture_index(id);
    let state = before.lookup_state(id, time);
    if state == LookupState::CachedStale || state == LookupState::Unrequested {
        let start = if state == LookupState::CachedStale {
            before.remove_texture(id)
        } else {
            before
        };
        before.lemma_remove_texture_wf(id);
        let issued = choose|issued: bool| #[trigger]
            sent_with_priority(display, disk, start, item.path, id, after, issued);
        let room = choose|room: CacheView<T>|
            {
                &&& #[trigger] made_room(display, start, room)
                &&& requested_compared(disk, room, item.path, id, true, after, issued)
            };
        assert(room == start);
        let other = choose|other: Option<ModTime>|
            {
                &&& start.compares(id) ==> disk.reported(item.path, other)
                &&& after == #[trigger] start.request_file(item.path, id, true, other)
                &&& issued == start.issues_request(id, other)
            };
        lemma_request_without_entry(start, item.path, id, true, other, time);
    }
}

/// What asking for the current image does in a cache in which no result
/// waits is what [`CacheView::resolve`] says of what the disk has told,
/// and its answer is what [`CacheView::resolved`] says.
pub proof fn lemma_quiet_request<
    T,
    U: Fn(&TileImage) -> Result<T, TextureCreationError>,
    S: Fn(&String) -> Option<ModTime>,
>(
    display: &Gpu<T, U>,
    disk: &Disk<S>,
    before: CacheView<T>,
    item: DirItemView,
    frame_id: int,
    after: CacheView<T>,
    answer: Result<AnimationFrameTexture<T>, Error>,
) -> (time: Option<ModTime>)
    requires
        before.wf(),
        before.pending.results.len() == 0,
        requested_image(display, disk, before, item, frame_id, after, answer),
    ensures
        disk.reported(item.path, time),
        after == before.resolve(item, frame_id, time),
        answer == before.resolved(item, frame_id, time),
{
    let id = item.request_id;
    lemma_nothing_waits(before, id);
    let results = before.pending.buffered(id);
    if answer is Err && consumed_until(display, before, results, after, answer->Err_0) {
        assert(false);
    }
    let (mid, time) = choose|mid: CacheView<T>, time: Option<ModTime>|
        {
            &&& consumed_all(display, before, results, mid)
            &&& disk.reported(item.path, time)
            &&& #[trigger] looked_up(display, disk, mid, item, frame_id, time, after, answer)
        };
    assert(mid == before);
    lemma_quiet_look(display, disk, before, item, frame_id, time, after, answer);
    time
}

/// Two answers are the same: the same frame, or the same error, whatever
/// the words of a message.
pub open spec fn same_answer<T>(
    first: Result<AnimationFrameTexture<T>, Error>,
    second: Result<AnimationFrameTexture<T>, Error>,
) -> bool {
    first == second || (first matches Err(Error::Msg(_)) && second matches Err(Error::Msg(_)))
}

/// Looking at the current image does not touch the directory, the
/// capacity or the results that wait, and takes at most the entry of the
/// image out of the cache.
pub proof fn lemma_resolve_surroundings<T>(
    cache: CacheView<T>,
    item: DirItemView,
    frame_id: int,
    disk: Option<ModTime>,
)
    requires
        cache.wf(),
    ensures
        ({
            let after = cache.resolve(item, frame_id, disk);
            &&& after.wf()
            &&& after.dir == cache.dir
            &&& after.total_capacity == cache.total_capacity
            &&& after.curr_est_size == cache.curr_est_size
            &&& after.pending.results == cache.pending.results
            &&& after.textures == cache.textures || (cache.has_texture(item.request_id)
                && after.textures == cache.textures.remove(cache.texture_index(item.request_id)))
            &&& cache.resolved(item, frame_id, disk) is Ok ==> after.current_frame_idx
                == wrap_frame(frame_id, cache.texture(item.request_id).frames.len() as int)
                && after.textures == cache.textures
            &&& cache.resolved(item, frame_id, disk) is Err ==> after.current_frame_idx
                == cache.current_frame_idx
        }),
{
    let id = item.request_id;
    cache.lemma_resolve_wf(item, frame_id, disk);
    cache.lemma_texture_index(id);
    cache.lemma_remove_texture_wf(id);
    cache.remove_texture(id).lemma_texture_index(id);
}

/// Loading an image a second time gives the same answer and issues no
/// request, as long as no result of the decode backend has arrived and
/// the disk tells the same of every file.
pub proof fn law_second_load_is_the_same<
    T,
    U: Fn(&TileImage) -> Result<T, TextureCreationError>,
    S: Fn(&String) -> Option<ModTime>,
>(
    display: &Gpu<T, U>,
    disk: &Disk<S>,
    before: CacheView<T>,
    parent: Seq<char>,
    name: Option<Seq<char>>,
    frame_id: Option<int>,
    first: CacheView<T>,
    first_answer: Result<AnimationFrameTexture<T>, Error>,
    second: CacheView<T>,
    second_answer: Result<AnimationFrameTexture<T>, Error>,
)
    requires
        before.wf(),
        before.pending.results.len() == 0,
        disk.steady(),
        loaded_specific(display, disk, before, parent, name, frame_id, first, first_answer),
        loaded_specific(display, disk, first, parent, name, frame_id, second, second_answer),
    ensures
        same_answer(first_answer, second_answer),
        second.requests == first.requests,
        second.pending == first.pending,
        second.textures == first.textures,
        second.dir == first.dir,
{
    let names = super::state::item_names_of(before.dir);
    before.lemma_change_directory_wf(parent, if name is Some { name->0 } else { parent });
    let navigated = before.navigate(parent, name);
    if name is Some {
        super::lookup::lemma_first_index(names, name->0);
    }
    if name is Some && !before.dir.can_select(parent, name->0) {
        // Nothing has changed.
    } else if navigated.dir.listing is None {
        assert(first == navigated);
        assert(first.navigate(parent, name) == first);
    } else {
        assert(navigated.wf());
        navigated.lemma_refresh_cache_wf();
        let refreshed = navigated.refresh_cache();
        assert(refreshed.pending.results.len() == 0);
        // The directory is the one that was open: it has not lost its
        // listing.
        assert(before.dir.path == parent);
        assert(navigated.textures == before.textures);
        if refreshed.dir.curr_descriptor() is Some {
            let item = refreshed.dir.curr_descriptor()->0;
            let asked = navigated.requested_frame(before.dir, frame_id);
            let time = lemma_quiet_request(
                display,
                disk,
                refreshed,
                item,
                asked,
                first,
                first_answer,
            );
            lemma_resolve_surroundings(refreshed, item, asked, time);
            // The second load finds the directory as it is.
            let again = first.navigate(parent, name);
            first.lemma_change_directory_wf(parent, if name is Some { name->0 } else { parent });
            assert(again.dir == first.dir);
            assert(again.textures == first.textures);
            // The entries that have stayed stay.
            lemma_retained_is_settled(
                navigated.textures,
                navigated.dir,
                navigated.total_capacity,
                navigated.curr_est_size,
            );
            if first.textures != refreshed.textures {
                refreshed.lemma_texture_index(item.request_id);
                lemma_settled_without(
                    refreshed.textures,
                    refreshed.dir,
                    refreshed.total_capacity,
                    refreshed.curr_est_size,
                    refreshed.texture_index(item.request_id),
                );
            }
            lemma_settled_stays(
                first.textures,
                first.dir,
                first.total_capacity,
                first.curr_est_size,
            );
            assert(again.refresh_cache() == again);
            let asked_again = again.requested_frame(first.dir, frame_id);
            let time_again = lemma_quiet_request(
                display,
                disk,
                again,
                item,
                asked_again,
                second,
                second_answer,
            );
            assert(time_again == time);
            lemma_resolve_surroundings(again, item, asked_again, time);
            law_second_look_is_the_same(refreshed, item, asked, time);
            // The frame that is asked for the second time stands for the
            // frame that was handed out the first time.
            let id = item.request_id;
            refreshed.lemma_texture_index(id);
            first.lemma_texture_index(id);
            if first_answer is Ok {
                let n = refreshed.texture(id).frames.len() as int;
                vstd::arithmetic::div_mod::lemma_mod_bound(asked, n);
                vstd::arithmetic::div_mod::lemma_small_mod(wrap_frame(asked, n) as nat, n as nat);
                assert(wrap_frame(asked_again, n) == wrap_frame(asked, n));
                assert(again.textures == refreshed.textures);
                assert(again.pending == refreshed.pending);
            } else {
                lemma_same_wait(refreshed, again, item, asked, asked_again, time);
            }
        } else {
            assert(first == refreshed);
            assert(refreshed == navigated);
            assert(first.navigate(parent, name) == first);
        }
    }
}

/// An image that is awaited, or has failed, is so whatever frame of it is
/// asked for next, as long as the frame that is asked for is the one that
/// was asked for or the first.
proof fn lemma_same_wait<T>(
    cache: CacheView<T>,
    again: CacheView<T>,
    item: DirItemView,
    asked: int,
    asked_again: int,
    disk: Option<ModTime>,
)
    requires
        cache.wf(),
        cache.resolved(item, asked, disk) is Err,
        again.wf(),
        again.textures == cache.resolve(item, asked, disk).textures,
        again.pending == cache.resolve(item, asked, disk).pending,
        asked_again == asked || asked == 0,
    ensures
        again.resolved(item, asked_again, disk) == cache.resolved(item, asked, disk),
        again.resolve(item, asked_again, disk).requests == again.requests,
        again.resolve(item, asked_again, disk).pending == again.pending,
        again.resolve(item, asked_again, disk).textures == again.textures,
{
    let id = item.request_id;
    let first = cache.resolve(item, asked, disk);
    cache.lemma_texture_index(id);
    cache.lemma_resolve_wf(item, asked, disk);
    first.lemma_texture_index(id);
    again.lemma_texture_index(id);
    assert(again.texture_index(id) == first.texture_index(id));
    match cache.lookup_state(id, disk) {
        LookupState::CachedStale => {
            let removed = cache.remove_texture(id);
            cache.lemma_remove_texture_wf(id);
            removed.lemma_texture_index(id);
            lemma_requested_twice(removed, item.path, id, disk);
            lemma_requested_again(again, first, item.path, id, disk);
        },
        LookupState::Unrequested => {
            lemma_requested_twice(cache, item.path, id, disk);
            lemma_requested_again(again, first, item.path, id, disk);
        },
        _ => {},
    }
}

/// A request with priority for an image that is not in the cache changes
/// neither the entries nor the requests in flight nor those that were
/// issued, if a request for the image is in flight or as many are in
/// flight as may be.
proof fn lemma_requested_again<T>(
    again: CacheView<T>,
    first: CacheView<T>,
    path: Seq<char>,
    id: u32,
    disk: Option<ModTime>,
)
    requires
        again.textures == first.textures,
        again.pending == first.pending,
        !first.has_texture(id),
        !first.pending.contains(id) ==> first.request_file(path, id, true, disk) == first,
    ensures
        !again.pending.contains(id) ==> again.request_file(path, id, true, disk).requests
            == again.requests && again.request_file(path, id, true, disk).pending == again.pending
            && again.request_file(path, id, true, disk).textures == again.textures,
{
}

} // verus!
