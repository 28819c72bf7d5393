//! What the operations of the cache do, stated as relations between the
//! cache before and after. What the graphics device and the file system
//! answer is not known beforehand: the relations hold of every answer.

use vstd::prelude::*;

use super::directory::DirItemView;
use super::disk::Disk;
use super::errors::Error;
use super::errors::TextureCreationError;
use super::image_loader::LoadResult;
use super::image_loader::ModTime;
use super::image_size_estimate;
use super::RequestKind;
use super::state::CacheView;
use super::state::LookupState;
use super::state::MAX_PENDING_REQUESTS;
use super::texture::refused;
use super::texture::AnimationFrameTexture;
use super::texture::Gpu;
use super::texture::TileImage;

verus! {

/// What consuming one result of the decode backend does to the cache and
/// answers, on the device `display`.
///
/// A frame is put into the cache only if its request is in flight, not
/// cancelled, and has an entry; whether it is then depends on the device.
/// A frame whose size the accounts of the cache cannot hold is refused.
pub open spec fn consumed<T, U: Fn(&TileImage) -> Result<T, TextureCreationError>>(
    display: &Gpu<T, U>,
    before: CacheView<T>,
    result: LoadResult,
    after: CacheView<T>,
    outcome: Result<Option<AnimationFrameTexture<T>>, Error>,
) -> bool {
    match result {
        LoadResult::Start { req_id, mod_time } => {
            &&& after == before.start(req_id, mod_time)
            &&& outcome == Ok::<Option<AnimationFrameTexture<T>>, Error>(None)
        },
        LoadResult::Frame { req_id, image, delay_nano, orientation } => {
            if !before.accepts_frame(req_id) {
                &&& after == before
                &&& outcome == Ok::<Option<AnimationFrameTexture<T>>, Error>(None)
            } else if !before.fits(image_size_estimate(image@.width, image@.height)) {
                &&& after == before
                &&& outcome matches Err(Error::Msg(_))
            } else {
                match outcome {
                    Ok(Some(frame)) => {
                        &&& frame.covers(display, image@)
                        &&& frame.delay_nano == delay_nano
                        &&& frame.orientation == orientation
                        &&& after == before.insert_frame(req_id, frame)
                    },
                    Err(Error::TextureCreationError(e)) => {
                        &&& after == before
                        &&& refused(display, image@, e)
                    },
                    _ => false,
                }
            }
        },
        LoadResult::Done { req_id } => {
            &&& after == before.finish(req_id, false)
            &&& outcome == Ok::<Option<AnimationFrameTexture<T>>, Error>(None)
        },
        LoadResult::Failed { req_id } => {
            &&& after == before.finish(req_id, true)
            &&& outcome == Err::<Option<AnimationFrameTexture<T>>, Error>(
                Error::FailedToLoadImage { req_id },
            )
        },
    }
}

/// The results were consumed in their order, each with success, and have
/// led from `before` to `after`.
pub open spec fn consumed_all<T, U: Fn(&TileImage) -> Result<T, TextureCreationError>>(
    display: &Gpu<T, U>,
    before: CacheView<T>,
    results: Seq<LoadResult>,
    after: CacheView<T>,
) -> bool
    decreases results.len(),
{
    if results.len() == 0 {
        after == before
    } else {
        exists|mid: CacheView<T>, outcome: Result<Option<AnimationFrameTexture<T>>, Error>|
            {
                &&& consumed_all(display, before, results.drop_last(), mid)
                &&& #[trigger] consumed(display, mid, results.last(), after, outcome)
                &&& outcome is Ok
            }
    }
}

/// The results were consumed in their order until one of them ended in
/// the error `e`, which left the cache as `after`.
pub open spec fn consumed_until<T, U: Fn(&TileImage) -> Result<T, TextureCreationError>>(
    display: &Gpu<T, U>,
    before: CacheView<T>,
    results: Seq<LoadResult>,
    after: CacheView<T>,
    e: Error,
) -> bool {
    exists|n: int, mid: CacheView<T>|
        {
            &&& 0 <= n < results.len()
            &&& consumed_all(display, before, results.take(n), mid)
            &&& #[trigger] consumed(
                display,
                mid,
                results[n],
                after,
                Err::<Option<AnimationFrameTexture<T>>, Error>(e),
            )
        }
}

/// The results were consumed in their order, and have led from `before`
/// to `after`. That an image failed to load was passed over; nothing else
/// went wrong. `uploaded` tells whether one of the results was consumed
/// with success.
pub open spec fn passed_over<T, U: Fn(&TileImage) -> Result<T, TextureCreationError>>(
    display: &Gpu<T, U>,
    before: CacheView<T>,
    results: Seq<LoadResult>,
    after: CacheView<T>,
    uploaded: bool,
) -> bool
    decreases results.len(),
{
    if results.len() == 0 {
        after == before && !uploaded
    } else {
        exists|
            mid: CacheView<T>,
            uploaded_before: bool,
            outcome: Result<Option<AnimationFrameTexture<T>>, Error>,
        |
            {
                &&& passed_over(display, before, results.drop_last(), mid, uploaded_before)
                &&& #[trigger] passed_one(
                    display,
                    mid,
                    uploaded_before,
                    results.last(),
                    after,
                    uploaded,
                    outcome,
                )
            }
    }
}

/// One result was consumed with the outcome `outcome`, which was success
/// or that the image failed to load. `uploaded` tells whether it was
/// success, or a result was consumed with success before.
pub open spec fn passed_one<T, U: Fn(&TileImage) -> Result<T, TextureCreationError>>(
    display: &Gpu<T, U>,
    before: CacheView<T>,
    uploaded_before: bool,
    result: LoadResult,
    after: CacheView<T>,
    uploaded: bool,
    outcome: Result<Option<AnimationFrameTexture<T>>, Error>,
) -> bool {
    &&& consumed(display, before, result, after, outcome)
    &&& outcome is Ok || (outcome is Err && outcome->Err_0 is FailedToLoadImage)
    &&& uploaded == (uploaded_before || outcome is Ok)
}

/// The results were consumed in their order, passing over images that
/// failed to load, until one of them ended in the error `e`, which left
/// the cache as `after`.
pub open spec fn passed_over_until<T, U: Fn(&TileImage) -> Result<T, TextureCreationError>>(
    display: &Gpu<T, U>,
    before: CacheView<T>,
    results: Seq<LoadResult>,
    after: CacheView<T>,
    e: Error,
) -> bool {
    exists|n: int, mid: CacheView<T>, uploaded: bool|
        {
            &&& 0 <= n < results.len()
            &&& #[trigger] passed_over(display, before, results.take(n), mid, uploaded)
            &&& consumed(
                display,
                mid,
                results[n],
                after,
                Err::<Option<AnimationFrameTexture<T>>, Error>(e),
            )
            &&& !(e is FailedToLoadImage)
        }
}

/// The results that waited for the requests `ids` were taken and consumed,
/// one request after the other, and have led from `before` to `after`.
/// No result of a request but the last was consumed with success;
/// `uploaded` tells whether one of the last request was.
pub open spec fn batches_passed<T, U: Fn(&TileImage) -> Result<T, TextureCreationError>>(
    display: &Gpu<T, U>,
    before: CacheView<T>,
    ids: Seq<u32>,
    after: CacheView<T>,
    uploaded: bool,
) -> bool
    decreases ids.len(),
{
    if ids.len() == 0 {
        after == before && !uploaded
    } else {
        exists|mid: CacheView<T>|
            {
                &&& batches_passed(display, before, ids.drop_last(), mid, false)
                &&& #[trigger] passed_over(
                    display,
                    mid.take_results(ids.last()),
                    mid.pending.buffered(ids.last()),
                    after,
                    uploaded,
                )
            }
    }
}

/// What consuming results that wait does to the cache and answers.
///
/// The requests for which results wait are gone through in the order in
/// which their first results arrived. The results of a request are taken
/// and consumed in their order; that an image failed to load is passed
/// over, any other error ends the work and is the answer. The work is
/// done after the first request of which a result was consumed with
/// success.
pub open spec fn prefetch_processed<T, U: Fn(&TileImage) -> Result<T, TextureCreationError>>(
    display: &Gpu<T, U>,
    before: CacheView<T>,
    after: CacheView<T>,
    done: Result<(), Error>,
) -> bool {
    let ids = before.pending.result_ids();
    match done {
        Ok(()) => exists|count: int, uploaded: bool|
            {
                &&& 0 <= count <= ids.len()
                &&& #[trigger] batches_passed(display, before, ids.take(count), after, uploaded)
                &&& uploaded || count == ids.len()
            },
        Err(e) => exists|count: int, mid: CacheView<T>|
            {
                &&& 0 <= count < ids.len()
                &&& #[trigger] batches_passed(display, before, ids.take(count), mid, false)
                &&& passed_over_until(
                    display,
                    mid.take_results(ids[count]),
                    mid.pending.buffered(ids[count]),
                    after,
                    e,
                )
            },
    }
}

/// What consuming results that wait can do to a cache, whatever the
/// results are and whatever the device answers: the directory, the
/// capacity, the frame that is current and the requests that were issued
/// stay as they are, and no request comes into flight. Where no result
/// waits, nothing changes.
pub open spec fn drained<T>(before: CacheView<T>, after: CacheView<T>) -> bool {
    &&& after.wf()
    &&& after.dir == before.dir
    &&& after.current_frame_idx == before.current_frame_idx
    &&& after.total_capacity == before.total_capacity
    &&& after.curr_est_size == before.curr_est_size
    &&& after.requests == before.requests
    &&& forall|id: u32| after.pending.contains(id) ==> before.pending.contains(id)
    &&& before.pending.results.len() == 0 ==> after == before
}

/// What asking for the frame `frame_id` of the current image `item` does
/// to the cache and answers.
///
/// The results that wait for the image are consumed first; an error ends
/// the work. Then the disk is asked for the file and the image is looked
/// up. An image that is in the cache, fresh or failed, or in flight, is
/// resolved as [`CacheView::resolve`] says. An image that is stale loses
/// its entry; for it, and for an image that is neither in the cache nor in
/// flight, a request with priority is sent, and the decode backend is
/// awaited.
pub open spec fn requested_image<
    T,
    U: Fn(&TileImage) -> Result<T, TextureCreationError>,
    S: Fn(&String) -> Option<ModTime>,
>(
    display: &Gpu<T, U>,
    disk: &Disk<S>,
    before: CacheView<T>,
    item: DirItemView,
    frame_id: int,
    after: CacheView<T>,
    outcome: Result<AnimationFrameTexture<T>, Error>,
) -> bool {
    let taken = before.take_results(item.request_id);
    let results = before.pending.buffered(item.request_id);
    ||| outcome is Err && consumed_until(display, taken, results, after, outcome->Err_0)
    ||| exists|mid: CacheView<T>, time: Option<ModTime>|
        {
            &&& consumed_all(display, taken, results, mid)
            &&& disk.reported(item.path, time)
            &&& #[trigger] looked_up(display, disk, mid, item, frame_id, time, after, outcome)
        }
}

/// What looking up the current image `item` does to the cache and answers,
/// once the disk has told `time` of its file.
pub open spec fn looked_up<
    T,
    U: Fn(&TileImage) -> Result<T, TextureCreationError>,
    S: Fn(&String) -> Option<ModTime>,
>(
    display: &Gpu<T, U>,
    disk: &Disk<S>,
    before: CacheView<T>,
    item: DirItemView,
    frame_id: int,
    time: Option<ModTime>,
    after: CacheView<T>,
    outcome: Result<AnimationFrameTexture<T>, Error>,
) -> bool {
    let id = item.request_id;
    match before.lookup_state(id, time) {
        LookupState::CachedStale => {
            &&& outcome == Err::<AnimationFrameTexture<T>, Error>(Error::WaitingOnLoader)
            &&& exists|issued: bool| #[trigger]
                sent_with_priority(
                    display,
                    disk,
                    before.remove_texture(id),
                    item.path,
                    id,
                    after,
                    issued,
                )
        },
        LookupState::Unrequested => {
            &&& outcome == Err::<AnimationFrameTexture<T>, Error>(Error::WaitingOnLoader)
            &&& exists|issued: bool| #[trigger]
                sent_with_priority(display, disk, before, item.path, id, after, issued)
        },
        _ => {
            &&& after == before.resolve(item, frame_id, time)
            &&& outcome == before.resolved(item, frame_id, time)
        },
    }
}

/// What making room for a request with priority does to the cache: while
/// as many requests are in flight as may be, results that wait are
/// consumed.
pub open spec fn made_room<T, U: Fn(&TileImage) -> Result<T, TextureCreationError>>(
    display: &Gpu<T, U>,
    before: CacheView<T>,
    after: CacheView<T>,
) -> bool {
    if before.pending.requests.len() >= MAX_PENDING_REQUESTS {
        &&& drained(before, after)
        &&& exists|done: Result<(), Error>| #[trigger]
            prefetch_processed(display, before, after, done)
    } else {
        after == before
    }
}

/// What issuing a request for the file at `path` does to the cache, and
/// whether the request is issued, where the disk is asked for the file if
/// the cache holds an entry of it that is to be compared.
pub open spec fn requested_compared<T, S: Fn(&String) -> Option<ModTime>>(
    disk: &Disk<S>,
    before: CacheView<T>,
    path: Seq<char>,
    id: u32,
    priority: bool,
    after: CacheView<T>,
    issued: bool,
) -> bool {
    exists|time: Option<ModTime>|
        {
            &&& before.compares(id) ==> disk.reported(path, time)
            &&& after == #[trigger] before.request_file(path, id, priority, time)
            &&& issued == before.issues_request(id, time)
        }
}

/// What sending a request with priority for the file at `path` does to
/// the cache, and whether the request is issued: room is made for it
/// first.
pub open spec fn sent_with_priority<
    T,
    U: Fn(&TileImage) -> Result<T, TextureCreationError>,
    S: Fn(&String) -> Option<ModTime>,
>(
    display: &Gpu<T, U>,
    disk: &Disk<S>,
    before: CacheView<T>,
    path: Seq<char>,
    id: u32,
    after: CacheView<T>,
    issued: bool,
) -> bool {
    exists|room: CacheView<T>|
        {
            &&& #[trigger] made_room(display, before, room)
            &&& requested_compared(disk, room, path, id, true, after, issued)
        }
}

/// What sending a request for the file at `path` does to the cache, and
/// whether the request is issued.
pub open spec fn sent_request<
    T,
    U: Fn(&TileImage) -> Result<T, TextureCreationError>,
    S: Fn(&String) -> Option<ModTime>,
>(
    disk: &Disk<S>,
    before: CacheView<T>,
    path: Seq<char>,
    id: u32,
    kind: RequestKind<T, U>,
    after: CacheView<T>,
    issued: bool,
) -> bool {
    match kind {
        RequestKind::Priority { display } => sent_with_priority(
            display,
            disk,
            before,
            path,
            id,
            after,
            issued,
        ),
        RequestKind::NonPriority => requested_compared(
            disk,
            before,
            path,
            id,
            false,
            after,
            issued,
        ),
    }
}

/// What wanting the file at `index` ahead of its time does to the cache,
/// and whether it issues a request. The disk is asked for the file only
/// where the cache holds an entry of it that is to be compared.
pub open spec fn prefetched_at<T, S: Fn(&String) -> Option<ModTime>>(
    disk: &Disk<S>,
    before: CacheView<T>,
    index: int,
    after: CacheView<T>,
    issued: bool,
) -> bool {
    exists|time: Option<ModTime>|
        {
            &&& before.remaining_capacity > before.curr_est_size && before.dir.image_by_index(
                index,
            ) is Some && before.compares(before.dir.image_by_index(index)->0.request_id)
                ==> disk.reported(before.dir.image_by_index(index)->0.path, time)
            &&& after == #[trigger] before.prefetch_at_index(index, time)
            &&& issued == before.prefetches(index, time)
        }
}

/// The `count` files behind the file at `start` were wanted ahead of their
/// time, one after the other, and a request was issued for each of them.
pub open spec fn prefetched_through<T, S: Fn(&String) -> Option<ModTime>>(
    disk: &Disk<S>,
    before: CacheView<T>,
    start: int,
    count: nat,
    after: CacheView<T>,
) -> bool
    decreases count,
{
    if count == 0 {
        after == before
    } else {
        exists|mid: CacheView<T>|
            {
                &&& prefetched_through(disk, before, start, (count - 1) as nat, mid)
                &&& #[trigger] prefetched_at(disk, mid, start + count, after, true)
            }
    }
}

/// What wanting the files behind the current one ahead of their time does
/// to the cache.
///
/// The files are gone through in their order. Each is wanted while more
/// of the capacity remains than an image is taken to occupy, after what
/// the images that were requested before are taken to occupy was taken
/// off. The first file for which no request is issued is the last that
/// is wanted.
pub open spec fn neighbors_prefetched<T, S: Fn(&String) -> Option<ModTime>>(
    disk: &Disk<S>,
    before: CacheView<T>,
    after: CacheView<T>,
) -> bool {
    if before.dir.curr_img_index() is Some {
        exists|count: nat, mid: CacheView<T>|
            {
                &&& #[trigger] prefetched_through(
                    disk,
                    before,
                    before.dir.curr_img_index()->0,
                    count,
                    mid,
                )
                &&& count > 0 ==> before.remaining_capacity - (count - 1) * before.curr_est_size
                    > before.curr_est_size
                &&& if before.remaining_capacity - count * before.curr_est_size
                    > before.curr_est_size {
                    prefetched_at(
                        disk,
                        mid,
                        before.dir.curr_img_index()->0 + count + 1,
                        after,
                        false,
                    )
                } else {
                    after == mid
                }
            }
    } else {
        after == before
    }
}

/// What wanting files ahead of their time can do to a cache: the
/// directory, the capacity, the frame that is current, the request to
/// serve first and the results that wait stay as they are; requests are
/// issued behind those that were issued before, each for an image that had
/// none in flight, and the requests that were in flight are as they were.
pub open spec fn prefetched<T>(before: CacheView<T>, after: CacheView<T>) -> bool {
    &&& after.wf()
    &&& after.dir == before.dir
    &&& after.current_frame_idx == before.current_frame_idx
    &&& after.total_capacity == before.total_capacity
    &&& after.curr_est_size == before.curr_est_size
    &&& after.priority == before.priority
    &&& after.pending.results == before.pending.results
    &&& before.requests.len() <= after.requests.len()
    &&& after.requests.take(before.requests.len() as int) == before.requests
    &&& forall|id: u32|
        before.pending.contains(id) ==> #[trigger] after.pending.cancelled(id)
            == before.pending.cancelled(id)
    &&& forall|k: int|
        before.requests.len() <= k < after.requests.len() ==> after.pending.live(
            (#[trigger] after.requests[k]).req_id,
        ) && !before.pending.contains(after.requests[k].req_id)
}

/// What loading the image `name` of the directory `parent` does to the
/// cache and answers; where no image is named, the current image of that
/// directory.
///
/// The directory is opened. Where a file is named that a listed directory
/// does not hold, nothing else happens. Until the directory is listed,
/// the listing is awaited. Then the cache is refreshed, and the current
/// image is asked for.
pub open spec fn loaded_specific<
    T,
    U: Fn(&TileImage) -> Result<T, TextureCreationError>,
    S: Fn(&String) -> Option<ModTime>,
>(
    display: &Gpu<T, U>,
    disk: &Disk<S>,
    before: CacheView<T>,
    parent: Seq<char>,
    name: Option<Seq<char>>,
    frame_id: Option<int>,
    after: CacheView<T>,
    outcome: Result<AnimationFrameTexture<T>, Error>,
) -> bool {
    let navigated = before.navigate(parent, name);
    if name is Some && !before.dir.can_select(parent, name->0) {
        after == before && outcome matches Err(Error::Msg(_))
    } else if navigated.dir.listing is None {
        after == navigated && outcome == Err::<AnimationFrameTexture<T>, Error>(
            Error::WaitingOnDirFilter,
        )
    } else {
        let refreshed = navigated.refresh_cache();
        match refreshed.dir.curr_descriptor() {
            Some(item) => requested_image(
                display,
                disk,
                refreshed,
                item,
                navigated.requested_frame(before.dir, frame_id),
                after,
                outcome,
            ),
            None => after == refreshed && outcome matches Err(Error::Msg(_)),
        }
    }
}

/// The frame index that is named, as a number.
pub open spec fn frame_index(frame_id: Option<isize>) -> Option<int> {
    match frame_id {
        Some(frame_id) => Some(frame_id as int),
        None => None,
    }
}

/// The file name that is named, as a sequence of characters.
pub open spec fn file_name(name: Option<&String>) -> Option<Seq<char>> {
    match name {
        Some(name) => Some(name@),
        None => None,
    }
}

/// `outcome` is `inner` with the path `path` beside the frame.
pub open spec fn with_path<T>(
    inner: Result<AnimationFrameTexture<T>, Error>,
    path: Seq<char>,
    outcome: Result<(AnimationFrameTexture<T>, String), Error>,
) -> bool {
    match inner {
        Ok(frame) => outcome matches Ok(pair) && pair.0 == frame && pair.1@ == path,
        Err(e) => outcome == Err::<(AnimationFrameTexture<T>, String), Error>(e),
    }
}

/// What a jump over `file_jump` files and `frame_jump` frames does to the
/// cache and answers.
///
/// A jump over no file asks for the current image, at the frame that lies
/// `frame_jump` behind the one that was handed out last. Any other jump
/// makes the first frame the current one and loads the file that it
/// leads to; a jump to the next or the previous file moves the directory
/// there first, whatever comes of the loading.
pub open spec fn jumped<
    T,
    U: Fn(&TileImage) -> Result<T, TextureCreationError>,
    S: Fn(&String) -> Option<ModTime>,
>(
    display: &Gpu<T, U>,
    disk: &Disk<S>,
    before: CacheView<T>,
    file_jump: int,
    frame_jump: int,
    after: CacheView<T>,
    outcome: Result<(AnimationFrameTexture<T>, String), Error>,
) -> bool {
    if file_jump == 0 {
        if before.dir.curr_descriptor() is Some {
            exists|inner: Result<AnimationFrameTexture<T>, Error>|
                {
                    &&& #[trigger] requested_image(
                        display,
                        disk,
                        before,
                        before.dir.curr_descriptor()->0,
                        before.current_frame_idx + frame_jump,
                        after,
                        inner,
                    )
                    &&& with_path(inner, before.dir.curr_descriptor()->0.path, outcome)
                }
        } else {
            after == before && outcome matches Err(Error::Msg(_))
        }
    } else if before.jump_target(file_jump) is Some {
        exists|inner: Result<AnimationFrameTexture<T>, Error>|
            {
                &&& #[trigger] loaded_specific(
                    display,
                    disk,
                    before.jump_start(file_jump),
                    before.jump_start(file_jump).dir.path,
                    Some(before.jump_target(file_jump)->0.file_name),
                    None,
                    after,
                    inner,
                )
                &&& with_path(inner, before.jump_target(file_jump)->0.path, outcome)
            }
    } else {
        after == before.jump_start(file_jump) && outcome matches Err(Error::Msg(_))
    }
}

/// What loading the image at `index` of the listing does to the cache and
/// answers. Where the listing has no such image, or is not there, the
/// listing is awaited.
pub open spec fn loaded_at_index<
    T,
    U: Fn(&TileImage) -> Result<T, TextureCreationError>,
    S: Fn(&String) -> Option<ModTime>,
>(
    display: &Gpu<T, U>,
    disk: &Disk<S>,
    before: CacheView<T>,
    index: int,
    frame_id: Option<int>,
    after: CacheView<T>,
    outcome: Result<(AnimationFrameTexture<T>, String), Error>,
) -> bool {
    if before.dir.image_by_index(index) is Some {
        exists|inner: Result<AnimationFrameTexture<T>, Error>|
            {
                &&& #[trigger] loaded_specific(
                    display,
                    disk,
                    before,
                    before.dir.path,
                    Some(before.dir.image_by_index(index)->0.file_name),
                    frame_id,
                    after,
                    inner,
                )
                &&& with_path(inner, before.dir.image_by_index(index)->0.path, outcome)
            }
    } else {
        after == before && outcome == Err::<(AnimationFrameTexture<T>, String), Error>(
            Error::WaitingOnDirFilter,
        )
    }
}

/// Wanting one file ahead of its time is wanting files ahead of their
/// time; if it issues a request, one more request is in flight.
pub proof fn lemma_prefetched_at<T, S: Fn(&String) -> Option<ModTime>>(
    disk: &Disk<S>,
    before: CacheView<T>,
    index: int,
    after: CacheView<T>,
    issued: bool,
)
    requires
        before.wf(),
        prefetched_at(disk, before, index, after, issued),
    ensures
        prefetched(before, after),
        issued ==> after.pending.requests.len() == before.pending.requests.len() + 1
            && before.pending.requests.len() < MAX_PENDING_REQUESTS && before.remaining_capacity
            > before.curr_est_size,
        !issued && (before.remaining_capacity <= before.curr_est_size || before.dir.image_by_index(
            index,
        ) is None) ==> after == before,
        issued ==> before.dir.image_by_index(index) is Some,
{
    let time = choose|time: Option<ModTime>|
        {
            &&& after == #[trigger] before.prefetch_at_index(index, time)
            &&& issued == before.prefetches(index, time)
        };
    before.lemma_prefetch_at_index_wf(index, time);
    assert(before.requests.take(before.requests.len() as int) =~= before.requests);
    if before.remaining_capacity > before.curr_est_size && before.dir.image_by_index(index) is Some {
        let item = before.dir.image_by_index(index)->0;
        let id = item.request_id;
        before.lemma_texture_index(id);
        if issued {
            before.pending.lemma_add_request(id, id);
            assert forall|other: u32| before.pending.contains(other) implies #[trigger]
                after.pending.cancelled(other) == before.pending.cancelled(other) by {
                before.pending.lemma_add_request(id, other);
            }
            assert(after.requests.take(before.requests.len() as int) =~= before.requests);
        } else {
            assert(after.requests == before.requests);
            assert(after.pending == before.pending);
        }
    }
}

/// Wanting files ahead of their time, and then again, is wanting files
/// ahead of their time.
pub proof fn lemma_prefetched_transitive<T>(a: CacheView<T>, b: CacheView<T>, c: CacheView<T>)
    requires
        prefetched(a, b),
        prefetched(b, c),
    ensures
        prefetched(a, c),
{
    assert(c.requests.take(a.requests.len() as int) =~= a.requests) by {
        assert(c.requests.take(b.requests.len() as int) == b.requests);
        assert(b.requests.take(a.requests.len() as int) == a.requests);
        assert forall|k: int| 0 <= k < a.requests.len() implies c.requests[k] == a.requests[k] by {
            assert(c.requests.take(b.requests.len() as int)[k] == b.requests[k]);
            assert(b.requests.take(a.requests.len() as int)[k] == a.requests[k]);
        }
    }
    assert forall|id: u32| a.pending.contains(id) implies #[trigger] c.pending.cancelled(id)
        == a.pending.cancelled(id) by {
        assert(b.pending.cancelled(id) == a.pending.cancelled(id));
        assert(b.pending.contains(id));
        assert(c.pending.cancelled(id) == b.pending.cancelled(id));
    }
    assert forall|k: int| a.requests.len() <= k < c.requests.len() implies c.pending.live(
        (#[trigger] c.requests[k]).req_id,
    ) && !a.pending.contains(c.requests[k].req_id) by {
        if k < b.requests.len() {
            assert(c.requests.take(b.requests.len() as int)[k] == b.requests[k]);
            let id = b.requests[k].req_id;
            assert(b.pending.live(id));
            assert(b.pending.contains(id));
            assert(c.pending.cancelled(id) == b.pending.cancelled(id));
        } else {
            let id = c.requests[k].req_id;
            assert(!b.pending.contains(id));
            if a.pending.contains(id) {
                assert(b.pending.cancelled(id) == a.pending.cancelled(id));
            }
        }
    }
}

/// Consuming a result leaves the directory, the capacity, the frame that is
/// current, the requests that were issued and the results that wait as
/// they are, and brings no request into flight.
pub proof fn lemma_consumed_surroundings<T, U: Fn(&TileImage) -> Result<T, TextureCreationError>>(
    display: &Gpu<T, U>,
    before: CacheView<T>,
    result: LoadResult,
    after: CacheView<T>,
    outcome: Result<Option<AnimationFrameTexture<T>>, Error>,
)
    requires
        before.wf(),
        consumed(display, before, result, after, outcome),
    ensures
        after.dir == before.dir,
        after.current_frame_idx == before.current_frame_idx,
        after.total_capacity == before.total_capacity,
        after.curr_est_size == before.curr_est_size,
        after.requests == before.requests,
        after.pending.results == before.pending.results,
        forall|id: u32| after.pending.contains(id) ==> before.pending.contains(id),
        outcome matches Err(e) ==> e is TextureCreationError || e is Msg || e is FailedToLoadImage,
{
    match result {
        LoadResult::Done { req_id } => {
            assert forall|id: u32| after.pending.contains(id) implies before.pending.contains(
                id,
            ) by {
                before.pending.lemma_set_finished(req_id, id);
            }
        },
        LoadResult::Failed { req_id } => {
            assert forall|id: u32| after.pending.contains(id) implies before.pending.contains(
                id,
            ) by {
                before.pending.lemma_set_finished(req_id, id);
            }
        },
        _ => {},
    }
}

} // verus!
