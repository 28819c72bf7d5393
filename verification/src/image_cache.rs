//! The image cache: which images are requested, which frames are kept, and
//! what the one who asks for an image is told.

use vstd::prelude::*;

pub mod cached_texture;
pub mod directory;
pub mod disk;
pub mod effects;
pub mod errors;
pub mod eviction;
pub mod image_loader;
pub mod laws;
pub mod lookup;
pub mod pending_requests;
pub mod state;
pub mod texture;

use self::cached_texture::anim_size_estimate;
use self::cached_texture::CachedTexture;
use self::cached_texture::lemma_anim_size_nonnegative;
use self::cached_texture::lemma_anim_size_prefix;
use self::cached_texture::lemma_textures_size_nonnegative;
use self::cached_texture::texture_ids;
use self::cached_texture::textures_view;
use self::cached_texture::TextureView;
use self::directory::Directory;
use self::directory::DirItem;
use self::disk::Disk;
use self::effects::batches_passed;
use self::effects::consumed_all;
use self::effects::consumed_until;
use self::effects::consumed;
use self::effects::drained;
use self::effects::file_name;
use self::effects::frame_index;
use self::effects::jumped;
use self::effects::lemma_consumed_surroundings;
use self::effects::lemma_prefetched_at;
use self::effects::lemma_prefetched_transitive;
use self::effects::loaded_at_index;
use self::effects::loaded_specific;
use self::effects::looked_up;
use self::effects::made_room;
use self::effects::neighbors_prefetched;
use self::effects::passed_one;
use self::effects::passed_over_until;
use self::effects::passed_over;
use self::effects::prefetch_processed;
use self::effects::prefetched_at;
use self::effects::prefetched_through;
use self::effects::prefetched;
use self::effects::requested_compared;
use self::effects::requested_image;
use self::effects::sent_request;
use self::effects::sent_with_priority;
use self::effects::with_path;
use self::errors::Error;
use self::errors::TextureCreationError;
use self::eviction::retain_closest;
use self::image_loader::LoadRequest;
use self::image_loader::LoadResult;
use self::image_loader::ModTime;
use self::image_loader::requests_view;
use self::lookup::lemma_first_index_is;
use self::pending_requests::PendingRequests;
use self::state::CacheView;
use self::state::LookupState;
use self::state::MAX_PENDING_REQUESTS;
use self::texture::AnimationFrameTexture;
use self::texture::Gpu;
use self::texture::TileImage;

verus! {

/// The estimated number of bytes that an image of this size occupies as a
/// texture: four bytes for each pixel, and half as much again for its
/// mipmaps.
pub open spec fn image_size_estimate(width: u32, height: u32) -> int {
    6 * (width as int) * (height as int)
}

/// The number of pixels of an image fits in 64 bits.
pub proof fn lemma_area_bound(width: u32, height: u32)
    ensures
        0 <= (width as int) * (height as int) <= 0xFFFF_FFFE_0000_0001,
{
    assert(0 <= (width as int) * (height as int) <= 0xFFFF_FFFF * 0xFFFF_FFFF) by (nonlinear_arith)
        requires
            0 <= width <= 0xFFFF_FFFF,
            0 <= height <= 0xFFFF_FFFF,
    ;
}

pub fn get_image_size_estimate(width: u32, height: u32) -> (estimate: isize)
    requires
        image_size_estimate(width, height) <= isize::MAX,
    ensures
        estimate == image_size_estimate(width, height),
{
    proof {
        lemma_area_bound(width, height);
    }
    let area: u64 = (width as u64) * (height as u64);
    assert(6 * (width as int) * (height as int) == 6 * area) by (nonlinear_arith)
        requires
            area == (width as int) * (height as int),
    ;
    (area * 6) as isize
}

pub fn get_anim_size_estimate<T>(frames: &[AnimationFrameTexture<T>]) -> (estimate: isize)
    requires
        anim_size_estimate(frames@) <= isize::MAX,
    ensures
        estimate == anim_size_estimate(frames@),
{
    let mut estimate: isize = 0;
    let mut i: usize = 0;
    assert(frames@.take(0) =~= Seq::empty());
    while i < frames.len()
        invariant
            i <= frames@.len(),
            anim_size_estimate(frames@) <= isize::MAX,
            estimate == anim_size_estimate(frames@.take(i as int)),
        decreases frames@.len() - i,
    {
        proof {
            assert(frames@.take(i + 1).drop_last() =~= frames@.take(i as int));
            lemma_anim_size_prefix(frames@, i + 1);
            lemma_anim_size_nonnegative(frames@.take(i as int));
        }
        estimate = estimate + get_image_size_estimate(frames[i].w, frames[i].h);
        i = i + 1;
    }
    assert(frames@.take(i as int) =~= frames@);
    estimate
}

/// Whether a request is made for the image that is shown, and is to be
/// served before all others, or for an image that may be shown later.
///
/// A request with priority makes room for itself among the requests in
/// flight by consuming results that wait, which takes the display.
#[verifier::reject_recursive_types(T)]
pub enum RequestKind<'a, T, U: Fn(&TileImage) -> Result<T, TextureCreationError>> {
    NonPriority,
    Priority { display: &'a Gpu<T, U> },
}

impl<'a, T, U: Fn(&TileImage) -> Result<T, TextureCreationError>> RequestKind<'a, T, U> {
    pub fn priority(self) -> (priority: bool)
        ensures
            priority == (self is Priority),
    {
        match self {
            RequestKind::Priority { .. } => true,
            RequestKind::NonPriority => false,
        }
    }
}

/// A store for the images of a directory.
///
/// While one image is shown, the images around it are decoded and kept as
/// textures, as far as the capacity allows. Loading an image takes these
/// steps:
///
/// - the cache issues a request, which waits in the cache until the caller
///   hands it to the decode backend;
/// - the decode backend decodes the file and sends the frames back;
/// - the caller hands what the backend has sent to the cache, which keeps
///   it until it is consumed;
/// - the cache consumes the results: it turns each frame into textures on
///   the device, and puts them into the entry of the request.
///
/// A still image is an animation of one frame.
pub struct ImageCache<T> {
    dir: Directory,
    current_frame_idx: usize,
    remaining_capacity: isize,
    total_capacity: isize,
    curr_est_size: isize,
    pending_requests: PendingRequests,
    texture_cache: Vec<CachedTexture<T>>,
    requests: Vec<LoadRequest>,
    priority_request_id: Option<u32>,
}

impl<T> View for ImageCache<T> {
    type V = CacheView<T>;

    closed spec fn view(&self) -> CacheView<T> {
        CacheView {
            dir: self.dir@,
            current_frame_idx: self.current_frame_idx as int,
            remaining_capacity: self.remaining_capacity as int,
            total_capacity: self.total_capacity as int,
            curr_est_size: self.curr_est_size as int,
            pending: self.pending_requests@,
            textures: textures_view(self.texture_cache@),
            requests: requests_view(self.requests@),
            priority: self.priority_request_id,
        }
    }
}

impl<T> ImageCache<T> {
    /// A cache that holds nothing, of a directory that is not open yet.
    ///
    /// `capacity` is a number of bytes. Images are loaded ahead of their
    /// time only while their estimated size leaves some of it.
    pub fn new(capacity: isize) -> (cache: ImageCache<T>)
        ensures
            cache@ == CacheView::<T>::new(capacity as int),
            cache@.wf(),
    {
        let cache = ImageCache {
            dir: Directory::new(),
            current_frame_idx: 0,
            remaining_capacity: capacity,
            total_capacity: capacity,
            // 1 kB: an optimistic estimate of the size of an image of
            // which nothing is known.
            curr_est_size: 1000,
            pending_requests: PendingRequests::new(),
            texture_cache: Vec::new(),
            requests: Vec::new(),
            priority_request_id: None,
        };
        proof {
            assert(cache@.textures =~= Seq::empty());
            assert(cache@.requests =~= Seq::empty());
            CacheView::<T>::lemma_new_wf(capacity as int);
        }
        cache
    }

    /// The place of the entry of request `id`, if it has one.
    fn find_texture(&self, id: u32) -> (found: Option<usize>)
        ensures
            match found {
                Some(at) => self@.has_texture(id) && at == self@.texture_index(id),
                None => !self@.has_texture(id),
            },
    {
        let ghost ids = texture_ids(self@.textures);
        let mut i: usize = 0;
        while i < self.texture_cache.len()
            invariant
                i <= self.texture_cache@.len(),
                ids == texture_ids(self@.textures),
                ids.len() == self.texture_cache@.len(),
                forall|j: int| 0 <= j < i ==> ids[j] != id,
            decreases self.texture_cache@.len() - i,
        {
            if self.texture_cache[i].req_id == id {
                proof {
                    lemma_first_index_is(ids, id, i as int);
                }
                return Some(i);
            }
            i = i + 1;
        }
        proof {
            lemma_first_index_is(ids, id, i as int);
        }
        None
    }

    /// The estimated size of a frame of `w` by `h` pixels, if the accounts
    /// of the cache can hold it.
    fn frame_size_that_fits(&self, w: u32, h: u32) -> (size: Option<isize>)
        requires
            self@.wf(),
        ensures
            match size {
                Some(s) => s == image_size_estimate(w, h) && self@.fits(s as int),
                None => !self@.fits(image_size_estimate(w, h)),
            },
    {
        proof {
            lemma_area_bound(w, h);
            lemma_textures_size_nonnegative(self@.textures);
        }
        let area: u64 = (w as u64) * (h as u64);
        let estimate: u128 = (area as u128) * 6;
        assert(estimate == image_size_estimate(w, h)) by (nonlinear_arith)
            requires
                area == (w as int) * (h as int),
                estimate == area * 6,
        ;
        if estimate > isize::MAX as u128 {
            return None;
        }
        let size: isize = estimate as isize;
        let used: i128 = self.total_capacity as i128 - self.remaining_capacity as i128;
        if (self.remaining_capacity as i128) - (size as i128) < isize::MIN as i128 {
            return None;
        }
        if used + size as i128 > isize::MAX as i128 {
            return None;
        }
        Some(size)
    }

    /// Consumes one result of the decode backend.
    ///
    /// The start of a decode makes an entry for its request, or empties the
    /// one that is there if the file has changed. A frame becomes textures
    /// on `display` and the last frame of its entry; it is returned. The
    /// end of a decode completes the entry, and a failed decode is reported
    /// as an error. What answers a request that was cancelled, or that is
    /// not in flight, is dropped.
    pub fn upload_to_texture<U: Fn(&TileImage) -> Result<T, TextureCreationError>>(
        &mut self,
        display: &Gpu<T, U>,
        load_result: LoadResult,
    ) -> (outcome: Result<Option<AnimationFrameTexture<T>>, Error>)
        requires
            old(self)@.wf(),
        ensures
            final(self)@.wf(),
            consumed(display, old(self)@, load_result, final(self)@, outcome),
    {
        let ghost before = self@;
        match load_result {
            LoadResult::Start { req_id, mod_time } => {
                proof {
                    before.lemma_start_wf(req_id, mod_time);
                    before.lemma_texture_index(req_id);
                }
                match self.pending_requests.cancelled(req_id) {
                    Some(false) => {},
                    _ => {
                        return Ok(None);
                    },
                }
                match self.find_texture(req_id) {
                    None => {
                        self.texture_cache.push(
                            CachedTexture {
                                req_id,
                                needs_update: false,
                                fully_loaded: false,
                                mod_time,
                                failed: false,
                                frames: Vec::new(),
                            },
                        );
                        assert(self@.textures =~= before.start(req_id, mod_time).textures);
                    },
                    Some(at) => {
                        let mut overwrite = true;
                        if mod_time.is_some() && self.texture_cache[at].mod_time == mod_time {
                            overwrite = false;
                        }
                        if overwrite {
                            proof {
                                self::cached_texture::lemma_textures_size_bounds(
                                    before.textures,
                                    at as int,
                                );
                            }
                            let old_size_estimate = get_anim_size_estimate(
                                self.texture_cache[at].frames.as_slice(),
                            );
                            self.remaining_capacity = self.remaining_capacity + old_size_estimate;
                            self.texture_cache[at].frames.clear();
                            self.texture_cache[at].mod_time = mod_time;
                            assert(self@.textures =~= before.start(req_id, mod_time).textures);
                        }
                    },
                }
                Ok(None)
            },
            LoadResult::Frame { req_id, image, delay_nano, orientation } => {
                proof {
                    before.lemma_texture_index(req_id);
                }
                match self.pending_requests.cancelled(req_id) {
                    Some(false) => {},
                    _ => {
                        return Ok(None);
                    },
                }
                let at = match self.find_texture(req_id) {
                    Some(at) => at,
                    None => {
                        return Ok(None);
                    },
                };
                let (w, h) = image.dimensions();
                let size_estimate = match self.frame_size_that_fits(w, h) {
                    Some(size) => size,
                    None => {
                        return Err(
                            Error::Msg("The frame is too large for the cache to account for".to_string()),
                        );
                    },
                };
                let anim_frame = match AnimationFrameTexture::from_image(
                    display,
                    image,
                    delay_nano,
                    orientation,
                ) {
                    Ok(frame) => frame,
                    Err(e) => {
                        return Err(e);
                    },
                };
                proof {
                    before.lemma_insert_frame_wf(req_id, anim_frame);
                }
                self.texture_cache[at].frames.push(anim_frame.clone());
                self.remaining_capacity = self.remaining_capacity - size_estimate;
                assert(self@.textures =~= before.insert_frame(req_id, anim_frame).textures);
                Ok(Some(anim_frame))
            },
            LoadResult::Done { req_id } => {
                self.finish(req_id, false);
                Ok(None)
            },
            LoadResult::Failed { req_id } => {
                self.finish(req_id, true);
                Err(Error::FailedToLoadImage { req_id })
            },
        }
    }

    /// The decode of request `req_id` has come to its end.
    fn finish(&mut self, req_id: u32, failed: bool)
        requires
            old(self)@.wf(),
        ensures
            final(self)@.wf(),
            final(self)@ == old(self)@.finish(req_id, failed),
    {
        let ghost before = self@;
        proof {
            before.lemma_finish_wf(req_id, failed);
            before.lemma_texture_index(req_id);
        }
        match self.find_texture(req_id) {
            Some(at) => {
                self.texture_cache[at].fully_loaded = true;
                if failed {
                    self.texture_cache[at].failed = true;
                }
            },
            None => {},
        }
        match self.priority_request_id {
            Some(id) => if id == req_id {
                self.priority_request_id = None;
            },
            None => {},
        }
        self.pending_requests.set_finished(req_id);
        assert(self@.textures =~= before.finish(req_id, failed).textures);
    }

    /// Drops the entries that are too far from the current file to fit
    /// into the capacity, closest first. Nothing is dropped while the
    /// directory has no current file.
    pub fn refresh_cache(&mut self)
        requires
            old(self)@.wf(),
        ensures
            final(self)@.wf(),
            final(self)@ == old(self)@.refresh_cache(),
    {
        proof {
            self@.lemma_refresh_cache_wf();
            lemma_textures_size_nonnegative(self@.textures);
        }
        if self.dir.curr_img_index().is_some() {
            let mut cache: Vec<CachedTexture<T>> = Vec::new();
            core::mem::swap(&mut cache, &mut self.texture_cache);
            let (kept, remaining) = retain_closest(
                cache,
                &self.dir,
                self.total_capacity,
                self.curr_est_size,
            );
            self.texture_cache = kept;
            self.remaining_capacity = remaining;
        }
    }

    /// Takes a new listing of the open directory.
    ///
    /// The file that was current stays current if the listing still holds
    /// it. Every entry of the cache is compared with its file before it is
    /// trusted again.
    pub fn update_directory(&mut self, items: Vec<DirItem>)
        requires
            old(self)@.wf(),
        ensures
            final(self)@.wf(),
            final(self)@ == old(self)@.update_directory(self::directory::items_view(items@)),
    {
        let ghost before = self@;
        proof {
            before.lemma_update_directory_wf(self::directory::items_view(items@));
        }
        self.dir.update_directory(items);
        let mut i: usize = 0;
        while i < self.texture_cache.len()
            invariant
                i <= self.texture_cache@.len(),
                self.texture_cache@.len() == before.textures.len(),
                self@ == (CacheView { textures: self@.textures, ..before.update_directory(
                    self::directory::items_view(items@),
                ) }),
                forall|k: int|
                    0 <= k < i ==> #[trigger] self@.textures[k] == before.mark_for_update().textures[k],
                forall|k: int|
                    i <= k < self.texture_cache@.len() ==> #[trigger] self@.textures[k]
                        == before.textures[k],
            decreases self.texture_cache@.len() - i,
        {
            let ghost step = self@;
            self.texture_cache[i].needs_update = true;
            assert(self@.textures =~= step.textures.update(
                i as int,
                TextureView { needs_update: true, ..step.textures[i as int] },
            ));
            i = i + 1;
        }
        assert(self@.textures =~= before.mark_for_update().textures);
    }

    /// Opens the directory at `path`. Unless it is open already, the cache
    /// is emptied and every request in flight is cancelled.
    pub fn change_directory(&mut self, path: &String)
        requires
            old(self)@.wf(),
        ensures
            final(self)@.wf(),
            final(self)@ == old(self)@.change_directory(path@),
    {
        proof {
            self@.lemma_change_directory_wf(path@, path@);
        }
        self.leave_for(path);
        self.dir.change_directory(path);
    }

    /// Opens the directory at `path` with the file `name` as the current
    /// one. Unless the directory is open already, the cache is emptied and
    /// every request in flight is cancelled.
    ///
    /// Fails, and changes nothing, where the directory is open and listed
    /// and holds no file of that name.
    pub fn change_directory_with_filename(&mut self, path: &String, name: &String) -> (done: Result<
        (),
        Error,
    >)
        requires
            old(self)@.wf(),
        ensures
            final(self)@.wf(),
            final(self)@ == old(self)@.change_directory_with_filename(path@, name@),
            done is Ok == old(self)@.dir.can_select(path@, name@),
            done is Err ==> done matches Err(Error::Msg(_)),
    {
        proof {
            self@.lemma_change_directory_wf(path@, name@);
        }
        self.leave_for(path);
        match self.dir.change_directory_with_filename(path, name) {
            Ok(()) => Ok(()),
            Err(_) => Err(Error::Msg("The directory holds no file of that name".to_string())),
        }
    }

    /// Empties the cache and cancels the requests in flight, unless the
    /// directory at `path` is the one that is open.
    fn leave_for(&mut self, path: &String)
        requires
            old(self)@.wf(),
        ensures
            final(self)@ == old(self)@.leave_for(path@),
    {
        if *self.dir.path() == *path {
            return ;
        }
        self.texture_cache.clear();
        self.remaining_capacity = self.total_capacity;
        self.pending_requests.cancel_all();
        assert(self@.textures =~= Seq::empty());
    }

    /// What a look at the cache finds of request `id`, whose file was
    /// modified at `disk` as far as the disk tells.
    pub fn lookup_state(&self, id: u32, disk: Option<ModTime>) -> (state: LookupState)
        requires
            self@.wf(),
        ensures
            state == self@.lookup_state(id, disk),
    {
        match self.find_texture(id) {
            Some(at) => {
                if self.texture_cache[at].failed {
                    LookupState::Failed
                } else if disk.is_none() || self.texture_cache[at].mod_time == disk {
                    LookupState::CachedFresh
                } else {
                    LookupState::CachedStale
                }
            },
            None => if self.pending_requests.contains(id) {
                LookupState::PendingKnown
            } else {
                LookupState::Unrequested
            },
        }
    }

    /// Drops the entry of request `id`, if it has one. Its size is free
    /// again.
    fn remove_texture(&mut self, id: u32)
        requires
            old(self)@.wf(),
        ensures
            final(self)@.wf(),
            final(self)@ == old(self)@.remove_texture(id),
    {
        let ghost before = self@;
        proof {
            before.lemma_remove_texture_wf(id);
            before.lemma_texture_index(id);
            lemma_textures_size_nonnegative(before.remove_texture(id).textures);
        }
        match self.find_texture(id) {
            Some(at) => {
                proof {
                    self::cached_texture::lemma_textures_size_bounds(before.textures, at as int);
                    self::cached_texture::lemma_textures_size_remove(before.textures, at as int);
                }
                let texture = self.texture_cache.remove(at);
                let size = get_anim_size_estimate(texture.frames.as_slice());
                self.remaining_capacity = self.remaining_capacity + size;
                assert(self@.textures =~= before.remove_texture(id).textures);
            },
            None => {},
        }
    }

    /// Issues a request for the file at `path` under the id `id`, unless
    /// there is a reason not to, and tells whether it did.
    ///
    /// No request is issued while as many are in flight as may be; nor for
    /// an image that is in the cache, unless its entry is to be compared
    /// with its file, and `disk` does not show the file to be the one that
    /// was decoded; nor while a request for `id` is in flight. An entry
    /// whose file `disk` shows to have changed is dropped. A request with
    /// priority is the one that the decode backend is to serve first.
    pub fn request_file(&mut self, path: String, id: u32, priority: bool, disk: Option<ModTime>) -> (issued:
        bool)
        requires
            old(self)@.wf(),
        ensures
            final(self)@.wf(),
            final(self)@ == old(self)@.request_file(path@, id, priority, disk),
            issued == old(self)@.issues_request(id, disk),
    {
        let ghost before = self@;
        proof {
            before.lemma_request_file_wf(path@, id, priority, disk);
            before.lemma_texture_index(id);
        }
        if self.pending_requests.len() >= MAX_PENDING_REQUESTS {
            return false;
        }
        let mut cache_entry_invalid = false;
        match self.find_texture(id) {
            Some(at) => {
                if !self.texture_cache[at].needs_update {
                    return false;
                }
                self.texture_cache[at].needs_update = false;
                assert(self@.textures =~= before.textures.update(
                    at as int,
                    TextureView { needs_update: false, ..before.texture(id) },
                ));
                match (self.texture_cache[at].mod_time, disk) {
                    (Some(existing_mod_time), Some(new_mod_time)) => {
                        if new_mod_time == existing_mod_time {
                            return false;
                        } else {
                            cache_entry_invalid = true;
                        }
                    },
                    _ => {},
                }
            },
            None => {},
        }
        let ghost compared = self@;
        if cache_entry_invalid {
            proof {
                self::cached_texture::lemma_distinct_same_ids(before.textures, compared.textures);
                self::cached_texture::lemma_textures_size_same_frames(
                    before.textures,
                    compared.textures,
                );
            }
            self.remove_texture(id);
        }
        if priority {
            self.priority_request_id = Some(id);
        }
        if self.pending_requests.contains(id) {
            return false;
        }
        let request = LoadRequest { req_id: id, path };
        self.pending_requests.add_request(request.clone());
        self.requests.push(request);
        assert(self@.requests =~= before.request_file(path@, id, priority, disk).requests);
        true
    }

    /// Resolves the current image `item` to the frame that `frame_id`
    /// stands for.
    ///
    /// The frame is handed out if the image is in the cache, the file on
    /// disk is the one that was decoded as far as `disk` tells, and the
    /// frame is there; an index beyond the frames of a complete entry is
    /// wrapped around. An image that failed to load is reported as such.
    /// In every other case the decode backend is awaited: an entry whose
    /// file has changed is dropped, and an image that is not in the cache
    /// is requested with priority.
    pub fn resolve(&mut self, item: &DirItem, frame_id: i128, disk: Option<ModTime>) -> (frame:
        Result<AnimationFrameTexture<T>, Error>)
        requires
            old(self)@.wf(),
        ensures
            final(self)@.wf(),
            final(self)@ == old(self)@.resolve(item@, frame_id as int, disk),
            frame == old(self)@.resolved(item@, frame_id as int, disk),
    {
        let ghost before = self@;
        let req_id = item.request_id;
        proof {
            before.lemma_resolve_wf(item@, frame_id as int, disk);
            before.lemma_texture_index(req_id);
        }
        match self.lookup_state(req_id, disk) {
            LookupState::Failed => Err(Error::FailedToLoadImage { req_id }),
            LookupState::CachedFresh => {
                let at = match self.find_texture(req_id) {
                    Some(at) => at,
                    None => {
                        return Err(Error::WaitingOnLoader);
                    },
                };
                let count: usize = self.texture_cache[at].frames.len();
                if count > 0 && (self.texture_cache[at].fully_loaded || (frame_id >= 0
                    && frame_id < count as i128)) {
                    let wrapped_id: usize = wrap_frame_id(frame_id, count);
                    self.current_frame_idx = wrapped_id;
                    Ok(self.texture_cache[at].frames[wrapped_id].clone())
                } else {
                    Err(Error::WaitingOnLoader)
                }
            },
            LookupState::CachedStale => {
                self.remove_texture(req_id);
                let _ = self.request_file(item.path.clone(), req_id, true, disk);
                Err(Error::WaitingOnLoader)
            },
            LookupState::PendingKnown => {
                self.priority_request_id = Some(req_id);
                Err(Error::WaitingOnLoader)
            },
            LookupState::Unrequested => {
                let _ = self.request_file(item.path.clone(), req_id, true, disk);
                Err(Error::WaitingOnLoader)
            },
        }
    }

    /// Consumes the results in their order. The first error ends the work.
    fn upload_results<U: Fn(&TileImage) -> Result<T, TextureCreationError>>(
        &mut self,
        display: &Gpu<T, U>,
        results: Vec<LoadResult>,
    ) -> (done: Result<(), Error>)
        requires
            old(self)@.wf(),
        ensures
            final(self)@.wf(),
            match done {
                Ok(()) => consumed_all(display, old(self)@, results@, final(self)@),
                Err(e) => consumed_until(display, old(self)@, results@, final(self)@, e),
            },
    {
        let ghost before = self@;
        assert(results@.take(0) =~= Seq::empty());
        for load_result in it: results
            invariant
                self@.wf(),
                before == old(self)@,
                it.seq() == results@,
                consumed_all(display, before, results@.take(it.index() as int), self@),
        {
            let ghost mid = self@;
            let ghost n = it.index() as int;
            match self.upload_to_texture(display, load_result) {
                Ok(outcome) => {
                    proof {
                        assert(results@.take(n + 1).drop_last() =~= results@.take(n));
                        assert(consumed(
                            display,
                            mid,
                            results@.take(n + 1).last(),
                            self@,
                            Ok::<Option<AnimationFrameTexture<T>>, Error>(outcome),
                        ));
                    }
                },
                Err(e) => {
                    proof {
                        assert(consumed(
                            display,
                            mid,
                            results@[n],
                            self@,
                            Err::<Option<AnimationFrameTexture<T>>, Error>(e),
                        ));
                        assert(consumed_until(display, before, results@, self@, e));
                    }
                    return Err(e);
                },
            }
        }
        assert(results@.take(results@.len() as int) =~= results@);
        Ok(())
    }

    /// Consumes results that wait, one request after the other, until one
    /// request had a result that was consumed with success.
    ///
    /// That an image failed to load is no error here: the results may be
    /// of images that were requested ahead of their time. Any other error
    /// ends the work and is returned.
    pub fn process_prefetched<U: Fn(&TileImage) -> Result<T, TextureCreationError>>(
        &mut self,
        display: &Gpu<T, U>,
    ) -> (done: Result<(), Error>)
        requires
            old(self)@.wf(),
        ensures
            prefetch_processed(display, old(self)@, final(self)@, done),
            drained(old(self)@, final(self)@),
            done matches Err(e) ==> e is TextureCreationError || e is Msg,
            old(self)@.pending.results.len() == 0 ==> done is Ok,
    {
        let ghost before = self@;
        let mut uploaded_one = false;
        let req_ids = self.pending_requests.get_all_ids();
        let mut i: usize = 0;
        proof {
            assert(req_ids@.take(0) =~= Seq::empty());
        }
        while i < req_ids.len() && !uploaded_one
            invariant
                i <= req_ids@.len(),
                before == old(self)@,
                req_ids@ == before.pending.result_ids(),
                drained(before, self@),
                before.pending.results.len() > 0 || self@ == before,
                batches_passed(display, before, req_ids@.take(i as int), self@, uploaded_one),
            decreases req_ids@.len() - i,
        {
            let id = req_ids[i];
            let ghost step = self@;
            let ghost buffered = step.pending.buffered(id);
            proof {
                step.pending.lemma_take_results(id, id);
                assert(req_ids@.take(i + 1).drop_last() =~= req_ids@.take(i as int));
            }
            match self.pending_requests.take_results(id) {
                Some(results) => {
                    let ghost taken = self@;
                    assert(taken == step.take_results(id));
                    assert(drained(before, taken));
                    assert(results@.take(0) =~= Seq::empty());
                    for result in it: results
                        invariant
                            before == old(self)@,
                            it.seq() == results@,
                            drained(before, self@),
                            before.pending.results.len() > 0,
                            taken.wf(),
                            passed_over(
                                display,
                                taken,
                                results@.take(it.index() as int),
                                self@,
                                uploaded_one,
                            ),
                            req_ids@ == before.pending.result_ids(),
                            i < req_ids@.len(),
                            id == req_ids@[i as int],
                            results@ == buffered,
                            taken == step.take_results(id),
                            buffered == step.pending.buffered(id),
                            batches_passed(display, before, req_ids@.take(i as int), step, false),
                    {
                        let ghost mid = self@;
                        let ghost n = it.index() as int;
                        let ghost uploaded_before = uploaded_one;
                        proof {
                            assert(results@.take(n + 1).drop_last() =~= results@.take(n));
                        }
                        match self.upload_to_texture(display, result) {
                            Ok(outcome) => {
                                uploaded_one = true;
                                proof {
                                    let ghost whole = Ok::<Option<AnimationFrameTexture<T>>, Error>(
                                        outcome,
                                    );
                                    lemma_consumed_surroundings(
                                        display,
                                        mid,
                                        results@[n],
                                        self@,
                                        whole,
                                    );
                                    assert(passed_one(
                                        display,
                                        mid,
                                        uploaded_before,
                                        results@.take(n + 1).last(),
                                        self@,
                                        uploaded_one,
                                        whole,
                                    ));
                                    assert(passed_over(
                                        display,
                                        taken,
                                        results@.take(n + 1).drop_last(),
                                        mid,
                                        uploaded_before,
                                    ));
                                    assert(passed_over(
                                        display,
                                        taken,
                                        results@.take(n + 1),
                                        self@,
                                        uploaded_one,
                                    ));
                                }
                            },
                            // That the image failed to load may be
                            // passed over: it was only wanted ahead of
                            // its time.
                            Err(Error::FailedToLoadImage { req_id }) => {
                                proof {
                                    let ghost whole = Err::<Option<AnimationFrameTexture<T>>, Error>(
                                        Error::FailedToLoadImage { req_id },
                                    );
                                    lemma_consumed_surroundings(
                                        display,
                                        mid,
                                        results@[n],
                                        self@,
                                        whole,
                                    );
                                    assert(passed_one(
                                        display,
                                        mid,
                                        uploaded_before,
                                        results@.take(n + 1).last(),
                                        self@,
                                        uploaded_one,
                                        whole,
                                    ));
                                    assert(passed_over(
                                        display,
                                        taken,
                                        results@.take(n + 1).drop_last(),
                                        mid,
                                        uploaded_before,
                                    ));
                                    assert(passed_over(
                                        display,
                                        taken,
                                        results@.take(n + 1),
                                        self@,
                                        uploaded_one,
                                    ));
                                }
                            },
                            Err(e) => {
                                proof {
                                    lemma_consumed_surroundings(
                                        display,
                                        mid,
                                        results@[n],
                                        self@,
                                        Err::<Option<AnimationFrameTexture<T>>, Error>(e),
                                    );
                                    assert(passed_over_until(display, taken, results@, self@, e));
                                    assert(prefetch_processed(
                                        display,
                                        before,
                                        self@,
                                        Err::<(), Error>(e),
                                    ));
                                }
                                return Err(e);
                            },
                        }
                    }
                    proof {
                        assert(results@.take(results@.len() as int) =~= results@);
                    }
                },
                None => {
                    assert(self@ == step.take_results(id));
                    assert(passed_over(display, step.take_results(id), buffered, self@, false));
                },
            }
            proof {
                let done = req_ids@.take(i + 1);
                assert(done.last() == id);
                assert(batches_passed(display, before, done.drop_last(), step, false));
                assert(passed_over(
                    display,
                    step.take_results(done.last()),
                    step.pending.buffered(done.last()),
                    self@,
                    uploaded_one,
                ));
            }
            i = i + 1;
        }
        Ok(())
    }

    /// The current file of the directory.
    fn curr_dir_item(&self) -> (item: Result<DirItem, Error>)
        requires
            self@.wf(),
        ensures
            match item {
                Ok(i) => self@.dir.curr_descriptor() == Some(i@),
                Err(e) => self@.dir.curr_descriptor() is None && e is Msg,
            },
    {
        match self.dir.curr_descriptor() {
            Some(desc) => Ok(desc.clone()),
            None => Err(Error::Msg("Could not get the current file descriptor".to_string())),
        }
    }

    /// Whether a request for `id` has the entry of `id` compared with its
    /// file.
    fn compares(&self, id: u32) -> (compares: bool)
        requires
            self@.wf(),
        ensures
            compares == self@.compares(id),
    {
        if self.pending_requests.len() >= MAX_PENDING_REQUESTS {
            return false;
        }
        match self.find_texture(id) {
            Some(at) => self.texture_cache[at].needs_update && self.texture_cache[at].mod_time.is_some(),
            None => false,
        }
    }

    /// Issues a request for the file at `path`, as `request_file` does,
    /// after asking the disk for the file where an entry is to be
    /// compared with it.
    fn request_compared<S: Fn(&String) -> Option<ModTime>>(
        &mut self,
        disk: &Disk<S>,
        path: String,
        id: u32,
        priority: bool,
    ) -> (issued: bool)
        requires
            old(self)@.wf(),
        ensures
            final(self)@.wf(),
            requested_compared(disk, old(self)@, path@, id, priority, final(self)@, issued),
    {
        let ghost before = self@;
        let modified = if self.compares(id) {
            disk.modified(&path)
        } else {
            None
        };
        let ghost path_view = path@;
        let issued = self.request_file(path, id, priority, modified);
        assert(self@ == before.request_file(path_view, id, priority, modified));
        issued
    }

    /// Checks whether the image that the directory is at is available, and
    /// requests it if it is neither available nor on its way.
    ///
    /// Negative frame indices are allowed, and so are indices beyond the
    /// last frame: the function is often called while the frames of an
    /// animation still arrive, and wraps the index around once they are
    /// all there.
    pub fn try_getting_requested_image<
        U: Fn(&TileImage) -> Result<T, TextureCreationError>,
        S: Fn(&String) -> Option<ModTime>,
    >(&mut self, display: &Gpu<T, U>, disk: &Disk<S>, frame_id: i128) -> (frame: Result<
        AnimationFrameTexture<T>,
        Error,
    >)
        requires
            old(self)@.wf(),
        ensures
            final(self)@.wf(),
            match old(self)@.dir.curr_descriptor() {
                Some(item) => requested_image(
                    display,
                    disk,
                    old(self)@,
                    item,
                    frame_id as int,
                    final(self)@,
                    frame,
                ),
                None => final(self)@ == old(self)@ && frame matches Err(Error::Msg(_)),
            },
    {
        let ghost before = self@;
        let item = match self.curr_dir_item() {
            Ok(item) => item,
            Err(e) => {
                return Err(e);
            },
        };
        let req_id = item.request_id;
        let ghost taken = before.take_results(req_id);
        let ghost results = before.pending.buffered(req_id);
        proof {
            before.pending.lemma_take_results(req_id, req_id);
        }
        // What has arrived for the image is consumed first.
        match self.pending_requests.take_results(req_id) {
            Some(results) => {
                assert(self@ == taken);
                match self.upload_results(display, results) {
                    Ok(()) => {},
                    Err(e) => {
                        return Err(e);
                    },
                }
            },
            None => {
                assert(self@ == taken);
            },
        }
        let ghost mid = self@;
        let modified = disk.modified(&item.path);
        let state = self.lookup_state(req_id, modified);
        let frame = if state == LookupState::CachedStale || state == LookupState::Unrequested {
            if state == LookupState::CachedStale {
                self.remove_texture(req_id);
            }
            let ghost cleared = self@;
            let issued = self.send_request_for_file(
                disk,
                item.path.clone(),
                req_id,
                RequestKind::Priority { display },
            );
            assert(sent_with_priority(display, disk, cleared, item@.path, req_id, self@, issued));
            // The image is not there: the caller has to wait for the
            // decode backend.
            Err(Error::WaitingOnLoader)
        } else {
            self.resolve(&item, frame_id, modified)
        };
        proof {
            assert(looked_up(display, disk, mid, item@, frame_id as int, modified, self@, frame));
        }
        frame
    }

    /// Sends a request for the file at `file_path` under the id `req_id`,
    /// unless there is a reason not to, and tells whether it did.
    ///
    /// A request with priority first consumes results that wait, if as
    /// many requests are in flight as may be. Then the request is issued
    /// as `request_file` says; the disk is asked for the file where an
    /// entry is to be compared with it.
    pub fn send_request_for_file<
        U: Fn(&TileImage) -> Result<T, TextureCreationError>,
        S: Fn(&String) -> Option<ModTime>,
    >(&mut self, disk: &Disk<S>, file_path: String, req_id: u32, kind: RequestKind<T, U>) -> (issued:
        bool)
        requires
            old(self)@.wf(),
        ensures
            final(self)@.wf(),
            sent_request(disk, old(self)@, file_path@, req_id, kind, final(self)@, issued),
    {
        let ghost before = self@;
        if let RequestKind::Priority { display } = &kind {
            if self.pending_requests.len() >= MAX_PENDING_REQUESTS {
                // An error here is of an image that was wanted ahead of
                // its time, and not of the one that is wanted now.
                let drained = self.process_prefetched(*display);
                assert(prefetch_processed(*display, before, self@, drained));
            }
            assert(made_room(*display, before, self@));
        }
        let priority = kind.priority();
        self.request_compared(disk, file_path, req_id, priority)
    }

    /// Requests the file at `index` ahead of its time, if more of the
    /// capacity remains than an image is taken to occupy, and tells
    /// whether a request was issued.
    pub fn prefetch_at_index<S: Fn(&String) -> Option<ModTime>>(
        &mut self,
        disk: &Disk<S>,
        index: usize,
    ) -> (issued: bool)
        requires
            old(self)@.wf(),
        ensures
            final(self)@.wf(),
            prefetched_at(disk, old(self)@, index as int, final(self)@, issued),
    {
        let ghost before = self@;
        if self.remaining_capacity > self.curr_est_size {
            let params = match self.dir.image_by_index(index) {
                Some(desc) => Some((desc.path.clone(), desc.request_id)),
                None => None,
            };
            match params {
                Some((path, req_id)) => {
                    let ghost path_view = path@;
                    let issued = self.request_compared(disk, path, req_id, false);
                    proof {
                        let time = choose|time: Option<ModTime>|
                            {
                                &&& before.compares(req_id) ==> disk.reported(path_view, time)
                                &&& self@ == #[trigger] before.request_file(
                                    path_view,
                                    req_id,
                                    false,
                                    time,
                                )
                                &&& issued == before.issues_request(req_id, time)
                            };
                        assert(self@ == before.prefetch_at_index(index as int, time));
                    }
                    return issued;
                },
                None => {
                    assert(self@ == before.prefetch_at_index(index as int, None));
                    return false;
                },
            }
        }
        assert(self@ == before.prefetch_at_index(index as int, None));
        false
    }

    /// Requests the files behind the current one ahead of their time, one
    /// after the other, as long as the capacity that remains is more than
    /// the images are taken to occupy together, and until a file cannot be
    /// requested.
    pub fn prefetch_neighbors<S: Fn(&String) -> Option<ModTime>>(&mut self, disk: &Disk<S>)
        requires
            old(self)@.wf(),
        ensures
            neighbors_prefetched(disk, old(self)@, final(self)@),
            prefetched(old(self)@, final(self)@),
    {
        let ghost before = self@;
        proof {
            assert(before.requests.take(before.requests.len() as int) =~= before.requests);
        }
        match self.dir.curr_img_index() {
            Some(current) => {
                let mut index: usize = current;
                let count: usize = match self.dir.image_count() {
                    Some(count) => count,
                    None => 0,
                };
                // Enough requests are sent for the estimated total to
                // just fill the cache.
                let mut estimated_remaining_cap = self.remaining_capacity;
                let mut more = true;
                let ghost issued_so_far: nat = 0;
                let ghost last_issued = self@;
                while more && estimated_remaining_cap > self.curr_est_size
                    invariant
                        before == old(self)@,
                        before.wf(),
                        before.dir.curr_img_index() == Some(current as int),
                        self.curr_est_size == before.curr_est_size,
                        prefetched(before, self@),
                        before.dir.image_count() == Some(count as int),
                        more ==> self@.dir.image_by_index(index as int) is Some,
                        index == current + issued_so_far + if more { 0int } else { 1int },
                        estimated_remaining_cap == before.remaining_capacity - issued_so_far
                            * before.curr_est_size,
                        issued_so_far > 0 ==> before.remaining_capacity - (issued_so_far - 1)
                            * before.curr_est_size > before.curr_est_size,
                        prefetched_through(
                            disk,
                            before,
                            current as int,
                            issued_so_far,
                            last_issued,
                        ),
                        more ==> self@ == last_issued,
                        !more ==> estimated_remaining_cap > before.curr_est_size && prefetched_at(
                            disk,
                            last_issued,
                            current + issued_so_far + 1,
                            self@,
                            false,
                        ),
                    decreases
                            if more {
                                MAX_PENDING_REQUESTS - self@.pending.requests.len() + 1
                            } else {
                                0
                            },
                {
                    let ghost step = self@;
                    // The closest file that is not in the cache, or is
                    // out of date there, is requested.
                    index = index + 1;
                    let issued = self.prefetch_at_index(disk, index);
                    proof {
                        lemma_prefetched_at(disk, step, index as int, self@, issued);
                        lemma_prefetched_transitive(before, step, self@);
                    }
                    if issued {
                        proof {
                            assert((issued_so_far + 1) * before.curr_est_size == issued_so_far
                                * before.curr_est_size + before.curr_est_size)
                                by (nonlinear_arith);
                            assert(prefetched_through(
                                disk,
                                before,
                                current as int,
                                (issued_so_far + 1 - 1) as nat,
                                step,
                            ));
                            assert(prefetched_at(
                                disk,
                                step,
                                current + (issued_so_far + 1),
                                self@,
                                true,
                            ));
                            issued_so_far = issued_so_far + 1;
                            last_issued = self@;
                        }
                        estimated_remaining_cap = estimated_remaining_cap - self.curr_est_size;
                    } else {
                        more = false;
                    }
                }
                proof {
                    assert(prefetched_through(
                        disk,
                        before,
                        before.dir.curr_img_index()->0,
                        issued_so_far,
                        last_issued,
                    ));
                }
            },
            None => {},
        }
    }

    /// Takes what the decode backend has sent. The results wait, each with
    /// those of its request, until they are consumed.
    pub fn receive_prefetched(&mut self, results: Vec<LoadResult>)
        requires
            old(self)@.wf(),
        ensures
            final(self)@.wf(),
            final(self)@ == old(self)@.receive(results@),
    {
        let ghost before = self@;
        assert(results@.take(0) =~= Seq::empty());
        for load_result in it: results
            invariant
                self@.wf(),
                it.seq() == results@,
                self@ == before.receive(results@.take(it.index() as int)),
        {
            proof {
                let n = it.index() as int;
                assert(results@.take(n + 1).drop_last() =~= results@.take(n));
                self@.pending.lemma_add_load_result(load_result, 0);
            }
            self.pending_requests.add_load_result(load_result);
        }
        assert(results@.take(results@.len() as int) =~= results@);
    }

    /// Hands out the requests that were issued since the last call, in the
    /// order in which they were issued. They are for the decode backend.
    pub fn take_requests(&mut self) -> (requests: Vec<LoadRequest>)
        requires
            old(self)@.wf(),
        ensures
            final(self)@.wf(),
            final(self)@ == (CacheView { requests: Seq::empty(), ..old(self)@ }),
            requests_view(requests@) == old(self)@.requests,
    {
        let mut requests: Vec<LoadRequest> = Vec::new();
        core::mem::swap(&mut requests, &mut self.requests);
        assert(self@.requests =~= Seq::empty());
        requests
    }

    /// The request that the decode backend is to serve before all others:
    /// that of the image that is waited for.
    pub fn priority_request(&self) -> (id: Option<u32>)
        ensures
            id == self@.priority,
    {
        self.priority_request_id
    }

    /// Whether the request `id` was cancelled; `None` for a request that is
    /// not in flight.
    pub fn cancelled(&self, id: u32) -> (state: Option<bool>)
        requires
            self@.wf(),
        ensures
            state == self@.pending.cancelled(id),
    {
        self.pending_requests.cancelled(id)
    }

    /// How much of the capacity the entries of the cache leave.
    pub fn remaining_capacity(&self) -> (remaining: isize)
        ensures
            remaining == self@.remaining_capacity,
    {
        self.remaining_capacity
    }

    /// The number of images in the cache.
    pub fn cached_count(&self) -> (count: usize)
        ensures
            count == self@.textures.len(),
    {
        self.texture_cache.len()
    }

    /// Whether the cache has an entry for the request `id`.
    pub fn is_cached(&self, id: u32) -> (cached: bool)
        ensures
            cached == self@.has_texture(id),
    {
        self.find_texture(id).is_some()
    }

    /// The directory that is open.
    pub fn directory_path(&self) -> (path: &String)
        ensures
            path@ == self@.dir.path,
    {
        self.dir.path()
    }

    /// Whether the open directory was listed. Until it is, its listing is
    /// to be handed to `update_directory`.
    pub fn is_listed(&self) -> (listed: bool)
        ensures
            listed == (self@.dir.listing is Some),
    {
        self.dir.image_count().is_some()
    }

    pub fn current_filename(&self) -> (name: Option<String>)
        requires
            self@.wf(),
        ensures
            match name {
                Some(n) => self@.dir.curr_descriptor() is Some && n@
                    == self@.dir.curr_descriptor()->0.file_name,
                None => self@.dir.curr_descriptor() is None,
            },
    {
        self.dir.curr_filename()
    }

    pub fn current_file_path(&self) -> (path: Option<String>)
        requires
            self@.wf(),
        ensures
            match path {
                Some(p) => self@.dir.curr_descriptor() is Some && p@
                    == self@.dir.curr_descriptor()->0.path,
                None => self@.dir.curr_descriptor() is None,
            },
    {
        match self.dir.curr_descriptor() {
            Some(item) => Some(item.path.clone()),
            None => None,
        }
    }

    /// `None` until the directory was listed.
    pub fn current_file_index(&self) -> (index: Option<usize>)
        requires
            self@.wf(),
        ensures
            match index {
                Some(i) => self@.dir.curr_img_index() == Some(i as int),
                None => self@.dir.curr_img_index() is None,
            },
    {
        self.dir.curr_img_index()
    }

    /// `None` until the directory was listed.
    pub fn current_dir_len(&self) -> (count: Option<usize>)
        ensures
            match count {
                Some(n) => self@.dir.image_count() == Some(n as int),
                None => self@.dir.image_count() is None,
            },
    {
        self.dir.image_count()
    }

    /// True if and only if the current image is in the cache with all its
    /// frames, and has a single frame.
    pub fn loaded_still_image(&self) -> (still: bool)
        requires
            self@.wf(),
        ensures
            still == (self@.dir.curr_descriptor() matches Some(item) && self@.has_texture(
                item.request_id,
            ) && self@.texture(item.request_id).fully_loaded && self@.texture(
                item.request_id,
            ).frames.len() == 1),
    {
        match self.dir.curr_descriptor() {
            Some(desc) => match self.find_texture(desc.request_id) {
                Some(at) => self.texture_cache[at].fully_loaded && self.texture_cache[at].frames.len()
                    == 1,
                None => false,
            },
            None => false,
        }
    }

    /// Loads the image at `index` of the listing. Beside the frame, the
    /// path of the image is returned.
    pub fn load_at_index<
        U: Fn(&TileImage) -> Result<T, TextureCreationError>,
        S: Fn(&String) -> Option<ModTime>,
    >(&mut self, display: &Gpu<T, U>, disk: &Disk<S>, index: usize, frame_id: Option<isize>) -> (loaded:
        Result<(AnimationFrameTexture<T>, String), Error>)
        requires
            old(self)@.wf(),
        ensures
            final(self)@.wf(),
            loaded_at_index(
                display,
                disk,
                old(self)@,
                index as int,
                frame_index(frame_id),
                final(self)@,
                loaded,
            ),
    {
        let item = match self.dir.image_by_index(index) {
            Some(item) => item.clone(),
            None => {
                return Err(Error::WaitingOnDirFilter);
            },
        };
        let parent = self.dir.path().clone();
        let inner = self.load_specific(display, disk, &parent, Some(&item.file_name), frame_id);
        let ghost found = inner;
        let loaded = match inner {
            Ok(frame) => Ok((frame, item.path)),
            Err(e) => Err(e),
        };
        proof {
            assert(old(self)@.dir.image_by_index(index as int) == Some(item@));
            assert(with_path(found, item@.path, loaded));
            assert(loaded_specific(
                display,
                disk,
                old(self)@,
                old(self)@.dir.path,
                Some(old(self)@.dir.image_by_index(index as int)->0.file_name),
                frame_index(frame_id),
                self@,
                found,
            ) && with_path(found, old(self)@.dir.image_by_index(index as int)->0.path, loaded));
        }
        loaded
    }

    /// Loads the image `target_file_name` of the directory `parent`; where
    /// no image is named, the current image of that directory.
    ///
    /// Answers `WaitingOnDirFilter` until the directory was listed, and
    /// `WaitingOnLoader` until the decode backend has sent the frame that
    /// is asked for. Where no frame is named, the frame that was handed
    /// out last is asked for if the image is the one that was current
    /// before, else the first frame.
    pub fn load_specific<
        U: Fn(&TileImage) -> Result<T, TextureCreationError>,
        S: Fn(&String) -> Option<ModTime>,
    >(
        &mut self,
        display: &Gpu<T, U>,
        disk: &Disk<S>,
        parent: &String,
        target_file_name: Option<&String>,
        frame_id: Option<isize>,
    ) -> (frame: Result<AnimationFrameTexture<T>, Error>)
        requires
            old(self)@.wf(),
        ensures
            final(self)@.wf(),
            loaded_specific(
                display,
                disk,
                old(self)@,
                parent@,
                file_name(target_file_name),
                frame_index(frame_id),
                final(self)@,
                frame,
            ),
    {
        let ghost before = self@;
        let prev_img_index = self.dir.curr_img_index();
        match target_file_name {
            Some(target_file_name) => {
                match self.change_directory_with_filename(parent, target_file_name) {
                    Ok(()) => {},
                    Err(e) => {
                        assert(self@ == before) by {
                            assert(self@.textures =~= before.textures);
                        }
                        return Err(e);
                    },
                }
            },
            None => {
                self.change_directory(parent);
                self.current_frame_idx = 0;
            },
        }
        if !self.is_listed() {
            return Err(Error::WaitingOnDirFilter);
        }
        let requested_frame_id: i128 = match frame_id {
            Some(frame_id) => frame_id as i128,
            None => {
                let mut retval: i128 = 0;
                match (prev_img_index, self.dir.curr_img_index()) {
                    (Some(prev_img_index), Some(curr_img_index)) => {
                        if curr_img_index == prev_img_index {
                            retval = self.current_frame_idx as i128;
                        }
                    },
                    _ => {},
                }
                retval
            },
        };
        self.refresh_cache();
        self.try_getting_requested_image(display, disk, requested_frame_id)
    }

    pub fn load_next<
        U: Fn(&TileImage) -> Result<T, TextureCreationError>,
        S: Fn(&String) -> Option<ModTime>,
    >(&mut self, display: &Gpu<T, U>, disk: &Disk<S>) -> (loaded: Result<
        (AnimationFrameTexture<T>, String),
        Error,
    >)
        requires
            old(self)@.wf(),
        ensures
            final(self)@.wf(),
            jumped(display, disk, old(self)@, 1, 0, final(self)@, loaded),
    {
        self.load_jump(display, disk, 1, 0)
    }

    pub fn load_prev<
        U: Fn(&TileImage) -> Result<T, TextureCreationError>,
        S: Fn(&String) -> Option<ModTime>,
    >(&mut self, display: &Gpu<T, U>, disk: &Disk<S>) -> (loaded: Result<
        (AnimationFrameTexture<T>, String),
        Error,
    >)
        requires
            old(self)@.wf(),
        ensures
            final(self)@.wf(),
            jumped(display, disk, old(self)@, -1, 0, final(self)@, loaded),
    {
        self.load_jump(display, disk, -1, 0)
    }

    /// Jumps over `file_jump_count` files, forwards or backwards and around
    /// the ends of the listing, and loads the file that the jump leads to;
    /// or, where it is 0, jumps over `frame_jump_count` frames of the
    /// current image. Beside the frame, the path of the image is returned.
    pub fn load_jump<
        U: Fn(&TileImage) -> Result<T, TextureCreationError>,
        S: Fn(&String) -> Option<ModTime>,
    >(
        &mut self,
        display: &Gpu<T, U>,
        disk: &Disk<S>,
        file_jump_count: i32,
        frame_jump_count: isize,
    ) -> (loaded: Result<(AnimationFrameTexture<T>, String), Error>)
        requires
            old(self)@.wf(),
        ensures
            final(self)@.wf(),
            jumped(
                display,
                disk,
                old(self)@,
                file_jump_count as int,
                frame_jump_count as int,
                final(self)@,
                loaded,
            ),
    {
        let ghost before = self@;
        if file_jump_count == 0 {
            // The current image may have been requested and not be
            // loaded yet.
            let target_frame: i128 = self.current_frame_idx as i128 + frame_jump_count as i128;
            let path = match self.current_file_path() {
                Some(path) => path,
                None => {
                    return Err(Error::Msg("No file is open".to_string()));
                },
            };
            let requested = self.try_getting_requested_image(display, disk, target_frame);
            let ghost found = requested;
            let loaded = match requested {
                Ok(frame) => Ok((frame, path)),
                Err(e) => Err(e),
            };
            proof {
                assert(requested_image(
                    display,
                    disk,
                    before,
                    before.dir.curr_descriptor()->0,
                    before.current_frame_idx + frame_jump_count,
                    self@,
                    found,
                ) && with_path(found, before.dir.curr_descriptor()->0.path, loaded));
            }
            return loaded;
        }
        self.current_frame_idx = 0;
        let target: DirItem = if file_jump_count == 1 || file_jump_count == -1 {
            proof {
                self@.dir.lemma_jump_wf();
            }
            if file_jump_count > 0 {
                self.dir.jump_to_next();
            } else {
                self.dir.jump_to_prev();
            }
            match self.dir.curr_descriptor() {
                Some(item) => item.clone(),
                None => {
                    return Err(Error::Msg(
                        "Folder is empty, no folder was open, or folder hasn't finished filtering when trying to jump to an image.".to_string(),
                    ));
                },
            }
        } else {
            match (self.dir.curr_img_index(), self.dir.image_count()) {
                (Some(curr_index), Some(img_count)) => {
                    // The least non-negative remainder.
                    let target_index: usize = wrap_frame_id(
                        curr_index as i128 + file_jump_count as i128,
                        img_count,
                    );
                    match self.dir.image_by_index(target_index) {
                        Some(item) => item.clone(),
                        None => {
                            return Err(Error::Msg("The folder has no such image.".to_string()));
                        },
                    }
                },
                _ => {
                    return Err(
                        Error::Msg(
                            "Folder is empty, no folder was open, or folder hasn't finished filtering when trying to jump to an image by index.".to_string(),
                        ),
                    );
                },
            }
        };
        let ghost moved = self@;
        assert(moved == before.jump_start(file_jump_count as int));
        let parent = self.dir.path().clone();
        let inner = self.load_specific(display, disk, &parent, Some(&target.file_name), None);
        let ghost found = inner;
        let loaded = match inner {
            Ok(frame) => Ok((frame, target.path)),
            Err(e) => Err(e),
        };
        proof {
            assert(before.jump_target(file_jump_count as int) == Some(target@));
            assert(loaded_specific(
                display,
                disk,
                before.jump_start(file_jump_count as int),
                before.jump_start(file_jump_count as int).dir.path,
                Some(before.jump_target(file_jump_count as int)->0.file_name),
                None,
                self@,
                found,
            ) && with_path(found, before.jump_target(file_jump_count as int)->0.path, loaded));
        }
        loaded
    }
}

/// The frame that `frame_id` stands for in an animation of `count` frames
/// that is played in a loop: the least non-negative remainder.
pub fn wrap_frame_id(frame_id: i128, count: usize) -> (wrapped: usize)
    requires
        count > 0,
    ensures
        wrapped == self::state::wrap_frame(frame_id as int, count as int),
        wrapped < count,
{
    proof {
        vstd::arithmetic::div_mod::lemma_mod_bound(frame_id as int, count as int);
    }
    match frame_id.checked_rem_euclid(count as i128) {
        Some(wrapped) => wrapped as usize,
        None => 0,
    }
}

} // verus!
