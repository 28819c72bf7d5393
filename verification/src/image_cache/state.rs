//! The mathematical content of the cache, and what each step of the
//! cache does to it.

use vstd::prelude::*;

use super::cached_texture::distinct_ids;
use super::cached_texture::lemma_anim_size_push;
use super::cached_texture::lemma_distinct_push;
use super::cached_texture::lemma_distinct_remove;
use super::cached_texture::lemma_distinct_same_ids;
use super::cached_texture::lemma_image_size_nonnegative;
use super::cached_texture::lemma_textures_size_bounds;
use super::cached_texture::lemma_textures_size_nonnegative;
use super::cached_texture::lemma_textures_size_push;
use super::cached_texture::lemma_textures_size_remove;
use super::cached_texture::lemma_textures_size_same_frames;
use super::cached_texture::lemma_textures_size_update;
use super::cached_texture::texture_ids;
use super::cached_texture::textures_size;
use super::cached_texture::TextureView;
use super::directory::DirectoryView;
use super::directory::DirItemView;
use super::errors::Error;
use super::eviction::lemma_retained_entries;
use super::eviction::retained;
use super::image_loader::LoadResult;
use super::image_loader::ModTime;
use super::image_loader::RequestView;
use super::image_size_estimate;
use super::lookup::first_index;
use super::lookup::lemma_first_index_is;
use super::lookup::lemma_first_index;
use super::pending_requests::PendingView;
use super::texture::AnimationFrameTexture;

verus! {

/// No more requests than this are in flight at a time.
pub const MAX_PENDING_REQUESTS: usize = 5;

/// What a look at the cache finds of the image of one request.
#[derive(Debug, Clone, Copy, PartialEq, Eq, Structural)]
pub enum LookupState {
    /// The image is in the cache, and the file on disk is the one that was
    /// decoded.
    CachedFresh,
    /// The image is in the cache, and the file on disk has changed since.
    CachedStale,
    /// The image is not in the cache, and a request for it is in flight.
    PendingKnown,
    /// The image is not in the cache, and nothing is in flight for it.
    Unrequested,
    /// The image could not be decoded.
    Failed,
}

/// The mathematical content of an image cache.
pub struct CacheView<T> {
    pub dir: DirectoryView,
    /// The frame of the current image that was handed out last.
    pub current_frame_idx: int,
    pub remaining_capacity: int,
    pub total_capacity: int,
    /// What an image is taken to occupy before anything is known of it.
    pub curr_est_size: int,
    pub pending: PendingView,
    pub textures: Seq<TextureView<T>>,
    /// The requests that were issued and not yet handed to the decode
    /// backend, in the order in which they were issued.
    pub requests: Seq<RequestView>,
    /// The request that the decode backend is to serve before all others.
    pub priority: Option<u32>,
}

/// The least non-negative remainder of `frame_id` by `count`: the frame
/// that a frame index stands for in an animation of `count` frames that is
/// played in a loop.
pub open spec fn wrap_frame(frame_id: int, count: int) -> int {
    frame_id % count
}

impl<T> CacheView<T> {
    /// What holds of every cache: no request has two entries, and what
    /// remains of the capacity is what the entries leave of it.
    pub open spec fn wf(self) -> bool {
        &&& self.dir.wf()
        &&& self.pending.wf()
        &&& self.pending.requests.len() <= MAX_PENDING_REQUESTS
        &&& distinct_ids(self.textures)
        &&& self.remaining_capacity == self.total_capacity - textures_size(self.textures)
        &&& textures_size(self.textures) <= isize::MAX
        &&& isize::MIN <= self.remaining_capacity <= isize::MAX
        &&& isize::MIN <= self.total_capacity <= isize::MAX
        &&& 0 <= self.curr_est_size <= isize::MAX
        &&& 0 <= self.current_frame_idx
    }

    pub open spec fn new(capacity: int) -> CacheView<T> {
        CacheView {
            dir: DirectoryView::closed(),
            current_frame_idx: 0,
            remaining_capacity: capacity,
            total_capacity: capacity,
            curr_est_size: 1000,
            pending: PendingView::empty(),
            textures: Seq::empty(),
            requests: Seq::empty(),
            priority: None,
        }
    }

    /// The place of the entry of request `id`; the number of entries where
    /// there is none.
    pub open spec fn texture_index(self, id: u32) -> int {
        first_index(texture_ids(self.textures), id)
    }

    pub open spec fn has_texture(self, id: u32) -> bool {
        self.texture_index(id) < self.textures.len()
    }

    pub open spec fn texture(self, id: u32) -> TextureView<T> {
        self.textures[self.texture_index(id)]
    }

    /// The cache without the entry of request `id`, whose size is free
    /// again.
    pub open spec fn remove_texture(self, id: u32) -> CacheView<T> {
        if self.has_texture(id) {
            CacheView {
                textures: self.textures.remove(self.texture_index(id)),
                remaining_capacity: self.remaining_capacity + self.texture(id).size(),
                ..self
            }
        } else {
            self
        }
    }

    /// The decode of request `id` begins, of a file that was modified at
    /// `mod_time`.
    ///
    /// Nothing happens unless the request is in flight and not cancelled.
    /// A request without an entry gets an empty one. An entry that holds
    /// the file as it was modified at `mod_time` is kept; any other entry
    /// loses its frames and takes the new time.
    pub open spec fn start(self, id: u32, mod_time: Option<ModTime>) -> CacheView<T> {
        if !self.pending.live(id) {
            self
        } else if !self.has_texture(id) {
            CacheView { textures: self.textures.push(TextureView::started(id, mod_time)), ..self }
        } else if mod_time is Some && self.texture(id).mod_time == mod_time {
            self
        } else {
            CacheView {
                textures: self.textures.update(
                    self.texture_index(id),
                    TextureView { frames: Seq::empty(), mod_time, ..self.texture(id) },
                ),
                remaining_capacity: self.remaining_capacity + self.texture(id).size(),
                ..self
            }
        }
    }

    /// Whether a frame that arrives for request `id` is put into the cache:
    /// the request is in flight and not cancelled, and has an entry.
    pub open spec fn accepts_frame(self, id: u32) -> bool {
        self.pending.live(id) && self.has_texture(id)
    }

    /// Whether `size` more bytes can be entered into the accounts.
    pub open spec fn fits(self, size: int) -> bool {
        &&& self.remaining_capacity - size >= isize::MIN
        &&& textures_size(self.textures) + size <= isize::MAX
    }

    /// The frame is the last of the entry of request `id`, and its size is
    /// taken off what remains of the capacity.
    pub open spec fn insert_frame(self, id: u32, frame: AnimationFrameTexture<T>) -> CacheView<T> {
        CacheView {
            textures: self.textures.update(
                self.texture_index(id),
                TextureView { frames: self.texture(id).frames.push(frame), ..self.texture(id) },
            ),
            remaining_capacity: self.remaining_capacity - image_size_estimate(frame.w, frame.h),
            ..self
        }
    }

    /// The decode of request `id` has come to its end, with or without
    /// success: its entry is complete, the request is no longer in flight,
    /// and no longer the one to serve first.
    pub open spec fn finish(self, id: u32, failed: bool) -> CacheView<T> {
        CacheView {
            textures: if self.has_texture(id) {
                self.textures.update(
                    self.texture_index(id),
                    TextureView {
                        fully_loaded: true,
                        failed: self.texture(id).failed || failed,
                        ..self.texture(id)
                    },
                )
            } else {
                self.textures
            },
            priority: if self.priority == Some(id) {
                None
            } else {
                self.priority
            },
            pending: self.pending.set_finished(id),
            ..self
        }
    }

    /// The cache after a refresh: the entries that stay are those that are
    /// closest to the current file and fit into the capacity. Nothing
    /// changes while the directory has no current file.
    pub open spec fn refresh_cache(self) -> CacheView<T> {
        if self.dir.curr_img_index() is Some {
            let kept = retained(self.textures, self.dir, self.total_capacity, self.curr_est_size);
            CacheView {
                textures: kept,
                remaining_capacity: self.total_capacity - textures_size(kept),
                ..self
            }
        } else {
            self
        }
    }

    /// Every entry is to be compared with its file before it is trusted
    /// again.
    pub open spec fn mark_for_update(self) -> CacheView<T> {
        CacheView {
            textures: Seq::new(
                self.textures.len(),
                |i: int| TextureView { needs_update: true, ..self.textures[i] },
            ),
            ..self
        }
    }

    pub open spec fn update_directory(self, items: Seq<DirItemView>) -> CacheView<T> {
        CacheView { dir: self.dir.update_directory(items), ..self.mark_for_update() }
    }

    /// What is left of the cache when the directory at `path` is opened:
    /// everything if it is open already; else no entry, and no request
    /// that is not cancelled.
    pub open spec fn leave_for(self, path: Seq<char>) -> CacheView<T> {
        if self.dir.path == path {
            self
        } else {
            CacheView {
                textures: Seq::empty(),
                remaining_capacity: self.total_capacity,
                pending: self.pending.cancel_all(),
                ..self
            }
        }
    }

    pub open spec fn change_directory(self, path: Seq<char>) -> CacheView<T> {
        CacheView { dir: self.dir.change_directory(path), ..self.leave_for(path) }
    }

    pub open spec fn change_directory_with_filename(
        self,
        path: Seq<char>,
        name: Seq<char>,
    ) -> CacheView<T> {
        CacheView {
            dir: self.dir.change_directory_with_filename(path, name),
            ..self.leave_for(path)
        }
    }

    /// What a look at the cache finds of request `id`, whose file was
    /// modified at `disk` as far as the disk tells.
    ///
    /// An entry is fresh if its file was decoded as it was modified at
    /// `disk`. Where the disk tells nothing, the entry is trusted.
    pub open spec fn lookup_state(self, id: u32, disk: Option<ModTime>) -> LookupState {
        if self.has_texture(id) {
            if self.texture(id).failed {
                LookupState::Failed
            } else if disk is None || self.texture(id).mod_time == disk {
                LookupState::CachedFresh
            } else {
                LookupState::CachedStale
            }
        } else if self.pending.contains(id) {
            LookupState::PendingKnown
        } else {
            LookupState::Unrequested
        }
    }

    /// Whether the entry of request `id` can hand out the frame that
    /// `frame_id` stands for: an index within the frames that are there
    /// always can be; any other index once the entry is complete and has a
    /// frame.
    pub open spec fn resolvable(self, id: u32, frame_id: int) -> bool {
        let texture = self.texture(id);
        texture.frames.len() > 0 && (texture.fully_loaded || 0 <= frame_id
            < texture.frames.len())
    }

    /// Whether a request for `id` is issued when one is wanted.
    ///
    /// None is issued while as many requests are in flight as may be; nor
    /// for an image that is in the cache, unless its entry is to be
    /// compared with its file and the two are not known to agree; nor while
    /// a request for `id` is in flight.
    pub open spec fn issues_request(self, id: u32, disk: Option<ModTime>) -> bool {
        &&& self.pending.requests.len() < MAX_PENDING_REQUESTS
        &&& self.has_texture(id) ==> self.texture(id).needs_update && !self.known_unchanged(
            id,
            disk,
        )
        &&& !self.pending.contains(id)
    }

    /// Whether a request for `id` has the entry of `id` compared with its
    /// file: there is such an entry, it is to be compared, and it knows
    /// when its file was modified.
    pub open spec fn compares(self, id: u32) -> bool {
        &&& self.pending.requests.len() < MAX_PENDING_REQUESTS
        &&& self.has_texture(id)
        &&& self.texture(id).needs_update
        &&& self.texture(id).mod_time is Some
    }

    /// The entry of request `id` and the disk both know when the file was
    /// modified, and agree.
    pub open spec fn known_unchanged(self, id: u32, disk: Option<ModTime>) -> bool {
        self.texture(id).mod_time is Some && disk is Some && self.texture(id).mod_time == disk
    }

    /// The entry of request `id` and the disk both know when the file was
    /// modified, and disagree.
    pub open spec fn known_changed(self, id: u32, disk: Option<ModTime>) -> bool {
        self.texture(id).mod_time is Some && disk is Some && self.texture(id).mod_time != disk
    }

    /// The cache after a request for the file at `path` was wanted, under
    /// the id `id`.
    ///
    /// While as many requests are in flight as may be, nothing happens. An
    /// entry that was to be compared with its file has been compared; if
    /// the file is known to have changed the entry is gone, and its size is
    /// free again. Unless the entry holds, a request with priority is the
    /// one to serve first from now on, and the request is issued if none is
    /// in flight for `id`.
    pub open spec fn request_file(
        self,
        path: Seq<char>,
        id: u32,
        priority: bool,
        disk: Option<ModTime>,
    ) -> CacheView<T> {
        if self.pending.requests.len() >= MAX_PENDING_REQUESTS {
            self
        } else if self.has_texture(id) && !self.texture(id).needs_update {
            self
        } else {
            let compared = if self.has_texture(id) {
                CacheView {
                    textures: self.textures.update(
                        self.texture_index(id),
                        TextureView { needs_update: false, ..self.texture(id) },
                    ),
                    ..self
                }
            } else {
                self
            };
            if self.has_texture(id) && self.known_unchanged(id, disk) {
                compared
            } else {
                let cleared = if self.has_texture(id) && self.known_changed(id, disk) {
                    compared.remove_texture(id)
                } else {
                    compared
                };
                let marked = if priority {
                    CacheView { priority: Some(id), ..cleared }
                } else {
                    cleared
                };
                if self.pending.contains(id) {
                    marked
                } else {
                    CacheView {
                        pending: marked.pending.add_request(id),
                        requests: marked.requests.push(RequestView { req_id: id, path }),
                        ..marked
                    }
                }
            }
        }
    }

    /// The cache after the current image `item` was asked for, with
    /// `frame_id` as the index of its frame.
    ///
    /// A frame that is handed out is the current frame from now on. An
    /// entry whose file has changed is gone, with its size free again, and
    /// its image wanted with priority. An image that is not in the cache
    /// is wanted with priority; if a request for it is in flight already,
    /// that request is the one to serve first.
    pub open spec fn resolve(
        self,
        item: DirItemView,
        frame_id: int,
        disk: Option<ModTime>,
    ) -> CacheView<T> {
        let id = item.request_id;
        match self.lookup_state(id, disk) {
            LookupState::Failed => self,
            LookupState::CachedFresh => if self.resolvable(id, frame_id) {
                CacheView {
                    current_frame_idx: wrap_frame(frame_id, self.texture(id).frames.len() as int),
                    ..self
                }
            } else {
                self
            },
            LookupState::CachedStale => self.remove_texture(id).request_file(item.path, id, true, disk),
            LookupState::PendingKnown => CacheView { priority: Some(id), ..self },
            LookupState::Unrequested => self.request_file(item.path, id, true, disk),
        }
    }

    /// What the one who asked for the current image `item` is told.
    ///
    /// The frame, if the image is in the cache, trusted, and has the frame;
    /// that the image failed to load, if it did; in every other case, that
    /// the decode backend is awaited.
    pub open spec fn resolved(
        self,
        item: DirItemView,
        frame_id: int,
        disk: Option<ModTime>,
    ) -> Result<AnimationFrameTexture<T>, Error> {
        let id = item.request_id;
        match self.lookup_state(id, disk) {
            LookupState::Failed => Err(Error::FailedToLoadImage { req_id: id }),
            LookupState::CachedFresh => if self.resolvable(id, frame_id) {
                Ok(
                    self.texture(id).frames[wrap_frame(
                        frame_id,
                        self.texture(id).frames.len() as int,
                    )],
                )
            } else {
                Err(Error::WaitingOnLoader)
            },
            _ => Err(Error::WaitingOnLoader),
        }
    }

    /// The frame that is asked for when an image is asked for with
    /// `frame_id`: the frame that was handed out last, if no frame is named
    /// and the image is the one that was current before; the first frame,
    /// if no frame is named and the image is another one.
    pub open spec fn requested_frame(self, was: DirectoryView, frame_id: Option<int>) -> int {
        match frame_id {
            Some(frame_id) => frame_id,
            None => if was.curr_img_index() is Some && was.curr_img_index()
                == self.dir.curr_img_index() {
                self.current_frame_idx
            } else {
                0
            },
        }
    }

    /// The cache after the directory at `parent` was opened, with the file
    /// `name` as the current one if one is named. Where none is named, the
    /// first frame is the current frame.
    pub open spec fn navigate(self, parent: Seq<char>, name: Option<Seq<char>>) -> CacheView<T> {
        match name {
            Some(name) => self.change_directory_with_filename(parent, name),
            None => CacheView { current_frame_idx: 0, ..self.change_directory(parent) },
        }
    }

    /// The file that a jump over `file_jump` files leads to, before or
    /// behind the current one, around the ends of the listing.
    pub open spec fn jump_target(self, file_jump: int) -> Option<DirItemView> {
        if file_jump == 1 {
            self.dir.jump_to_next().curr_descriptor()
        } else if file_jump == -1 {
            self.dir.jump_to_prev().curr_descriptor()
        } else {
            match (self.dir.curr_img_index(), self.dir.image_count()) {
                (Some(current), Some(count)) => self.dir.image_by_index(
                    (current + file_jump) % count,
                ),
                _ => None,
            }
        }
    }

    /// The cache as a jump over `file_jump` files finds it before it loads
    /// the file that the jump leads to: the first frame is the current
    /// frame, and a jump to the next or the previous file has moved the
    /// directory there.
    pub open spec fn jump_start(self, file_jump: int) -> CacheView<T> {
        CacheView {
            current_frame_idx: 0,
            dir: if file_jump == 1 {
                self.dir.jump_to_next()
            } else if file_jump == -1 {
                self.dir.jump_to_prev()
            } else {
                self.dir
            },
            ..self
        }
    }

    /// The cache after the results that wait for request `id` were taken
    /// out of it.
    pub open spec fn take_results(self, id: u32) -> CacheView<T> {
        CacheView { pending: self.pending.take_results(id), ..self }
    }

    /// The cache after the results were handed in.
    pub open spec fn receive(self, results: Seq<LoadResult>) -> CacheView<T> {
        CacheView { pending: self.pending.add_load_results(results), ..self }
    }

    /// The cache after the file at `index` was wanted ahead of its time. It
    /// is wanted only while more of the capacity remains than an image is
    /// taken to occupy.
    pub open spec fn prefetch_at_index(self, index: int, disk: Option<ModTime>) -> CacheView<T> {
        if self.remaining_capacity > self.curr_est_size && self.dir.image_by_index(index) is Some {
            let item = self.dir.image_by_index(index)->0;
            self.request_file(item.path, item.request_id, false, disk)
        } else {
            self
        }
    }

    /// Whether wanting the file at `index` ahead of its time issues a
    /// request.
    pub open spec fn prefetches(self, index: int, disk: Option<ModTime>) -> bool {
        &&& self.remaining_capacity > self.curr_est_size
        &&& self.dir.image_by_index(index) is Some
        &&& self.issues_request(self.dir.image_by_index(index)->0.request_id, disk)
    }
}


impl<T> CacheView<T> {
    /// The index of a request is within the entries or just behind them,
    /// and points at the first entry of the request.
    pub proof fn lemma_texture_index(self, id: u32)
        ensures
            0 <= self.texture_index(id) <= self.textures.len(),
            self.has_texture(id) ==> self.texture(id).req_id == id,
            forall|k: int|
                0 <= k < self.texture_index(id) ==> (#[trigger] self.textures[k]).req_id != id,
            !self.has_texture(id) ==> forall|k: int|
                0 <= k < self.textures.len() ==> (#[trigger] self.textures[k]).req_id != id,
    {
        lemma_first_index(texture_ids(self.textures), id);
        assert forall|k: int| 0 <= k < self.texture_index(id) implies (
        #[trigger] self.textures[k]).req_id != id by {
            assert(texture_ids(self.textures)[k] != id);
        }
    }

    /// Among distinct entries, each is the entry of its request.
    pub proof fn lemma_texture_at(self, at: int)
        requires
            distinct_ids(self.textures),
            0 <= at < self.textures.len(),
        ensures
            self.texture_index(self.textures[at].req_id) == at,
            self.has_texture(self.textures[at].req_id),
    {
        let ids = texture_ids(self.textures);
        assert forall|j: int| 0 <= j < at implies ids[j] != self.textures[at].req_id by {
            assert(self.textures[j].req_id != self.textures[at].req_id);
        }
        lemma_first_index_is(ids, self.textures[at].req_id, at);
    }

    pub proof fn lemma_new_wf(capacity: int)
        requires
            isize::MIN <= capacity <= isize::MAX,
        ensures
            Self::new(capacity).wf(),
    {
    }

    pub proof fn lemma_remove_texture_wf(self, id: u32)
        requires
            self.wf(),
        ensures
            self.remove_texture(id).wf(),
            !self.remove_texture(id).has_texture(id),
            self.remove_texture(id).pending == self.pending,
    {
        self.lemma_texture_index(id);
        if self.has_texture(id) {
            let at = self.texture_index(id);
            lemma_distinct_remove(self.textures, at);
            lemma_textures_size_remove(self.textures, at);
            lemma_textures_size_bounds(self.textures, at);
            let after = self.remove_texture(id);
            lemma_textures_size_nonnegative(after.textures);
            assert forall|j: int| 0 <= j < after.textures.len() implies texture_ids(
                after.textures,
            )[j] != id by {
                assert(after.textures[j].req_id != self.textures[at].req_id);
            }
            lemma_first_index_is(texture_ids(after.textures), id, after.textures.len() as int);
        }
    }

    pub proof fn lemma_start_wf(self, id: u32, mod_time: Option<ModTime>)
        requires
            self.wf(),
        ensures
            self.start(id, mod_time).wf(),
    {
        self.lemma_texture_index(id);
        let after = self.start(id, mod_time);
        if self.pending.live(id) {
            if !self.has_texture(id) {
                let entry = TextureView::<T>::started(id, mod_time);
                lemma_distinct_push(self.textures, entry);
                lemma_textures_size_push(self.textures, entry);
            } else if !(mod_time is Some && self.texture(id).mod_time == mod_time) {
                let at = self.texture_index(id);
                lemma_distinct_same_ids(self.textures, after.textures);
                lemma_textures_size_update(self.textures, at, after.textures[at]);
                lemma_textures_size_bounds(self.textures, at);
                lemma_textures_size_nonnegative(after.textures);
            }
        }
    }

    pub proof fn lemma_insert_frame_wf(self, id: u32, frame: AnimationFrameTexture<T>)
        requires
            self.wf(),
            self.has_texture(id),
            self.fits(image_size_estimate(frame.w, frame.h)),
        ensures
            self.insert_frame(id, frame).wf(),
    {
        self.lemma_texture_index(id);
        let after = self.insert_frame(id, frame);
        let at = self.texture_index(id);
        lemma_distinct_same_ids(self.textures, after.textures);
        lemma_textures_size_update(self.textures, at, after.textures[at]);
        lemma_anim_size_push(self.texture(id).frames, frame);
        lemma_image_size_nonnegative(frame.w, frame.h);
    }

    pub proof fn lemma_finish_wf(self, id: u32, failed: bool)
        requires
            self.wf(),
        ensures
            self.finish(id, failed).wf(),
    {
        self.lemma_texture_index(id);
        let after = self.finish(id, failed);
        self.pending.lemma_set_finished(id, id);
        if self.has_texture(id) {
            lemma_distinct_same_ids(self.textures, after.textures);
            lemma_textures_size_same_frames(self.textures, after.textures);
        }
    }

    pub proof fn lemma_refresh_cache_wf(self)
        requires
            self.wf(),
        ensures
            self.refresh_cache().wf(),
    {
        lemma_retained_entries(self.textures, self.dir, self.total_capacity, self.curr_est_size);
        let kept = retained(self.textures, self.dir, self.total_capacity, self.curr_est_size);
        if self.dir.curr_img_index() is Some && kept.len() == 0 {
            assert(textures_size(kept) == 0);
        }
    }

    pub proof fn lemma_update_directory_wf(self, items: Seq<DirItemView>)
        requires
            self.wf(),
        ensures
            self.update_directory(items).wf(),
            self.mark_for_update().wf(),
    {
        let after = self.mark_for_update();
        lemma_distinct_same_ids(self.textures, after.textures);
        lemma_textures_size_same_frames(self.textures, after.textures);
        self.dir.lemma_update_directory_wf(items);
    }

    pub proof fn lemma_change_directory_wf(self, path: Seq<char>, name: Seq<char>)
        requires
            self.wf(),
        ensures
            self.leave_for(path).wf(),
            self.change_directory(path).wf(),
            self.change_directory_with_filename(path, name).wf(),
    {
        self.pending.lemma_cancel_all(0);
        assert(textures_size(Seq::<TextureView<T>>::empty()) == 0);
        lemma_first_index(item_names_of(self.dir), name);
    }

    pub proof fn lemma_request_file_wf(
        self,
        path: Seq<char>,
        id: u32,
        priority: bool,
        disk: Option<ModTime>,
    )
        requires
            self.wf(),
        ensures
            self.request_file(path, id, priority, disk).wf(),
    {
        self.lemma_texture_index(id);
        if self.pending.requests.len() < MAX_PENDING_REQUESTS && !(self.has_texture(id)
            && !self.texture(id).needs_update) {
            let compared = if self.has_texture(id) {
                CacheView {
                    textures: self.textures.update(
                        self.texture_index(id),
                        TextureView { needs_update: false, ..self.texture(id) },
                    ),
                    ..self
                }
            } else {
                self
            };
            if self.has_texture(id) {
                lemma_distinct_same_ids(self.textures, compared.textures);
                lemma_textures_size_same_frames(self.textures, compared.textures);
            }
            assert(compared.wf());
            compared.lemma_remove_texture_wf(id);
            if !self.pending.contains(id) {
                self.pending.lemma_add_request(id, id);
            }
        }
    }

    pub proof fn lemma_resolve_wf(self, item: DirItemView, frame_id: int, disk: Option<ModTime>)
        requires
            self.wf(),
        ensures
            self.resolve(item, frame_id, disk).wf(),
    {
        let id = item.request_id;
        self.lemma_remove_texture_wf(id);
        self.remove_texture(id).lemma_request_file_wf(item.path, id, true, disk);
        self.lemma_request_file_wf(item.path, id, true, disk);
        if self.has_texture(id) && self.texture(id).frames.len() > 0 {
            vstd::arithmetic::div_mod::lemma_mod_bound(
                frame_id,
                self.texture(id).frames.len() as int,
            );
        }
    }

    pub proof fn lemma_prefetch_at_index_wf(self, index: int, disk: Option<ModTime>)
        requires
            self.wf(),
        ensures
            self.prefetch_at_index(index, disk).wf(),
    {
        if self.dir.image_by_index(index) is Some {
            let item = self.dir.image_by_index(index)->0;
            self.lemma_request_file_wf(item.path, item.request_id, false, disk);
        }
    }
}

/// The file names of the listing of a directory; none where it has no
/// listing.
pub open spec fn item_names_of(dir: DirectoryView) -> Seq<Seq<char>> {
    match dir.listing {
        Some(items) => super::directory::item_names(items),
        None => Seq::empty(),
    }
}

} // verus!
