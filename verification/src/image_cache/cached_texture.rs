//! The entries of the cache and the estimate of what they occupy.

use vstd::prelude::*;

use super::image_loader::ModTime;
use super::image_size_estimate;
use super::texture::AnimationFrameTexture;

verus! {

/// The mathematical content of a [`CachedTexture`].
pub struct TextureView<T> {
    pub req_id: u32,
    pub needs_update: bool,
    pub mod_time: Option<ModTime>,
    pub fully_loaded: bool,
    pub failed: bool,
    pub frames: Seq<AnimationFrameTexture<T>>,
}

/// What the cache holds of one image file.
pub struct CachedTexture<T> {
    /// The request that the frames answer.
    pub req_id: u32,
    /// Set when the directory was listed anew since the frames were
    /// loaded: the file may have changed, and is to be compared with the
    /// one on disk before it is trusted again.
    pub needs_update: bool,
    /// The modification time of the file when it was decoded.
    pub mod_time: Option<ModTime>,
    /// False while frames of the file may still arrive. A frame index
    /// beyond the frames is wrapped around only once this is true.
    pub fully_loaded: bool,
    /// True if the file could not be loaded.
    pub failed: bool,
    /// One frame for a still image, the frames in their order for an
    /// animation.
    pub frames: Vec<AnimationFrameTexture<T>>,
}

impl<T> View for CachedTexture<T> {
    type V = TextureView<T>;

    open spec fn view(&self) -> TextureView<T> {
        TextureView {
            req_id: self.req_id,
            needs_update: self.needs_update,
            mod_time: self.mod_time,
            fully_loaded: self.fully_loaded,
            failed: self.failed,
            frames: self.frames@,
        }
    }
}

impl<T> TextureView<T> {
    /// The entry that the start of a decode creates.
    pub open spec fn started(req_id: u32, mod_time: Option<ModTime>) -> TextureView<T> {
        TextureView {
            req_id,
            needs_update: false,
            mod_time,
            fully_loaded: false,
            failed: false,
            frames: Seq::empty(),
        }
    }

    /// The estimated number of bytes that the frames of the entry occupy.
    pub open spec fn size(self) -> int {
        anim_size_estimate(self.frames)
    }
}

/// The views of the entries of a cache, in their order.
pub open spec fn textures_view<T>(textures: Seq<CachedTexture<T>>) -> Seq<TextureView<T>> {
    Seq::new(textures.len(), |i: int| textures[i]@)
}

/// The request ids of the entries, in their order.
pub open spec fn texture_ids<T>(textures: Seq<TextureView<T>>) -> Seq<u32> {
    Seq::new(textures.len(), |i: int| textures[i].req_id)
}

/// No two entries answer the same request.
pub open spec fn distinct_ids<T>(textures: Seq<TextureView<T>>) -> bool {
    forall|i: int, j: int|
        0 <= i < j < textures.len() ==> (#[trigger] textures[i]).req_id != (
        #[trigger] textures[j]).req_id
}

/// The estimated number of bytes that the frames occupy: the sum of the
/// estimates of the single frames.
pub open spec fn anim_size_estimate<T>(frames: Seq<AnimationFrameTexture<T>>) -> int
    decreases frames.len(),
{
    if frames.len() == 0 {
        0
    } else {
        anim_size_estimate(frames.drop_last()) + image_size_estimate(
            frames.last().w,
            frames.last().h,
        )
    }
}

/// The estimated number of bytes that all the entries occupy.
pub open spec fn textures_size<T>(textures: Seq<TextureView<T>>) -> int
    decreases textures.len(),
{
    if textures.len() == 0 {
        0
    } else {
        textures_size(textures.drop_last()) + textures.last().size()
    }
}

pub proof fn lemma_image_size_nonnegative(width: u32, height: u32)
    ensures
        0 <= image_size_estimate(width, height),
{
    assert(0 <= 6 * (width as int) * (height as int)) by (nonlinear_arith)
        requires
            0 <= width,
            0 <= height,
    ;
}

pub proof fn lemma_anim_size_nonnegative<T>(frames: Seq<AnimationFrameTexture<T>>)
    ensures
        0 <= anim_size_estimate(frames),
    decreases frames.len(),
{
    if frames.len() > 0 {
        lemma_anim_size_nonnegative(frames.drop_last());
        lemma_image_size_nonnegative(frames.last().w, frames.last().h);
    }
}

/// A frame more adds its estimate.
pub proof fn lemma_anim_size_push<T>(
    frames: Seq<AnimationFrameTexture<T>>,
    frame: AnimationFrameTexture<T>,
)
    ensures
        anim_size_estimate(frames.push(frame)) == anim_size_estimate(frames) + image_size_estimate(
            frame.w,
            frame.h,
        ),
{
    assert(frames.push(frame).drop_last() =~= frames);
}

/// The first frames of an animation occupy no more than all of them.
pub proof fn lemma_anim_size_prefix<T>(frames: Seq<AnimationFrameTexture<T>>, count: int)
    requires
        0 <= count <= frames.len(),
    ensures
        0 <= anim_size_estimate(frames.take(count)) <= anim_size_estimate(frames),
    decreases frames.len(),
{
    lemma_anim_size_nonnegative(frames.take(count));
    if count < frames.len() {
        lemma_anim_size_prefix(frames.drop_last(), count);
        assert(frames.drop_last().take(count) =~= frames.take(count));
        lemma_image_size_nonnegative(frames.last().w, frames.last().h);
    } else {
        assert(frames.take(count) =~= frames);
    }
}

pub proof fn lemma_textures_size_nonnegative<T>(textures: Seq<TextureView<T>>)
    ensures
        0 <= textures_size(textures),
    decreases textures.len(),
{
    if textures.len() > 0 {
        lemma_textures_size_nonnegative(textures.drop_last());
        lemma_anim_size_nonnegative(textures.last().frames);
    }
}

/// An entry more adds its size.
pub proof fn lemma_textures_size_push<T>(textures: Seq<TextureView<T>>, texture: TextureView<T>)
    ensures
        textures_size(textures.push(texture)) == textures_size(textures) + texture.size(),
{
    assert(textures.push(texture).drop_last() =~= textures);
}

/// An entry less takes its size away.
pub proof fn lemma_textures_size_remove<T>(textures: Seq<TextureView<T>>, at: int)
    requires
        0 <= at < textures.len(),
    ensures
        textures_size(textures.remove(at)) == textures_size(textures) - textures[at].size(),
    decreases textures.len(),
{
    if at == textures.len() - 1 {
        assert(textures.remove(at) =~= textures.drop_last());
    } else {
        lemma_textures_size_remove(textures.drop_last(), at);
        assert(textures.remove(at).drop_last() =~= textures.drop_last().remove(at));
        assert(textures.remove(at).last() == textures.last());
    }
}

/// Another entry in the place of one changes the size by the difference.
pub proof fn lemma_textures_size_update<T>(
    textures: Seq<TextureView<T>>,
    at: int,
    texture: TextureView<T>,
)
    requires
        0 <= at < textures.len(),
    ensures
        textures_size(textures.update(at, texture)) == textures_size(textures) - textures[at].size()
            + texture.size(),
    decreases textures.len(),
{
    if at == textures.len() - 1 {
        assert(textures.update(at, texture).drop_last() =~= textures.drop_last());
    } else {
        lemma_textures_size_update(textures.drop_last(), at, texture);
        assert(textures.update(at, texture).drop_last() =~= textures.drop_last().update(
            at,
            texture,
        ));
    }
}

/// No entry occupies more than all of them together.
pub proof fn lemma_textures_size_bounds<T>(textures: Seq<TextureView<T>>, at: int)
    requires
        0 <= at < textures.len(),
    ensures
        0 <= textures[at].size() <= textures_size(textures),
{
    lemma_textures_size_remove(textures, at);
    lemma_textures_size_nonnegative(textures.remove(at));
    lemma_anim_size_nonnegative(textures[at].frames);
}

/// Two sequences of entries whose frames agree place by place occupy the
/// same.
pub proof fn lemma_textures_size_same_frames<T>(a: Seq<TextureView<T>>, b: Seq<TextureView<T>>)
    requires
        a.len() == b.len(),
        forall|i: int| 0 <= i < a.len() ==> (#[trigger] a[i]).frames == b[i].frames,
    ensures
        textures_size(a) == textures_size(b),
    decreases a.len(),
{
    if a.len() > 0 {
        lemma_textures_size_same_frames(a.drop_last(), b.drop_last());
        assert(a.last().frames == b.last().frames);
    }
}

/// Entries that answer the same requests place by place are as distinct as
/// each other.
pub proof fn lemma_distinct_same_ids<T>(a: Seq<TextureView<T>>, b: Seq<TextureView<T>>)
    requires
        a.len() == b.len(),
        forall|i: int| 0 <= i < a.len() ==> (#[trigger] a[i]).req_id == b[i].req_id,
        distinct_ids(a),
    ensures
        distinct_ids(b),
        texture_ids(a) == texture_ids(b),
{
    assert forall|i: int, j: int| 0 <= i < j < b.len() implies (#[trigger] b[i]).req_id != (
    #[trigger] b[j]).req_id by {
        assert(a[i].req_id != a[j].req_id);
    }
    assert(texture_ids(a) =~= texture_ids(b));
}

/// Without one of them, distinct entries are distinct.
pub proof fn lemma_distinct_remove<T>(textures: Seq<TextureView<T>>, at: int)
    requires
        0 <= at < textures.len(),
        distinct_ids(textures),
    ensures
        distinct_ids(textures.remove(at)),
        forall|k: int|
            0 <= k < textures.len() - 1 ==> (#[trigger] textures.remove(at)[k]).req_id
                != textures[at].req_id,
{
    let rest = textures.remove(at);
    assert forall|i: int, j: int| 0 <= i < j < rest.len() implies (#[trigger] rest[i]).req_id != (
    #[trigger] rest[j]).req_id by {
        let oi = if i < at { i } else { i + 1 };
        let oj = if j < at { j } else { j + 1 };
        assert(textures[oi].req_id != textures[oj].req_id);
    }
    assert forall|k: int| 0 <= k < textures.len() - 1 implies (#[trigger] rest[k]).req_id
        != textures[at].req_id by {
        let o = if k < at { k } else { k + 1 };
        if o < at {
            assert(textures[o].req_id != textures[at].req_id);
        } else {
            assert(textures[at].req_id != textures[o].req_id);
        }
    }
}

/// With an entry for a request that had none, distinct entries are
/// distinct.
pub proof fn lemma_distinct_push<T>(textures: Seq<TextureView<T>>, texture: TextureView<T>)
    requires
        distinct_ids(textures),
        forall|k: int| 0 <= k < textures.len() ==> (#[trigger] textures[k]).req_id != texture.req_id,
    ensures
        distinct_ids(textures.push(texture)),
{
    let all = textures.push(texture);
    assert forall|i: int, j: int| 0 <= i < j < all.len() implies (#[trigger] all[i]).req_id != (
    #[trigger] all[j]).req_id by {
        if j < textures.len() {
            assert(textures[i].req_id != textures[j].req_id);
        } else {
            assert(textures[i].req_id != texture.req_id);
        }
    }
}

} // verus!
