//! Which entries stay when the cache is refreshed: the closest to the
//! current file, as far as the capacity allows.

use vstd::prelude::*;

use super::cached_texture::CachedTexture;
use super::cached_texture::distinct_ids;
use super::cached_texture::lemma_anim_size_nonnegative;
use super::cached_texture::lemma_textures_size_bounds;
use super::cached_texture::lemma_textures_size_push;
use super::cached_texture::lemma_textures_size_remove;
use super::cached_texture::textures_size;
use super::cached_texture::textures_view;
use super::cached_texture::TextureView;
use super::directory::Directory;
use super::directory::DirectoryView;
use super::get_anim_size_estimate;

verus! {

/// How far the file of a request is from the current file, counted in
/// places of the listing. A request whose file the listing does not hold
/// is as far as the listing is long: farther than every file in it.
pub open spec fn distance(dir: DirectoryView, request_id: u32) -> int {
    match (dir.index_of_request(request_id), dir.curr_img_index()) {
        (Some(index), Some(current)) => if index < current {
            current - index
        } else {
            index - current
        },
        _ => match dir.listing {
            Some(items) => items.len() as int,
            None => 0,
        },
    }
}

/// The index of the entry that is closest to the current file; of several
/// that are equally close, the first.
pub open spec fn closest<T>(textures: Seq<TextureView<T>>, dir: DirectoryView) -> int
    decreases textures.len(),
{
    if textures.len() <= 1 {
        0
    } else {
        let before = closest(textures.drop_last(), dir);
        if distance(dir, textures.last().req_id) < distance(dir, textures[before].req_id) {
            textures.len() - 1
        } else {
            before
        }
    }
}

/// The entries that stay in the cache when it is refreshed, closest first.
///
/// The entries are taken in the order of their distance from the current
/// file. An entry stays if what remains of the capacity is more than its
/// size and `margin` together; the first entry that does not, and all that
/// are farther, leave.
pub open spec fn retained<T>(
    textures: Seq<TextureView<T>>,
    dir: DirectoryView,
    remaining: int,
    margin: int,
) -> Seq<TextureView<T>>
    decreases textures.len(),
    via retained_decreases::<T>
{
    if textures.len() == 0 {
        Seq::empty()
    } else {
        let next = closest(textures, dir);
        if remaining > textures[next].size() + margin {
            seq![textures[next]] + retained(
                textures.remove(next),
                dir,
                remaining - textures[next].size(),
                margin,
            )
        } else {
            Seq::empty()
        }
    }
}

#[via_fn]
proof fn retained_decreases<T>(
    textures: Seq<TextureView<T>>,
    dir: DirectoryView,
    remaining: int,
    margin: int,
) {
    if textures.len() > 0 {
        lemma_closest(textures, dir);
    }
}

/// `closest` points at an entry that none is closer than and none that is
/// as close precedes.
pub proof fn lemma_closest<T>(textures: Seq<TextureView<T>>, dir: DirectoryView)
    requires
        textures.len() > 0,
    ensures
        0 <= closest(textures, dir) < textures.len(),
        forall|j: int|
            0 <= j < textures.len() ==> distance(dir, textures[closest(textures, dir)].req_id)
                <= distance(dir, (#[trigger] textures[j]).req_id),
        forall|j: int|
            0 <= j < closest(textures, dir) ==> distance(
                dir,
                textures[closest(textures, dir)].req_id,
            ) < distance(dir, (#[trigger] textures[j]).req_id),
    decreases textures.len(),
{
    if textures.len() > 1 {
        let front = textures.drop_last();
        lemma_closest(front, dir);
        let before = closest(front, dir);
        assert(front[before] == textures[before]);
        assert forall|j: int| 0 <= j < textures.len() implies distance(
            dir,
            textures[closest(textures, dir)].req_id,
        ) <= distance(dir, (#[trigger] textures[j]).req_id) by {
            if j < front.len() {
                assert(front[j] == textures[j]);
            }
        }
        assert forall|j: int| 0 <= j < closest(textures, dir) implies distance(
            dir,
            textures[closest(textures, dir)].req_id,
        ) < distance(dir, (#[trigger] textures[j]).req_id) by {
            assert(front[j] == textures[j]);
        }
    }
}

/// An entry that none is closer than and none that is as close precedes is
/// the one that `closest` points at.
pub proof fn lemma_closest_is<T>(textures: Seq<TextureView<T>>, dir: DirectoryView, at: int)
    requires
        0 <= at < textures.len(),
        forall|j: int|
            0 <= j < textures.len() ==> distance(dir, textures[at].req_id) <= distance(
                dir,
                (#[trigger] textures[j]).req_id,
            ),
        forall|j: int|
            0 <= j < at ==> distance(dir, textures[at].req_id) < distance(
                dir,
                (#[trigger] textures[j]).req_id,
            ),
    ensures
        closest(textures, dir) == at,
{
    lemma_closest(textures, dir);
    let found = closest(textures, dir);
    assert(distance(dir, textures[found].req_id) <= distance(dir, textures[at].req_id));
    assert(distance(dir, textures[at].req_id) <= distance(dir, textures[found].req_id));
}

/// Every entry that stays was in the cache, no entry stays twice, and the
/// entries that stay occupy less than `remaining`, if any stays.
pub proof fn lemma_retained_entries<T>(
    textures: Seq<TextureView<T>>,
    dir: DirectoryView,
    remaining: int,
    margin: int,
)
    requires
        distinct_ids(textures),
        margin >= 0,
    ensures
        retained(textures, dir, remaining, margin).len() <= textures.len(),
        forall|k: int|
            0 <= k < retained(textures, dir, remaining, margin).len() ==> textures.contains(
                #[trigger] retained(textures, dir, remaining, margin)[k],
            ),
        distinct_ids(retained(textures, dir, remaining, margin)),
        0 <= textures_size(retained(textures, dir, remaining, margin)) <= textures_size(textures),
        retained(textures, dir, remaining, margin).len() > 0 ==> textures_size(
            retained(textures, dir, remaining, margin),
        ) + margin < remaining,
    decreases textures.len(),
{
    let kept = retained(textures, dir, remaining, margin);
    super::cached_texture::lemma_textures_size_nonnegative(textures);
    if textures.len() > 0 {
        lemma_closest(textures, dir);
        let next = closest(textures, dir);
        let head = textures[next];
        let rest = textures.remove(next);
        lemma_anim_size_nonnegative(head.frames);
        if remaining > head.size() + margin {
            let tail = retained(rest, dir, remaining - head.size(), margin);
            assert(distinct_ids(rest)) by {
                assert forall|i: int, j: int| 0 <= i < j < rest.len() implies (
                #[trigger] rest[i]).req_id != (#[trigger] rest[j]).req_id by {
                    let oi = if i < next { i } else { i + 1 };
                    let oj = if j < next { j } else { j + 1 };
                    assert(textures[oi].req_id != textures[oj].req_id);
                }
            }
            lemma_retained_entries(rest, dir, remaining - head.size(), margin);
            lemma_textures_size_remove(textures, next);
            assert(kept =~= seq![head] + tail);
            assert forall|k: int| 0 <= k < kept.len() implies textures.contains(
                #[trigger] kept[k],
            ) by {
                if k == 0 {
                    assert(textures[next] == kept[0]);
                } else {
                    assert(kept[k] == tail[k - 1]);
                    assert(rest.contains(tail[k - 1]));
                    let r = choose|r: int| 0 <= r < rest.len() && rest[r] == tail[k - 1];
                    let o = if r < next { r } else { r + 1 };
                    assert(textures[o] == kept[k]);
                }
            }
            assert forall|i: int, j: int| 0 <= i < j < kept.len() implies (
            #[trigger] kept[i]).req_id != (#[trigger] kept[j]).req_id by {
                if i == 0 {
                    assert(kept[j] == tail[j - 1]);
                    assert(rest.contains(tail[j - 1]));
                    let r = choose|r: int| 0 <= r < rest.len() && rest[r] == tail[j - 1];
                    let o = if r < next { r } else { r + 1 };
                    assert(textures[o] == kept[j]);
                    if o < next {
                        assert(textures[o].req_id != textures[next].req_id);
                    } else {
                        assert(textures[next].req_id != textures[o].req_id);
                    }
                } else {
                    assert(tail[i - 1].req_id != tail[j - 1].req_id);
                }
            }
            lemma_textures_size_front(head, tail);
        } else {
            assert(kept =~= Seq::empty());
        }
    } else {
        assert(kept =~= Seq::empty());
    }
}

/// An entry in front adds its size.
pub proof fn lemma_textures_size_front<T>(head: TextureView<T>, tail: Seq<TextureView<T>>)
    ensures
        textures_size(seq![head] + tail) == head.size() + textures_size(tail),
    decreases tail.len(),
{
    let all = seq![head] + tail;
    assert(textures_size(Seq::<TextureView<T>>::empty()) == 0);
    if tail.len() == 0 {
        assert(all.drop_last() =~= Seq::empty());
        assert(all.last() == head);
    } else {
        lemma_textures_size_front(head, tail.drop_last());
        assert(all.drop_last() =~= seq![head] + tail.drop_last());
        assert(all.last() == tail.last());
    }
}

/// Closest first: of two entries, the farther one stays only if the closer
/// one stays too.
pub proof fn lemma_closer_entries_stay<T>(
    textures: Seq<TextureView<T>>,
    dir: DirectoryView,
    remaining: int,
    margin: int,
    closer: int,
    farther: int,
)
    requires
        distinct_ids(textures),
        0 <= closer < textures.len(),
        0 <= farther < textures.len(),
        distance(dir, textures[closer].req_id) < distance(dir, textures[farther].req_id),
        retained(textures, dir, remaining, margin).contains(textures[farther]),
    ensures
        retained(textures, dir, remaining, margin).contains(textures[closer]),
    decreases textures.len(),
{
    let kept = retained(textures, dir, remaining, margin);
    lemma_closest(textures, dir);
    let next = closest(textures, dir);
    let head = textures[next];
    let rest = textures.remove(next);
    assert(kept.len() > 0);
    let tail = retained(rest, dir, remaining - head.size(), margin);
    assert(kept =~= seq![head] + tail);
    if next == closer {
        assert(kept[0] == textures[closer]);
    } else {
        // The farther entry is not the closest of all, so it stays among
        // the rest, where the closer entry is too.
        assert(next != farther);
        let at = choose|k: int| 0 <= k < kept.len() && kept[k] == textures[farther];
        if at == 0 {
            assert(textures[next].req_id == textures[farther].req_id);
            if next < farther {
                assert(textures[next].req_id != textures[farther].req_id);
            } else {
                assert(textures[farther].req_id != textures[next].req_id);
            }
        }
        assert(tail[at - 1] == textures[farther]);
        let c = if closer < next { closer } else { closer - 1 };
        let f = if farther < next { farther } else { farther - 1 };
        assert(rest[c] == textures[closer]);
        assert(rest[f] == textures[farther]);
        assert(distinct_ids(rest)) by {
            assert forall|i: int, j: int| 0 <= i < j < rest.len() implies (#[trigger] rest[i]).req_id
                != (#[trigger] rest[j]).req_id by {
                let oi = if i < next { i } else { i + 1 };
                let oj = if j < next { j } else { j + 1 };
                assert(textures[oi].req_id != textures[oj].req_id);
            }
        }
        lemma_closer_entries_stay(rest, dir, remaining - head.size(), margin, c, f);
        let k = choose|k: int| 0 <= k < tail.len() && tail[k] == textures[closer];
        assert(kept[k + 1] == textures[closer]);
    }
}

/// The entries stand closest first, and each of them stays when the cache
/// is refreshed with `remaining` as its capacity.
pub open spec fn settled<T>(
    textures: Seq<TextureView<T>>,
    dir: DirectoryView,
    remaining: int,
    margin: int,
) -> bool
    decreases textures.len(),
{
    textures.len() == 0 || (closest(textures, dir) == 0 && remaining > textures[0].size() + margin
        && settled(textures.drop_first(), dir, remaining - textures[0].size(), margin))
}

/// Entries that are settled all stay, in their order.
pub proof fn lemma_settled_stays<T>(
    textures: Seq<TextureView<T>>,
    dir: DirectoryView,
    remaining: int,
    margin: int,
)
    requires
        settled(textures, dir, remaining, margin),
    ensures
        retained(textures, dir, remaining, margin) == textures,
    decreases textures.len(),
{
    if textures.len() > 0 {
        let rest = textures.drop_first();
        assert(textures.remove(0) =~= rest);
        lemma_settled_stays(rest, dir, remaining - textures[0].size(), margin);
        assert(seq![textures[0]] + rest =~= textures);
    } else {
        assert(textures =~= Seq::empty());
    }
}

/// Entries that are settled are settled for every larger capacity.
pub proof fn lemma_settled_with_more<T>(
    textures: Seq<TextureView<T>>,
    dir: DirectoryView,
    remaining: int,
    more: int,
    margin: int,
)
    requires
        settled(textures, dir, remaining, margin),
        remaining <= more,
    ensures
        settled(textures, dir, more, margin),
    decreases textures.len(),
{
    if textures.len() > 0 {
        lemma_settled_with_more(
            textures.drop_first(),
            dir,
            remaining - textures[0].size(),
            more - textures[0].size(),
            margin,
        );
    }
}

/// The entries that stay when a cache is refreshed are settled.
pub proof fn lemma_retained_is_settled<T>(
    textures: Seq<TextureView<T>>,
    dir: DirectoryView,
    remaining: int,
    margin: int,
)
    requires
        distinct_ids(textures),
        margin >= 0,
    ensures
        settled(retained(textures, dir, remaining, margin), dir, remaining, margin),
    decreases textures.len(),
{
    let kept = retained(textures, dir, remaining, margin);
    if textures.len() > 0 {
        lemma_closest(textures, dir);
        let next = closest(textures, dir);
        let head = textures[next];
        let rest = textures.remove(next);
        if remaining > head.size() + margin {
            let tail = retained(rest, dir, remaining - head.size(), margin);
            super::cached_texture::lemma_distinct_remove(textures, next);
            lemma_retained_is_settled(rest, dir, remaining - head.size(), margin);
            lemma_retained_entries(rest, dir, remaining - head.size(), margin);
            assert(kept =~= seq![head] + tail);
            assert(kept.drop_first() =~= tail);
            assert forall|j: int| 0 <= j < kept.len() implies distance(dir, kept[0].req_id)
                <= distance(dir, (#[trigger] kept[j]).req_id) by {
                if j > 0 {
                    assert(kept[j] == tail[j - 1]);
                    assert(rest.contains(tail[j - 1]));
                    let r = choose|r: int| 0 <= r < rest.len() && rest[r] == tail[j - 1];
                    let o = if r < next { r } else { r + 1 };
                    assert(textures[o] == kept[j]);
                }
            }
            lemma_closest_is(kept, dir, 0);
        } else {
            assert(kept =~= Seq::empty());
        }
    } else {
        assert(kept =~= Seq::empty());
    }
}

/// Without one of them, entries that are settled are settled.
pub proof fn lemma_settled_without<T>(
    textures: Seq<TextureView<T>>,
    dir: DirectoryView,
    remaining: int,
    margin: int,
    at: int,
)
    requires
        settled(textures, dir, remaining, margin),
        0 <= at < textures.len(),
    ensures
        settled(textures.remove(at), dir, remaining, margin),
    decreases textures.len(),
{
    let rest = textures.drop_first();
    let without = textures.remove(at);
    lemma_anim_size_nonnegative(textures[0].frames);
    if at == 0 {
        assert(without =~= rest);
        lemma_settled_with_more(rest, dir, remaining - textures[0].size(), remaining, margin);
    } else {
        lemma_settled_without(rest, dir, remaining - textures[0].size(), margin, at - 1);
        assert(without.drop_first() =~= rest.remove(at - 1));
        assert(without[0] == textures[0]);
        lemma_closest(textures, dir);
        assert forall|j: int| 0 <= j < without.len() implies distance(dir, without[0].req_id)
            <= distance(dir, (#[trigger] without[j]).req_id) by {
            let o = if j < at { j } else { j + 1 };
            assert(without[j] == textures[o]);
        }
        lemma_closest_is(without, dir, 0);
    }
}

/// The distance of a request from the current file, as far as it is
/// needed to tell which of two requests is closer.
fn request_distance(dir: &Directory, request_id: u32) -> (d: usize)
    requires
        dir@.wf(),
    ensures
        d == distance(dir@, request_id),
{
    let index = dir.index_of_request(request_id);
    let current = dir.curr_img_index();
    match (index, current) {
        (Some(index), Some(current)) => if index < current {
            current - index
        } else {
            index - current
        },
        _ => match dir.image_count() {
            Some(count) => count,
            None => 0,
        },
    }
}

/// Keeps of `textures` the entries that stay when the cache is refreshed
/// with `total` as its capacity, closest first, and tells how much of the
/// capacity the entries leave.
pub fn retain_closest<T>(
    entries: Vec<CachedTexture<T>>,
    dir: &Directory,
    total: isize,
    margin: isize,
) -> (kept: (Vec<CachedTexture<T>>, isize))
    requires
        dir@.wf(),
        margin >= 0,
        distinct_ids(textures_view(entries@)),
        textures_size(textures_view(entries@)) <= isize::MAX,
    ensures
        textures_view(kept.0@) == retained(
            textures_view(entries@),
            dir@,
            total as int,
            margin as int,
        ),
        kept.1 == total - textures_size(textures_view(kept.0@)),
{
    let ghost all = textures_view(entries@);
    let mut textures = entries;
    let mut distances: Vec<usize> = Vec::new();
    let mut i: usize = 0;
    while i < textures.len()
        invariant
            dir@.wf(),
            i <= textures@.len(),
            distances@.len() == i,
            forall|k: int|
                0 <= k < i ==> distances@[k] == distance(dir@, (#[trigger] textures@[k]).req_id),
        decreases textures@.len() - i,
    {
        distances.push(request_distance(dir, textures[i].req_id));
        i = i + 1;
    }
    let mut remaining: isize = total;
    let mut kept: Vec<CachedTexture<T>> = Vec::new();
    proof {
        lemma_retained_entries(all, dir@, total as int, margin as int);
        assert(textures_view(kept@) =~= Seq::empty());
    }
    while textures.len() > 0
        invariant
            margin >= 0,
            all == textures_view(entries@),
            distances@.len() == textures@.len(),
            forall|k: int|
                0 <= k < textures@.len() ==> distances@[k] == distance(
                    dir@,
                    (#[trigger] textures@[k]).req_id,
                ),
            distinct_ids(textures_view(textures@)),
            textures_size(textures_view(textures@)) <= isize::MAX,
            remaining == total - textures_size(textures_view(kept@)),
            textures_view(kept@) + retained(
                textures_view(textures@),
                dir@,
                remaining as int,
                margin as int,
            ) == retained(all, dir@, total as int, margin as int),
        decreases textures@.len(),
    {
        let ghost rest = textures_view(textures@);
        let ghost before = textures_view(kept@);
        // The closest of the entries that are left.
        let mut next: usize = 0;
        let mut j: usize = 1;
        while j < distances.len()
            invariant
                1 <= j <= distances@.len(),
                next < j,
                forall|k: int| 0 <= k < j ==> distances@[next as int] <= distances@[k],
                forall|k: int| 0 <= k < next ==> distances@[next as int] < distances@[k],
            decreases distances@.len() - j,
        {
            if distances[j] < distances[next] {
                next = j;
            }
            j = j + 1;
        }
        proof {
            assert forall|k: int| 0 <= k < rest.len() implies distance(dir@, rest[next as int].req_id)
                <= distance(dir@, (#[trigger] rest[k]).req_id) by {
                assert(distances@[k] == distance(dir@, textures@[k].req_id));
                assert(distances@[next as int] == distance(dir@, textures@[next as int].req_id));
            }
            assert forall|k: int| 0 <= k < next implies distance(dir@, rest[next as int].req_id)
                < distance(dir@, (#[trigger] rest[k]).req_id) by {
                assert(distances@[k] == distance(dir@, textures@[k].req_id));
                assert(distances@[next as int] == distance(dir@, textures@[next as int].req_id));
            }
            lemma_closest_is(rest, dir@, next as int);
            lemma_textures_size_bounds(rest, next as int);
            lemma_textures_size_remove(rest, next as int);
        }
        // An entry stays only while its frames and the margin fit into
        // what remains of the capacity.
        let all_frames_size: isize = get_anim_size_estimate(textures[next].frames.as_slice());
        if remaining as i128 > all_frames_size as i128 + margin as i128 {
            remaining = remaining - all_frames_size;
            let texture = textures.remove(next);
            let _ = distances.remove(next);
            kept.push(texture);
            proof {
                assert(textures_view(textures@) =~= rest.remove(next as int));
                assert(textures_view(kept@) =~= before.push(rest[next as int]));
                lemma_textures_size_push(before, rest[next as int]);
                let tail = retained(
                    textures_view(textures@),
                    dir@,
                    remaining as int,
                    margin as int,
                );
                assert(before.push(rest[next as int]) + tail =~= before + (seq![rest[next as int]]
                    + tail));
                assert(distinct_ids(textures_view(textures@))) by {
                    let now = textures_view(textures@);
                    assert forall|a: int, b: int| 0 <= a < b < now.len() implies (
                    #[trigger] now[a]).req_id != (#[trigger] now[b]).req_id by {
                        let oa = if a < next { a } else { a + 1 };
                        let ob = if b < next { b } else { b + 1 };
                        assert(rest[oa].req_id != rest[ob].req_id);
                    }
                }
            }
        } else {
            proof {
                assert(before + Seq::<TextureView<T>>::empty() =~= before);
            }
            return (kept, remaining);
        }
    }
    proof {
        assert(textures_view(kept@) + Seq::<TextureView<T>>::empty() =~= textures_view(kept@));
    }
    (kept, remaining)
}

} // verus!
