//! Room in the texture cache for the render tasks of a frame.
//!
//! A task that draws to a place of its own asks the cache for a rectangle in
//! the frame in which it runs. The tasks are served in the order of their
//! ids. A rectangle that was handed out in a frame is not evicted in that
//! frame, so the targets of one frame never take one another's room. A task
//! that finds no room has no target in this frame: what it would have drawn
//! is left out, and it asks again in the next frame.

use crate::device::{FrameId, TextureId, DUMMY_A8, DUMMY_RGBA8};
use crate::frame_builder::Frame;
use crate::render_task::{
    ids_to_ints, RenderPass, RenderTaskGraph, RenderTaskId, RenderTaskKind, RenderTaskLocation,
    RenderTaskModel,
};
use crate::tiling::{BlurCommand, CacheClipInstance};
use crate::texture_cache::{
    allocation, entries_overlap, lemma_live_entries_do_not_overlap, CacheEntry, CacheHandle,
    Shelf, TextureCache, TextureFormat,
};
use vstd::prelude::*;

verus! {

/// The format of the atlas that a task draws into: a mask is alpha only.
pub open spec fn spec_target_format(kind: RenderTaskKind) -> TextureFormat {
    match kind {
        RenderTaskKind::CacheMask => TextureFormat::Alpha8,
        _ => TextureFormat::Rgba8,
    }
}

pub fn target_format(kind: RenderTaskKind) -> (f: TextureFormat)
    ensures
        f == spec_target_format(kind),
{
    match kind {
        RenderTaskKind::CacheMask => TextureFormat::Alpha8,
        _ => TextureFormat::Rgba8,
    }
}

/// The texture that holds the atlas that a task draws into.
pub open spec fn spec_target_texture(kind: RenderTaskKind) -> TextureId {
    match kind {
        RenderTaskKind::CacheMask => DUMMY_A8,
        _ => DUMMY_RGBA8,
    }
}

pub fn target_texture(kind: RenderTaskKind) -> (t: TextureId)
    ensures
        t == spec_target_texture(kind),
{
    match kind {
        RenderTaskKind::CacheMask => DUMMY_A8,
        _ => DUMMY_RGBA8,
    }
}

/// The size of the rectangle that a task asks for: a task has one to ask for
/// when its place is still to be chosen.
pub open spec fn wanted(location: RenderTaskLocation) -> Option<(u32, u32)> {
    match location {
        RenderTaskLocation::Dynamic { width, height } => Some((width, height)),
        _ => None,
    }
}

/// A cache after the first tasks of a frame were served, and the entry of
/// each of them that got one.
pub ghost struct Layout {
    pub shelves: Seq<Shelf>,
    pub entries: Seq<CacheEntry>,
    pub places: Seq<Option<int>>,
}

/// The cache after the first `k` tasks were served in frame `frame`, each by
/// one allocation of a rectangle that may be evicted in later frames.
pub open spec fn laid_out(
    tasks: Seq<RenderTaskModel>,
    shelves: Seq<Shelf>,
    entries: Seq<CacheEntry>,
    atlas_width: int,
    max_height: int,
    frame: int,
    k: int,
) -> Layout
    decreases k,
{
    if k <= 0 {
        Layout { shelves, entries, places: Seq::empty() }
    } else {
        let before = laid_out(tasks, shelves, entries, atlas_width, max_height, frame, k - 1);
        match wanted(tasks[k - 1].location) {
            None => Layout {
                shelves: before.shelves,
                entries: before.entries,
                places: before.places.push(None),
            },
            Some(size) => {
                let made = allocation(
                    before.shelves,
                    before.entries,
                    atlas_width,
                    max_height,
                    size.0,
                    size.1,
                    spec_target_format(tasks[k - 1].kind),
                    true,
                    frame,
                );
                Layout {
                    shelves: made.shelves,
                    entries: made.entries,
                    places: before.places.push(made.index),
                }
            },
        }
    }
}

/// The indices of the entries that the handles name.
pub open spec fn place_indices(places: Seq<Option<CacheHandle>>) -> Seq<Option<int>> {
    Seq::new(
        places.len(),
        |i: int|
            match places[i] {
                Some(handle) => Some(handle.index as int),
                None => None,
            },
    )
}

/// Entry `at` is the target of `task` in frame `frame`: a live rectangle of
/// the size that the task asked for, in the atlas of its format, used in
/// that frame.
pub open spec fn holds_target(
    entries: Seq<CacheEntry>,
    at: int,
    task: RenderTaskModel,
    frame: int,
) -> bool {
    &&& 0 <= at < entries.len()
    &&& entries[at].live
    &&& entries[at].last_used == frame
    &&& entries[at].format == spec_target_format(task.kind)
    &&& wanted(task.location) == Some((entries[at].width, entries[at].height))
}

/// Asks the cache for the target of one task, in frame `frame`.
fn serve(cache: &mut TextureCache, width: u32, height: u32, format: TextureFormat, frame: FrameId) -> (place:
    Option<CacheHandle>)
    requires
        old(cache).wf(),
    ensures
        final(cache).wf(),
        final(cache).atlas_width() == old(cache).atlas_width(),
        final(cache).height_limit() == old(cache).height_limit(),
        ({
            let made = allocation(
                old(cache).shelves(),
                old(cache).entries(),
                old(cache).atlas_width(),
                old(cache).height_limit(),
                width,
                height,
                format,
                true,
                frame@,
            );
            &&& final(cache).shelves() == made.shelves
            &&& final(cache).entries() == made.entries
            &&& made.index == match place {
                Some(handle) => Some(handle.index as int),
                None => None,
            }
        }),
        old(cache).entries().len() <= final(cache).entries().len(),
        forall|i: int|
            0 <= i < old(cache).entries().len() && (#[trigger] old(cache).entries()[i]).last_used
                >= frame@ ==> final(cache).entries()[i] == old(cache).entries()[i],
        place matches Some(handle) ==> {
            let made = final(cache).entries()[handle.index as int];
            &&& handle.index == old(cache).entries().len()
            &&& handle.index < final(cache).entries().len()
            &&& made.live
            &&& made.last_used == frame@
            &&& made.format == format
            &&& made.width == width
            &&& made.height == height
        },
{
    proof {
        frame.lemma_number_is_a_word();
    }
    match cache.allocate(width, height, format, true, frame) {
        Ok(handle) => Some(handle),
        Err(_) => None,
    }
}

/// Finds room in the cache for every task of the graph whose place is still
/// to be chosen, in the order of the ids, and returns the handle of each
/// task that got room.
pub fn lay_out_targets(graph: &RenderTaskGraph, cache: &mut TextureCache, frame: FrameId) -> (places:
    Vec<Option<CacheHandle>>)
    requires
        old(cache).wf(),
    ensures
        final(cache).wf(),
        final(cache).atlas_width() == old(cache).atlas_width(),
        final(cache).height_limit() == old(cache).height_limit(),
        // The cache and the places are those of the allocations, one after
        // the other.
        ({
            let all = laid_out(
                graph@,
                old(cache).shelves(),
                old(cache).entries(),
                old(cache).atlas_width(),
                old(cache).height_limit(),
                frame@,
                graph@.len() as int,
            );
            &&& final(cache).shelves() == all.shelves
            &&& final(cache).entries() == all.entries
            &&& place_indices(places@) == all.places
        }),
        places@.len() == graph@.len(),
        // Every target that was handed out is there at the end: no target
        // of this frame made room for another.
        forall|i: int|
            0 <= i < places@.len() && (#[trigger] places@[i]) is Some ==> holds_target(
                final(cache).entries(),
                places@[i]->0.index as int,
                graph@[i],
                frame@,
            ),
        // Each target is an entry of its own, made by this call.
        forall|i: int|
            0 <= i < places@.len() && (#[trigger] places@[i]) is Some ==> places@[i]->0.index
                >= old(cache).entries().len(),
        forall|i: int, j: int|
            0 <= i < j < places@.len() && (#[trigger] places@[i]) is Some && (
            #[trigger] places@[j]) is Some ==> places@[i]->0.index < places@[j]->0.index,
        // Two targets in one atlas share no pixel.
        forall|i: int, j: int|
            0 <= i < j < places@.len() && (#[trigger] places@[i]) is Some && (
            #[trigger] places@[j]) is Some && spec_target_format(graph@[i].kind)
                == spec_target_format(graph@[j].kind) ==> !entries_overlap(
                final(cache).entries()[places@[i]->0.index as int],
                final(cache).entries()[places@[j]->0.index as int],
            ),
        // What was used in this frame before the call is still there.
        old(cache).entries().len() <= final(cache).entries().len(),
        forall|i: int|
            0 <= i < old(cache).entries().len() && (#[trigger] old(cache).entries()[i]).live && old(
                cache,
            ).entries()[i].last_used >= frame@ ==> final(cache).entries()[i] == old(
                cache,
            ).entries()[i],
{
    let ghost tasks = graph@;
    let ghost s0 = cache.shelves();
    let ghost e0 = cache.entries();
    let ghost aw = cache.atlas_width();
    let ghost mh = cache.height_limit();
    let n = graph.len();
    let mut places: Vec<Option<CacheHandle>> = Vec::new();
    let mut k: usize = 0;
    assert(place_indices(places@) =~= laid_out(tasks, s0, e0, aw, mh, frame@, 0).places);
    while k < n
        invariant
            k <= n,
            n == tasks.len(),
            tasks == graph@,
            cache.wf(),
            cache.atlas_width() == aw,
            cache.height_limit() == mh,
            places@.len() == k,
            cache.shelves() == laid_out(tasks, s0, e0, aw, mh, frame@, k as int).shelves,
            cache.entries() == laid_out(tasks, s0, e0, aw, mh, frame@, k as int).entries,
            place_indices(places@) == laid_out(tasks, s0, e0, aw, mh, frame@, k as int).places,
            e0.len() <= cache.entries().len(),
            forall|i: int|
                0 <= i < k && (#[trigger] places@[i]) is Some ==> holds_target(
                    cache.entries(),
                    places@[i]->0.index as int,
                    tasks[i],
                    frame@,
                ),
            forall|i: int|
                0 <= i < k && (#[trigger] places@[i]) is Some ==> places@[i]->0.index >= e0.len(),
            forall|i: int, j: int|
                0 <= i < j < k && (#[trigger] places@[i]) is Some && (#[trigger] places@[j]) is Some
                    ==> places@[i]->0.index < places@[j]->0.index,
            forall|i: int|
                0 <= i < e0.len() && (#[trigger] e0[i]).live && e0[i].last_used >= frame@
                    ==> cache.entries()[i] == e0[i],
        decreases n - k,
    {
        let id = RenderTaskId(k);
        let ghost before = cache.entries();
        let ghost served = places@;
        let place = match graph.location(id) {
            RenderTaskLocation::Dynamic { width, height } => serve(
                cache,
                width,
                height,
                target_format(graph.kind(id)),
                frame,
            ),
            _ => None,
        };
        places.push(place);
        proof {
            let after = cache.entries();
            assert(place_indices(places@) =~= place_indices(served).push(
                match place {
                    Some(handle) => Some(handle.index as int),
                    None => None,
                },
            ));
            // What was used in this frame was not eligible, so it stayed.
            assert forall|i: int| 0 <= i < k && (#[trigger] places@[i]) is Some implies holds_target(
                after,
                places@[i]->0.index as int,
                tasks[i],
                frame@,
            ) by {
                assert(places@[i] == served[i]);
                let at = served[i]->0.index as int;
                assert(holds_target(before, at, tasks[i], frame@));
                assert(after[at] == before[at]);
            }
            assert forall|i: int|
                0 <= i < e0.len() && (#[trigger] e0[i]).live && e0[i].last_used >= frame@ implies after[i]
                == e0[i] by {
                assert(before[i] == e0[i]);
                assert(after[i] == before[i]);
            }
            assert forall|i: int, j: int|
                0 <= i < j < k + 1 && (#[trigger] places@[i]) is Some && (
                #[trigger] places@[j]) is Some implies places@[i]->0.index < places@[j]->0.index by {
                assert(places@[i] == served[i]);
                if j < k {
                    assert(places@[j] == served[j]);
                } else {
                    assert(holds_target(before, served[i]->0.index as int, tasks[i], frame@));
                }
            }
        }
        k += 1;
    }
    proof {
        let entries = cache.entries();
        assert forall|i: int, j: int|
            0 <= i < j < places@.len() && (#[trigger] places@[i]) is Some && (
            #[trigger] places@[j]) is Some && spec_target_format(tasks[i].kind)
                == spec_target_format(tasks[j].kind) implies !entries_overlap(
            entries[places@[i]->0.index as int],
            entries[places@[j]->0.index as int],
        ) by {
            let a = places@[i]->0.index as int;
            let b = places@[j]->0.index as int;
            assert(holds_target(entries, a, tasks[i], frame@));
            assert(holds_target(entries, b, tasks[j], frame@));
            lemma_live_entries_do_not_overlap(cache.shelves(), entries, aw, mh, a, b);
        }
    }
    places
}

/// Whether the task with the shader index `task` got a target: a command
/// that draws into a task without one is left out of the frame.
pub fn has_target(places: &Vec<Option<CacheHandle>>, task: i32) -> (b: bool)
    ensures
        b == (0 <= task < places@.len() && places@[task as int] is Some),
{
    if task < 0 {
        return false;
    }
    let at: usize = task as usize;
    at < places.len() && places[at].is_some()
}

/// A command that draws into task `task` is carried out in the pass with
/// the tasks `pass` if the task runs in that pass and has a target.
pub open spec fn drawn_in(pass: Seq<int>, places: Seq<Option<CacheHandle>>, task: i32) -> bool {
    pass.contains(task as int) && 0 <= task < places.len() && places[task as int] is Some
}

/// The blur commands among the first `n` that are carried out in a pass, in
/// order.
pub open spec fn blurs_upto(
    blurs: Seq<BlurCommand>,
    pass: Seq<int>,
    places: Seq<Option<CacheHandle>>,
    n: int,
) -> Seq<BlurCommand>
    decreases n,
{
    if n <= 0 || n > blurs.len() {
        Seq::empty()
    } else if drawn_in(pass, places, blurs[n - 1].task_id) {
        blurs_upto(blurs, pass, places, n - 1).push(blurs[n - 1])
    } else {
        blurs_upto(blurs, pass, places, n - 1)
    }
}

/// The clip instances among the first `n` that are carried out in a pass,
/// in order.
pub open spec fn clips_upto(
    clips: Seq<CacheClipInstance>,
    pass: Seq<int>,
    places: Seq<Option<CacheHandle>>,
    n: int,
) -> Seq<CacheClipInstance>
    decreases n,
{
    if n <= 0 || n > clips.len() {
        Seq::empty()
    } else if drawn_in(pass, places, clips[n - 1].task_id) {
        clips_upto(clips, pass, places, n - 1).push(clips[n - 1])
    } else {
        clips_upto(clips, pass, places, n - 1)
    }
}

/// What is submitted in one pass of a frame.
pub struct PassWork {
    pub blurs: Vec<BlurCommand>,
    pub clips: Vec<CacheClipInstance>,
    /// The pass holds the task that composes the frame: the batches are
    /// drawn in it.
    pub composes: bool,
}

/// Whether the pass holds the task with the number `task`.
fn pass_holds(pass: &RenderPass, task: usize) -> (b: bool)
    ensures
        b == ids_to_ints(pass.tasks@).contains(task as int),
{
    let ghost ids = ids_to_ints(pass.tasks@);
    let mut k: usize = 0;
    while k < pass.tasks.len()
        invariant
            k <= pass.tasks@.len(),
            ids == ids_to_ints(pass.tasks@),
            forall|j: int| 0 <= j < k ==> ids[j] != task as int,
        decreases pass.tasks@.len() - k,
    {
        if pass.tasks[k].0 == task {
            assert(ids[k as int] == task as int);
            return true;
        }
        k += 1;
    }
    false
}

fn is_drawn_in(pass: &RenderPass, places: &Vec<Option<CacheHandle>>, task: i32) -> (b: bool)
    ensures
        b == drawn_in(ids_to_ints(pass.tasks@), places@, task),
{
    if !has_target(places, task) {
        return false;
    }
    let at: usize = task as usize;
    pass_holds(pass, at)
}

/// What is submitted in pass `pass` of the frame: the blur commands and the
/// clip instances of the tasks that run in it and have a target, in the
/// order of the frame, and whether the batches are drawn in it.
pub fn pass_work(frame: &Frame, pass: usize, places: &Vec<Option<CacheHandle>>) -> (work: PassWork)
    requires
        pass < frame.passes@.len(),
    ensures
        work.blurs@ == blurs_upto(
            frame.blurs@,
            ids_to_ints(frame.passes@[pass as int].tasks@),
            places@,
            frame.blurs@.len() as int,
        ),
        work.clips@ == clips_upto(
            frame.clips@,
            ids_to_ints(frame.passes@[pass as int].tasks@),
            places@,
            frame.clips@.len() as int,
        ),
        work.composes == ids_to_ints(frame.passes@[pass as int].tasks@).contains(
            frame.root.0 as int,
        ),
{
    let tasks = &frame.passes[pass];
    let ghost ids = ids_to_ints(tasks.tasks@);
    let mut blurs: Vec<BlurCommand> = Vec::new();
    let mut n: usize = 0;
    while n < frame.blurs.len()
        invariant
            n <= frame.blurs@.len(),
            ids == ids_to_ints(tasks.tasks@),
            blurs@ == blurs_upto(frame.blurs@, ids, places@, n as int),
        decreases frame.blurs@.len() - n,
    {
        if is_drawn_in(tasks, places, frame.blurs[n].task_id) {
            blurs.push(frame.blurs[n]);
        }
        n += 1;
    }
    let mut clips: Vec<CacheClipInstance> = Vec::new();
    let mut m: usize = 0;
    while m < frame.clips.len()
        invariant
            m <= frame.clips@.len(),
            ids == ids_to_ints(tasks.tasks@),
            clips@ == clips_upto(frame.clips@, ids, places@, m as int),
        decreases frame.clips@.len() - m,
    {
        if is_drawn_in(tasks, places, frame.clips[m].task_id) {
            clips.push(frame.clips[m]);
        }
        m += 1;
    }
    PassWork { blurs, clips, composes: pass_holds(tasks, frame.root.0) }
}

/// Where a task draws once its room was looked for: in the rectangle of its
/// entry, if it asked for one and got it; else where it said before.
pub open spec fn spec_resolved_location(
    kind: RenderTaskKind,
    location: RenderTaskLocation,
    entry: Option<CacheEntry>,
) -> RenderTaskLocation {
    match (location, entry) {
        (RenderTaskLocation::Dynamic { width, height }, Some(e)) => RenderTaskLocation::Atlas {
            texture: spec_target_texture(kind),
            x: e.x,
            y: e.y,
            width: e.width,
            height: e.height,
        },
        _ => location,
    }
}

pub fn resolved_location(
    kind: RenderTaskKind,
    location: RenderTaskLocation,
    entry: Option<CacheEntry>,
) -> (r: RenderTaskLocation)
    ensures
        r == spec_resolved_location(kind, location, entry),
{
    match location {
        RenderTaskLocation::Dynamic { width, height } => match entry {
            Some(e) => RenderTaskLocation::Atlas {
                texture: target_texture(kind),
                x: e.x,
                y: e.y,
                width: e.width,
                height: e.height,
            },
            None => location,
        },
        _ => location,
    }
}

} // verus!
