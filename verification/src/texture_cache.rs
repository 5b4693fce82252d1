//! The texture cache: a shelf allocator over one atlas per texture format,
//! with eviction of the least recently used entries.
//!
//! An atlas has a fixed width and grows downward, shelf by shelf, up to a
//! maximum height. An allocation goes to the first shelf of its format with
//! room for it, else to a new shelf. Where neither is possible, entries that
//! can be regenerated and were not used in the present frame are evicted, the
//! least recently used first, until the allocation fits or none is left.
//!
//! Space is handed back when the next allocation looks for room: a shelf
//! without a live entry is empty again, and where no shelf below it in its
//! atlas has a live entry either, it is closed, so that the atlas ends
//! where its last shelf in use ends.

use crate::device::FrameId;
use vstd::prelude::*;

verus! {

#[derive(Clone, Copy, Debug, PartialEq, Eq, Structural)]
pub enum TextureFormat {
    Alpha8,
    Rgba8,
    RgbaFloat,
}

/// Names an entry of the cache.
#[derive(Clone, Copy, Debug, PartialEq, Eq, Structural)]
pub struct CacheHandle {
    pub index: usize,
}

/// The allocation did not fit, even after eviction.
#[derive(Clone, Copy, Debug, PartialEq, Eq, Structural)]
pub struct OutOfSpace;

/// A horizontal strip of one atlas. Space is handed out from the left; the
/// strip is used up to `cursor`. A closed shelf takes nothing any more, and
/// its space belongs to the shelves that are opened after it was closed.
#[derive(Clone, Copy, Debug, PartialEq, Eq, Structural)]
pub struct Shelf {
    pub format: TextureFormat,
    pub y: u32,
    pub height: u32,
    pub cursor: u32,
    pub closed: bool,
}

/// An allocated rectangle. An entry that is not live was freed or evicted;
/// what it described has to be made again.
#[derive(Clone, Copy, Debug, PartialEq, Eq, Structural)]
pub struct CacheEntry {
    pub format: TextureFormat,
    pub shelf: usize,
    pub x: u32,
    pub y: u32,
    pub width: u32,
    pub height: u32,
    pub last_used: usize,
    pub evictable: bool,
    pub live: bool,
}

pub struct TextureCache {
    width: u32,
    max_height: u32,
    shelves: Vec<Shelf>,
    entries: Vec<CacheEntry>,
}

/// The shelf has room for a `w` by `h` rectangle of format `f`.
pub open spec fn shelf_fits(s: Shelf, atlas_width: int, w: int, h: int, f: TextureFormat) -> bool {
    !s.closed && s.format == f && h <= s.height && s.cursor + w <= atlas_width
}

/// The first shelf from `start` on with room, or the number of shelves.
pub open spec fn first_fit_from(
    shelves: Seq<Shelf>,
    start: int,
    atlas_width: int,
    w: int,
    h: int,
    f: TextureFormat,
) -> int
    decreases shelves.len() - start,
{
    if start < 0 || start >= shelves.len() {
        shelves.len() as int
    } else if shelf_fits(shelves[start], atlas_width, w, h, f) {
        start
    } else {
        first_fit_from(shelves, start + 1, atlas_width, w, h, f)
    }
}

/// How far down the first `n` shelves reach in the atlas of format `f`, the
/// closed ones apart.
pub open spec fn top_upto(shelves: Seq<Shelf>, f: TextureFormat, n: int) -> int
    decreases n,
{
    if n <= 0 || n > shelves.len() {
        0
    } else {
        let rest = top_upto(shelves, f, n - 1);
        let s = shelves[n - 1];
        if s.format == f && !s.closed && s.y + s.height > rest {
            s.y + s.height
        } else {
            rest
        }
    }
}

/// The height in use of the atlas of format `f`.
pub open spec fn top(shelves: Seq<Shelf>, f: TextureFormat) -> int {
    top_upto(shelves, f, shelves.len() as int)
}

/// A `w` by `h` rectangle of format `f` fits on a shelf or on a new one.
pub open spec fn can_place(
    shelves: Seq<Shelf>,
    atlas_width: int,
    max_height: int,
    w: int,
    h: int,
    f: TextureFormat,
) -> bool {
    first_fit_from(shelves, 0, atlas_width, w, h, f) < shelves.len() || (w <= atlas_width && top(
        shelves,
        f,
    ) + h <= max_height)
}

/// The entry that a placement makes.
pub open spec fn placed_entry(
    shelves: Seq<Shelf>,
    atlas_width: int,
    w: u32,
    h: u32,
    f: TextureFormat,
    frame: usize,
    evictable: bool,
) -> CacheEntry {
    let i = first_fit_from(shelves, 0, atlas_width, w as int, h as int, f);
    if i < shelves.len() {
        CacheEntry {
            format: f,
            shelf: i as usize,
            x: shelves[i].cursor,
            y: shelves[i].y,
            width: w,
            height: h,
            last_used: frame,
            evictable,
            live: true,
        }
    } else {
        CacheEntry {
            format: f,
            shelf: shelves.len() as usize,
            x: 0,
            y: top(shelves, f) as u32,
            width: w,
            height: h,
            last_used: frame,
            evictable,
            live: true,
        }
    }
}

/// The shelves after a placement.
pub open spec fn placed_shelves(
    shelves: Seq<Shelf>,
    atlas_width: int,
    w: u32,
    h: u32,
    f: TextureFormat,
) -> Seq<Shelf> {
    let i = first_fit_from(shelves, 0, atlas_width, w as int, h as int, f);
    if i < shelves.len() {
        shelves.update(
            i,
            Shelf {
                format: shelves[i].format,
                y: shelves[i].y,
                height: shelves[i].height,
                cursor: (shelves[i].cursor + w) as u32,
                closed: false,
            },
        )
    } else {
        shelves.push(
            Shelf { format: f, y: top(shelves, f) as u32, height: h, cursor: w, closed: false },
        )
    }
}

/// No live entry lies on shelf `s`.
pub open spec fn shelf_is_free(entries: Seq<CacheEntry>, s: int) -> bool {
    forall|i: int| 0 <= i < entries.len() && (#[trigger] entries[i]).live ==> entries[i].shelf != s
}

/// Every shelf of format `f` from shelf `s` on is free.
pub open spec fn free_from(
    shelves: Seq<Shelf>,
    entries: Seq<CacheEntry>,
    f: TextureFormat,
    s: int,
) -> bool {
    forall|t: int|
        s <= t < shelves.len() && (#[trigger] shelves[t]).format == f ==> shelf_is_free(entries, t)
}

/// The shelves with every free shelf handed back: its cursor is at the
/// left, and it is closed where every later shelf of its format is free
/// too.
pub open spec fn compacted(shelves: Seq<Shelf>, entries: Seq<CacheEntry>) -> Seq<Shelf> {
    Seq::new(
        shelves.len(),
        |s: int|
            if shelf_is_free(entries, s) {
                Shelf {
                    format: shelves[s].format,
                    y: shelves[s].y,
                    height: shelves[s].height,
                    cursor: 0,
                    closed: shelves[s].closed || free_from(
                        shelves,
                        entries,
                        shelves[s].format,
                        s + 1,
                    ),
                }
            } else {
                shelves[s]
            },
    )
}

/// The entry may be evicted for an allocation made in frame `frame`.
pub open spec fn eligible(e: CacheEntry, frame: int) -> bool {
    e.live && e.evictable && e.last_used < frame
}

/// Entry `a` at index `ia` goes before entry `b` at index `ib`: it was used
/// less recently, or as recently and was made earlier.
pub open spec fn older(a: CacheEntry, ia: int, b: CacheEntry, ib: int) -> bool {
    a.last_used < b.last_used || (a.last_used == b.last_used && ia < ib)
}

/// The entry, no longer live.
pub open spec fn retired(e: CacheEntry) -> CacheEntry {
    CacheEntry {
        format: e.format,
        shelf: e.shelf,
        x: e.x,
        y: e.y,
        width: e.width,
        height: e.height,
        last_used: e.last_used,
        evictable: e.evictable,
        live: false,
    }
}

/// The entries after the eviction of every eligible entry that is older than
/// `limit` at index `at`.
pub open spec fn evict_older(
    entries: Seq<CacheEntry>,
    frame: int,
    limit: CacheEntry,
    at: int,
) -> Seq<CacheEntry> {
    Seq::new(
        entries.len(),
        |i: int|
            if eligible(entries[i], frame) && older(entries[i], i, limit, at) {
                retired(entries[i])
            } else {
                entries[i]
            },
    )
}

/// The entries after the eviction of every eligible entry.
pub open spec fn evict_all(entries: Seq<CacheEntry>, frame: int) -> Seq<CacheEntry> {
    Seq::new(
        entries.len(),
        |i: int|
            if eligible(entries[i], frame) {
                retired(entries[i])
            } else {
                entries[i]
            },
    )
}

/// Entry `i` was live in `before` and is not in `after`.
pub open spec fn evicted(before: Seq<CacheEntry>, after: Seq<CacheEntry>, i: int) -> bool {
    before[i].live && !after[i].live
}

/// How many entries are eligible.
pub open spec fn eligible_count(entries: Seq<CacheEntry>, frame: int) -> nat
    decreases entries.len(),
{
    if entries.len() == 0 {
        0
    } else {
        eligible_count(entries.drop_last(), frame) + if eligible(entries.last(), frame) {
            1nat
        } else {
            0nat
        }
    }
}

/// The live entry lies within its shelf, which is not closed, left of the
/// cursor.
pub open spec fn entry_on_shelf(e: CacheEntry, shelves: Seq<Shelf>) -> bool {
    &&& e.shelf < shelves.len()
    &&& !shelves[e.shelf as int].closed
    &&& shelves[e.shelf as int].format == e.format
    &&& shelves[e.shelf as int].y == e.y
    &&& e.height <= shelves[e.shelf as int].height
    &&& e.x + e.width <= shelves[e.shelf as int].cursor
}

/// The shelves lie within the atlas, those of one format that are not closed
/// below one another in the order in which they were opened; each live entry
/// lies on its shelf, and two live entries on one shelf lie side by side.
pub open spec fn layout_wf(
    shelves: Seq<Shelf>,
    entries: Seq<CacheEntry>,
    atlas_width: int,
    max_height: int,
) -> bool {
    &&& forall|s: int|
        0 <= s < shelves.len() ==> (#[trigger] shelves[s]).cursor <= atlas_width && shelves[s].y
            + shelves[s].height <= max_height
    &&& forall|s1: int, s2: int|
        0 <= s1 < s2 < shelves.len() && (#[trigger] shelves[s1]).format == (
        #[trigger] shelves[s2]).format && !shelves[s1].closed && !shelves[s2].closed
            ==> shelves[s1].y + shelves[s1].height <= shelves[s2].y
    &&& forall|i: int|
        0 <= i < entries.len() && (#[trigger] entries[i]).live ==> entry_on_shelf(
            entries[i],
            shelves,
        )
    &&& forall|i: int, j: int|
        0 <= i < j < entries.len() && (#[trigger] entries[i]).live && (#[trigger] entries[j]).live
            && entries[i].shelf == entries[j].shelf ==> entries[i].x + entries[i].width
            <= entries[j].x || entries[j].x + entries[j].width <= entries[i].x
}

/// The rectangles of the two entries share a pixel.
pub open spec fn entries_overlap(a: CacheEntry, b: CacheEntry) -> bool {
    &&& a.x < b.x + b.width
    &&& b.x < a.x + a.width
    &&& a.y < b.y + b.height
    &&& b.y < a.y + a.height
}

/// No two live entries of one format overlap.
pub proof fn lemma_live_entries_do_not_overlap(
    shelves: Seq<Shelf>,
    entries: Seq<CacheEntry>,
    atlas_width: int,
    max_height: int,
    i: int,
    j: int,
)
    requires
        layout_wf(shelves, entries, atlas_width, max_height),
        0 <= i < entries.len(),
        0 <= j < entries.len(),
        i != j,
        entries[i].live,
        entries[j].live,
        entries[i].format == entries[j].format,
    ensures
        !entries_overlap(entries[i], entries[j]),
{
    let a = entries[i];
    let b = entries[j];
    assert(entry_on_shelf(a, shelves));
    assert(entry_on_shelf(b, shelves));
    let sa = shelves[a.shelf as int];
    let sb = shelves[b.shelf as int];
    if a.shelf == b.shelf {
        if i < j {
            assert(a.x + a.width <= b.x || b.x + b.width <= a.x);
        } else {
            assert(b.x + b.width <= a.x || a.x + a.width <= b.x);
        }
    } else if a.shelf < b.shelf {
        assert(sa.y + sa.height <= sb.y);
    } else {
        assert(sb.y + sb.height <= sa.y);
    }
}

/// Every live entry lies within the atlas.
pub proof fn lemma_live_entry_in_atlas(
    shelves: Seq<Shelf>,
    entries: Seq<CacheEntry>,
    atlas_width: int,
    max_height: int,
    i: int,
)
    requires
        layout_wf(shelves, entries, atlas_width, max_height),
        0 <= i < entries.len(),
        entries[i].live,
    ensures
        entries[i].x + entries[i].width <= atlas_width,
        entries[i].y + entries[i].height <= max_height,
{
    assert(entry_on_shelf(entries[i], shelves));
    let s = shelves[entries[i].shelf as int];
    assert(s.cursor <= atlas_width);
}

proof fn lemma_first_fit(
    shelves: Seq<Shelf>,
    start: int,
    atlas_width: int,
    w: int,
    h: int,
    f: TextureFormat,
)
    requires
        0 <= start <= shelves.len(),
    ensures
        start <= first_fit_from(shelves, start, atlas_width, w, h, f) <= shelves.len(),
        first_fit_from(shelves, start, atlas_width, w, h, f) < shelves.len() ==> shelf_fits(
            shelves[first_fit_from(shelves, start, atlas_width, w, h, f)],
            atlas_width,
            w,
            h,
            f,
        ),
        forall|j: int|
            start <= j < first_fit_from(shelves, start, atlas_width, w, h, f) ==> !shelf_fits(
                #[trigger] shelves[j],
                atlas_width,
                w,
                h,
                f,
            ),
    decreases shelves.len() - start,
{
    if start < shelves.len() && !shelf_fits(shelves[start], atlas_width, w, h, f) {
        lemma_first_fit(shelves, start + 1, atlas_width, w, h, f);
    }
}

proof fn lemma_top_bounds(shelves: Seq<Shelf>, f: TextureFormat, n: int, max_height: int)
    requires
        0 <= n <= shelves.len(),
        0 <= max_height,
        forall|s: int|
            0 <= s < shelves.len() ==> (#[trigger] shelves[s]).y + shelves[s].height <= max_height,
    ensures
        0 <= top_upto(shelves, f, n) <= max_height,
        forall|s: int|
            0 <= s < n && (#[trigger] shelves[s]).format == f && !shelves[s].closed
                ==> shelves[s].y + shelves[s].height <= top_upto(shelves, f, n),
    decreases n,
{
    if n > 0 {
        lemma_top_bounds(shelves, f, n - 1, max_height);
    }
}

/// Closing shelves does not raise the top of an atlas.
proof fn lemma_top_shrinks(a: Seq<Shelf>, b: Seq<Shelf>, f: TextureFormat, n: int)
    requires
        0 <= n <= a.len(),
        n <= b.len(),
        forall|s: int|
            0 <= s < n ==> (#[trigger] a[s]).format == b[s].format && a[s].y == b[s].y
                && a[s].height == b[s].height && (a[s].closed ==> b[s].closed),
    ensures
        0 <= top_upto(b, f, n) <= top_upto(a, f, n),
    decreases n,
{
    if n > 0 {
        lemma_top_shrinks(a, b, f, n - 1);
        assert(a[n - 1].format == b[n - 1].format);
    }
}

/// The top of an atlas lies where its last open shelf ends, or above.
proof fn lemma_top_below(shelves: Seq<Shelf>, f: TextureFormat, n: int, bound: int)
    requires
        0 <= n <= shelves.len(),
        0 <= bound,
        forall|s: int|
            0 <= s < n && (#[trigger] shelves[s]).format == f && !shelves[s].closed
                ==> shelves[s].y + shelves[s].height <= bound,
    ensures
        top_upto(shelves, f, n) <= bound,
    decreases n,
{
    if n > 0 {
        lemma_top_below(shelves, f, n - 1, bound);
    }
}

/// Handing free shelves back keeps the layout well formed.
proof fn lemma_compacted_wf(
    shelves: Seq<Shelf>,
    entries: Seq<CacheEntry>,
    atlas_width: int,
    max_height: int,
)
    requires
        layout_wf(shelves, entries, atlas_width, max_height),
        0 <= atlas_width,
    ensures
        layout_wf(compacted(shelves, entries), entries, atlas_width, max_height),
{
    let c = compacted(shelves, entries);
    assert forall|s: int| 0 <= s < c.len() implies (#[trigger] c[s]).cursor <= atlas_width && c[s].y
        + c[s].height <= max_height by {
        assert(shelves[s].cursor <= atlas_width);
    }
    assert forall|s1: int, s2: int|
        0 <= s1 < s2 < c.len() && (#[trigger] c[s1]).format == (#[trigger] c[s2]).format
            && !c[s1].closed && !c[s2].closed implies c[s1].y + c[s1].height <= c[s2].y by {
        assert(shelves[s1].format == shelves[s2].format);
        assert(!shelves[s1].closed && !shelves[s2].closed);
    }
    assert forall|i: int| 0 <= i < entries.len() && (#[trigger] entries[i]).live implies entry_on_shelf(
        entries[i],
        c,
    ) by {
        assert(entry_on_shelf(entries[i], shelves));
        assert(!shelf_is_free(entries, entries[i].shelf as int));
    }
}

/// A shelf that is free stays free when more entries are gone.
proof fn lemma_free_stays(before: Seq<CacheEntry>, after: Seq<CacheEntry>, s: int)
    requires
        before.len() == after.len(),
        forall|i: int|
            0 <= i < before.len() ==> (#[trigger] after[i]) == before[i] || after[i] == retired(
                before[i],
            ),
        shelf_is_free(before, s),
    ensures
        shelf_is_free(after, s),
{
    assert forall|i: int| 0 <= i < after.len() && (#[trigger] after[i]).live implies after[i].shelf
        != s by {
        assert(before[i].live && before[i].shelf == after[i].shelf);
    }
}

/// Compacting for fewer live entries takes back what compacting for more of
/// them did, and more.
proof fn lemma_compacted_again(
    shelves: Seq<Shelf>,
    before: Seq<CacheEntry>,
    after: Seq<CacheEntry>,
)
    requires
        before.len() == after.len(),
        forall|i: int|
            0 <= i < before.len() ==> (#[trigger] after[i]) == before[i] || after[i] == retired(
                before[i],
            ),
    ensures
        compacted(compacted(shelves, before), after) == compacted(shelves, after),
{
    let once = compacted(shelves, before);
    assert forall|s: int| 0 <= s < shelves.len() implies compacted(once, after)[s] == compacted(
        shelves,
        after,
    )[s] by {
        let f = shelves[s].format;
        if shelf_is_free(before, s) {
            lemma_free_stays(before, after, s);
        }
        if shelf_is_free(after, s) {
            // The shelves keep their formats, so the same shelves lie above.
            if free_from(once, after, f, s + 1) {
                assert forall|t: int|
                    s + 1 <= t < shelves.len() && (#[trigger] shelves[t]).format == f implies shelf_is_free(
                    after,
                    t,
                ) by {
                    assert(once[t].format == f);
                }
            }
            if free_from(shelves, after, f, s + 1) {
                assert forall|t: int|
                    s + 1 <= t < once.len() && (#[trigger] once[t]).format == f implies shelf_is_free(
                    after,
                    t,
                ) by {
                    assert(shelves[t].format == f);
                }
            }
            if free_from(shelves, before, f, s + 1) {
                assert forall|t: int|
                    s + 1 <= t < shelves.len() && (#[trigger] shelves[t]).format == f implies shelf_is_free(
                    after,
                    t,
                ) by {
                    lemma_free_stays(before, after, t);
                }
            }
        }
    }
    assert(compacted(once, after) =~= compacted(shelves, after));
}

/// What fits, fits still when more entries are gone.
proof fn lemma_can_place_after_more_evictions(
    shelves: Seq<Shelf>,
    before: Seq<CacheEntry>,
    after: Seq<CacheEntry>,
    atlas_width: int,
    max_height: int,
    w: int,
    h: int,
    f: TextureFormat,
)
    requires
        layout_wf(shelves, before, atlas_width, max_height),
        before.len() == after.len(),
        0 <= w,
        0 <= max_height,
        forall|i: int|
            0 <= i < before.len() ==> (#[trigger] after[i]) == before[i] || after[i] == retired(
                before[i],
            ),
        can_place(compacted(shelves, before), atlas_width, max_height, w, h, f),
    ensures
        can_place(compacted(shelves, after), atlas_width, max_height, w, h, f),
{
    let a = compacted(shelves, before);
    let b = compacted(shelves, after);
    let n = shelves.len() as int;
    assert forall|s: int| 0 <= s < n implies (#[trigger] a[s]).format == b[s].format && a[s].y
        == b[s].y && a[s].height == b[s].height && (a[s].closed ==> b[s].closed) by {
        if shelf_is_free(before, s) {
            lemma_free_stays(before, after, s);
            if free_from(shelves, before, shelves[s].format, s + 1) {
                assert forall|t: int|
                    s + 1 <= t < shelves.len() && (#[trigger] shelves[t]).format
                        == shelves[s].format implies shelf_is_free(after, t) by {
                    lemma_free_stays(before, after, t);
                }
            }
        }
    }
    lemma_top_shrinks(a, b, f, n);
    lemma_first_fit(a, 0, atlas_width, w, h, f);
    lemma_first_fit(b, 0, atlas_width, w, h, f);
    let i = first_fit_from(a, 0, atlas_width, w, h, f);
    if i < n {
        assert(shelf_fits(a[i], atlas_width, w, h, f));
        assert(!shelves[i].closed && shelves[i].format == f);
        if shelf_is_free(before, i) {
            lemma_free_stays(before, after, i);
        }
        if !b[i].closed {
            assert(shelf_fits(b[i], atlas_width, w, h, f));
            if first_fit_from(b, 0, atlas_width, w, h, f) >= n {
                assert(!shelf_fits(b[i], atlas_width, w, h, f));
            }
        } else {
            // Shelf `i` was closed: every shelf of its atlas from it on is
            // free, so all of them are closed, and the atlas ends where
            // shelf `i` began, or above.
            assert(shelf_is_free(after, i) && free_from(shelves, after, f, i + 1));
            let bound = shelves[i].y as int;
            assert forall|s: int|
                0 <= s < n && (#[trigger] b[s]).format == f && !b[s].closed implies b[s].y
                + b[s].height <= bound by {
                assert(shelves[s].format == f);
                if s >= i {
                    if s > i {
                        assert(shelf_is_free(after, s));
                    }
                    assert forall|t: int|
                        s + 1 <= t < shelves.len() && (#[trigger] shelves[t]).format
                            == f implies shelf_is_free(after, t) by {}
                    assert(b[s].closed);
                } else {
                    assert(!shelves[s].closed);
                    assert(shelves[s].y + shelves[s].height <= shelves[i].y);
                }
            }
            lemma_top_below(b, f, n, bound);
            assert(shelves[i].y + shelves[i].height <= max_height);
        }
    }
}

/// The entries after the evictions that make room for a `w` by `h`
/// rectangle: an eligible entry goes exactly when the rectangle would not fit
/// with every entry that goes before it gone.
pub open spec fn evicted_for(
    shelves: Seq<Shelf>,
    entries: Seq<CacheEntry>,
    atlas_width: int,
    max_height: int,
    w: int,
    h: int,
    f: TextureFormat,
    frame: int,
) -> Seq<CacheEntry> {
    Seq::new(
        entries.len(),
        |i: int|
            if eligible(entries[i], frame) && !can_place(
                compacted(shelves, evict_older(entries, frame, entries[i], i)),
                atlas_width,
                max_height,
                w,
                h,
                f,
            ) {
                retired(entries[i])
            } else {
                entries[i]
            },
    )
}

/// A cache after an allocation, and the index of the new entry if there is
/// one.
pub ghost struct Allocation {
    pub shelves: Seq<Shelf>,
    pub entries: Seq<CacheEntry>,
    pub index: Option<int>,
}

/// What an allocation makes of a cache: the evictions, the free shelves
/// handed back, and then the new entry where the rectangle fits.
pub open spec fn allocation(
    shelves: Seq<Shelf>,
    entries: Seq<CacheEntry>,
    atlas_width: int,
    max_height: int,
    w: u32,
    h: u32,
    f: TextureFormat,
    evictable: bool,
    frame: int,
) -> Allocation {
    let kept = evicted_for(shelves, entries, atlas_width, max_height, w as int, h as int, f, frame);
    let free = compacted(shelves, kept);
    if can_place(free, atlas_width, max_height, w as int, h as int, f) {
        Allocation {
            shelves: placed_shelves(free, atlas_width, w, h, f),
            entries: kept.push(placed_entry(free, atlas_width, w, h, f, frame as usize, evictable)),
            index: Some(entries.len() as int),
        }
    } else {
        Allocation { shelves: free, entries: kept, index: None }
    }
}

/// Evictions that go by age, none of them needless, and that end where the
/// rectangle fits or nothing eligible is left, are those of `evicted_for`.
proof fn lemma_evictions_are_determined(
    shelves: Seq<Shelf>,
    before: Seq<CacheEntry>,
    after: Seq<CacheEntry>,
    atlas_width: int,
    max_height: int,
    w: int,
    h: int,
    f: TextureFormat,
    frame: int,
)
    requires
        layout_wf(shelves, before, atlas_width, max_height),
        0 <= w,
        0 <= max_height,
        before.len() == after.len(),
        forall|i: int|
            0 <= i < before.len() ==> (#[trigger] after[i]) == before[i] || (eligible(
                before[i],
                frame,
            ) && after[i] == retired(before[i])),
        forall|a: int, b: int|
            0 <= a < before.len() && 0 <= b < before.len() && evicted(before, after, a) && eligible(
                #[trigger] after[b],
                frame,
            ) ==> older(#[trigger] before[a], a, before[b], b),
        forall|a: int|
            0 <= a < before.len() && evicted(before, after, a) ==> !can_place(
                compacted(shelves, evict_older(before, frame, #[trigger] before[a], a)),
                atlas_width,
                max_height,
                w,
                h,
                f,
            ),
        can_place(compacted(shelves, after), atlas_width, max_height, w, h, f) || after
            == evict_all(before, frame),
    ensures
        after == evicted_for(shelves, before, atlas_width, max_height, w, h, f, frame),
{
    let want = evicted_for(shelves, before, atlas_width, max_height, w, h, f, frame);
    assert forall|i: int| 0 <= i < before.len() implies after[i] == want[i] by {
        let fewer = evict_older(before, frame, before[i], i);
        if after[i] == before[i] {
            if eligible(before[i], frame) {
                // The entry stayed though it could have gone: the rectangle
                // fits, and fits still with all older entries gone.
                assert(after != evict_all(before, frame)) by {
                    assert(evict_all(before, frame)[i] == retired(before[i]));
                }
                lemma_evictions_keep_layout(shelves, before, after, atlas_width, max_height);
                assert forall|j: int| 0 <= j < after.len() implies (#[trigger] fewer[j]) == after[j]
                    || fewer[j] == retired(after[j]) by {
                    if after[j] != before[j] {
                        assert(evicted(before, after, j));
                        assert(eligible(after[i], frame));
                        assert(older(before[j], j, before[i], i));
                    }
                }
                lemma_can_place_after_more_evictions(
                    shelves,
                    after,
                    fewer,
                    atlas_width,
                    max_height,
                    w,
                    h,
                    f,
                );
            }
        } else {
            assert(evicted(before, after, i));
        }
    }
    assert(after =~= want);
}

/// A cache that was changed as an allocation changes it, step by step, is
/// the cache of `allocation`.
proof fn lemma_allocation_is_determined(
    shelves: Seq<Shelf>,
    before: Seq<CacheEntry>,
    made_shelves: Seq<Shelf>,
    made: Seq<CacheEntry>,
    atlas_width: int,
    max_height: int,
    w: u32,
    h: u32,
    f: TextureFormat,
    evictable: bool,
    frame: int,
    placed: bool,
)
    requires
        layout_wf(shelves, before, atlas_width, max_height),
        0 <= max_height,
        made.len() == before.len() + if placed {
            1int
        } else {
            0int
        },
        forall|i: int|
            0 <= i < before.len() ==> (#[trigger] made[i]) == before[i] || (eligible(
                before[i],
                frame,
            ) && made[i] == retired(before[i])),
        forall|a: int, b: int|
            0 <= a < before.len() && 0 <= b < before.len() && evicted(before, made, a) && eligible(
                #[trigger] made[b],
                frame,
            ) ==> older(#[trigger] before[a], a, before[b], b),
        forall|a: int|
            0 <= a < before.len() && evicted(before, made, a) ==> !can_place(
                compacted(shelves, evict_older(before, frame, #[trigger] before[a], a)),
                atlas_width,
                max_height,
                w as int,
                h as int,
                f,
            ),
        placed ==> {
            let kept = made.subrange(0, before.len() as int);
            let free = compacted(shelves, kept);
            &&& can_place(free, atlas_width, max_height, w as int, h as int, f)
            &&& made_shelves == placed_shelves(free, atlas_width, w, h, f)
            &&& made[before.len() as int] == placed_entry(
                free,
                atlas_width,
                w,
                h,
                f,
                frame as usize,
                evictable,
            )
        },
        !placed ==> made_shelves == compacted(shelves, made) && made == evict_all(before, frame),
        placed <==> can_place(
            compacted(shelves, evict_all(before, frame)),
            atlas_width,
            max_height,
            w as int,
            h as int,
            f,
        ),
    ensures
        made_shelves == allocation(
            shelves,
            before,
            atlas_width,
            max_height,
            w,
            h,
            f,
            evictable,
            frame,
        ).shelves,
        made == allocation(
            shelves,
            before,
            atlas_width,
            max_height,
            w,
            h,
            f,
            evictable,
            frame,
        ).entries,
        allocation(shelves, before, atlas_width, max_height, w, h, f, evictable, frame).index == if placed {
            Some(before.len() as int)
        } else {
            None
        },
{
    let n = before.len() as int;
    let kept = made.subrange(0, n);
    assert forall|i: int| 0 <= i < n implies (#[trigger] kept[i]) == before[i] || (eligible(
        before[i],
        frame,
    ) && kept[i] == retired(before[i])) by {
        assert(kept[i] == made[i]);
    }
    assert forall|a: int, b: int|
        0 <= a < n && 0 <= b < n && evicted(before, kept, a) && eligible(
            #[trigger] kept[b],
            frame,
        ) implies older(#[trigger] before[a], a, before[b], b) by {
        assert(kept[a] == made[a] && kept[b] == made[b]);
        assert(evicted(before, made, a));
    }
    assert forall|a: int| 0 <= a < n && evicted(before, kept, a) implies !can_place(
        compacted(shelves, evict_older(before, frame, #[trigger] before[a], a)),
        atlas_width,
        max_height,
        w as int,
        h as int,
        f,
    ) by {
        assert(kept[a] == made[a]);
        assert(evicted(before, made, a));
    }
    if !placed {
        assert(kept =~= made);
    }
    lemma_evictions_are_determined(
        shelves,
        before,
        kept,
        atlas_width,
        max_height,
        w as int,
        h as int,
        f,
        frame,
    );
    if placed {
        assert(made =~= kept.push(made[n]));
    }
}

/// Evictions keep the layout well formed.
proof fn lemma_evictions_keep_layout(
    shelves: Seq<Shelf>,
    before: Seq<CacheEntry>,
    after: Seq<CacheEntry>,
    atlas_width: int,
    max_height: int,
)
    requires
        layout_wf(shelves, before, atlas_width, max_height),
        before.len() == after.len(),
        forall|i: int|
            0 <= i < before.len() ==> (#[trigger] after[i]) == before[i] || (after[i] == retired(
                before[i],
            )),
    ensures
        layout_wf(shelves, after, atlas_width, max_height),
{
    assert forall|i: int| 0 <= i < after.len() && (#[trigger] after[i]).live implies entry_on_shelf(
        after[i],
        shelves,
    ) by {
        assert(before[i].live);
    }
    assert forall|i: int, j: int|
        0 <= i < j < after.len() && (#[trigger] after[i]).live && (#[trigger] after[j]).live
            && after[i].shelf == after[j].shelf implies after[i].x + after[i].width <= after[j].x
        || after[j].x + after[j].width <= after[i].x by {
        assert(before[i].live && before[j].live);
    }
}

/// Taking one live entry out keeps the layout well formed.
proof fn lemma_retired_wf(
    shelves: Seq<Shelf>,
    entries: Seq<CacheEntry>,
    atlas_width: int,
    max_height: int,
    c: int,
)
    requires
        layout_wf(shelves, entries, atlas_width, max_height),
        0 <= c < entries.len(),
    ensures
        layout_wf(shelves, entries.update(c, retired(entries[c])), atlas_width, max_height),
{
    let after = entries.update(c, retired(entries[c]));
    assert forall|i: int| 0 <= i < after.len() && (#[trigger] after[i]).live implies entry_on_shelf(
        after[i],
        shelves,
    ) by {
        assert(entries[i].live);
    }
    assert forall|i: int, j: int|
        0 <= i < j < after.len() && (#[trigger] after[i]).live && (#[trigger] after[j]).live
            && after[i].shelf == after[j].shelf implies after[i].x + after[i].width <= after[j].x
        || after[j].x + after[j].width <= after[i].x by {
        assert(entries[i].live && entries[j].live);
    }
}

/// Taking one eligible entry out leaves one eligible entry fewer.
proof fn lemma_eligible_count_drops(entries: Seq<CacheEntry>, frame: int, c: int)
    requires
        0 <= c < entries.len(),
        eligible(entries[c], frame),
    ensures
        eligible_count(entries.update(c, retired(entries[c])), frame) + 1 == eligible_count(
            entries,
            frame,
        ),
    decreases entries.len(),
{
    let after = entries.update(c, retired(entries[c]));
    if c == entries.len() - 1 {
        assert(after.drop_last() =~= entries.drop_last());
    } else {
        lemma_eligible_count_drops(entries.drop_last(), frame, c);
        assert(after.drop_last() =~= entries.drop_last().update(
            c,
            retired(entries.drop_last()[c]),
        ));
    }
}

/// Without an eligible entry the count is 0, and the other way round.
proof fn lemma_eligible_count_zero(entries: Seq<CacheEntry>, frame: int)
    ensures
        eligible_count(entries, frame) == 0 <==> (forall|i: int|
            0 <= i < entries.len() ==> !eligible(#[trigger] entries[i], frame)),
    decreases entries.len(),
{
    if entries.len() > 0 {
        lemma_eligible_count_zero(entries.drop_last(), frame);
        let rest = entries.drop_last();
        if eligible_count(entries, frame) == 0 {
            assert forall|i: int| 0 <= i < entries.len() implies !eligible(
                #[trigger] entries[i],
                frame,
            ) by {
                if i < entries.len() - 1 {
                    assert(rest[i] == entries[i]);
                }
            }
        }
        if forall|i: int| 0 <= i < entries.len() ==> !eligible(#[trigger] entries[i], frame) {
            assert forall|i: int| 0 <= i < rest.len() implies !eligible(#[trigger] rest[i], frame) by {
                assert(rest[i] == entries[i]);
            }
            assert(!eligible(entries[entries.len() - 1], frame));
        }
    }
}

/// A placement keeps the layout well formed.
proof fn lemma_placed_wf(
    shelves: Seq<Shelf>,
    entries: Seq<CacheEntry>,
    atlas_width: int,
    max_height: int,
    w: u32,
    h: u32,
    f: TextureFormat,
    frame: usize,
    evictable: bool,
)
    requires
        layout_wf(shelves, entries, atlas_width, max_height),
        0 <= atlas_width <= u32::MAX,
        0 <= max_height <= u32::MAX,
        shelves.len() <= usize::MAX,
        can_place(shelves, atlas_width, max_height, w as int, h as int, f),
    ensures
        layout_wf(
            placed_shelves(shelves, atlas_width, w, h, f),
            entries.push(placed_entry(shelves, atlas_width, w, h, f, frame, evictable)),
            atlas_width,
            max_height,
        ),
{
    let i = first_fit_from(shelves, 0, atlas_width, w as int, h as int, f);
    let ps = placed_shelves(shelves, atlas_width, w, h, f);
    let e = placed_entry(shelves, atlas_width, w, h, f, frame, evictable);
    let pe = entries.push(e);
    lemma_first_fit(shelves, 0, atlas_width, w as int, h as int, f);
    lemma_top_bounds(shelves, f, shelves.len() as int, max_height);
    if i < shelves.len() {
        assert(shelf_fits(shelves[i], atlas_width, w as int, h as int, f));
        assert forall|s: int| 0 <= s < ps.len() implies (#[trigger] ps[s]).cursor <= atlas_width
            && ps[s].y + ps[s].height <= max_height by {
            assert(shelves[s].cursor <= atlas_width);
        }
        assert forall|s1: int, s2: int|
            0 <= s1 < s2 < ps.len() && (#[trigger] ps[s1]).format == (
            #[trigger] ps[s2]).format && !ps[s1].closed && !ps[s2].closed implies ps[s1].y
            + ps[s1].height <= ps[s2].y by {
            assert(shelves[s1].format == shelves[s2].format);
            assert(!shelves[s1].closed && !shelves[s2].closed);
        }
        assert forall|k: int| 0 <= k < pe.len() && (#[trigger] pe[k]).live implies entry_on_shelf(
            pe[k],
            ps,
        ) by {
            if k < entries.len() {
                assert(entry_on_shelf(entries[k], shelves));
            }
        }
        assert forall|k: int, j: int|
            0 <= k < j < pe.len() && (#[trigger] pe[k]).live && (#[trigger] pe[j]).live
                && pe[k].shelf == pe[j].shelf implies pe[k].x + pe[k].width <= pe[j].x || pe[j].x
            + pe[j].width <= pe[k].x by {
            assert(entries[k].live);
            assert(entry_on_shelf(entries[k], shelves));
            if j < entries.len() {
                assert(entries[j].live);
            }
        }
    } else {
        assert forall|s: int| 0 <= s < ps.len() implies (#[trigger] ps[s]).cursor <= atlas_width
            && ps[s].y + ps[s].height <= max_height by {
            if s < shelves.len() {
                assert(shelves[s].cursor <= atlas_width);
            }
        }
        assert forall|s1: int, s2: int|
            0 <= s1 < s2 < ps.len() && (#[trigger] ps[s1]).format == (
            #[trigger] ps[s2]).format && !ps[s1].closed && !ps[s2].closed implies ps[s1].y
            + ps[s1].height <= ps[s2].y by {
            if s2 < shelves.len() {
                assert(shelves[s1].format == shelves[s2].format);
                assert(!shelves[s1].closed && !shelves[s2].closed);
            } else {
                assert(shelves[s1].format == f && !shelves[s1].closed);
            }
        }
        assert forall|k: int| 0 <= k < pe.len() && (#[trigger] pe[k]).live implies entry_on_shelf(
            pe[k],
            ps,
        ) by {
            if k < entries.len() {
                assert(entry_on_shelf(entries[k], shelves));
            }
        }
        assert forall|k: int, j: int|
            0 <= k < j < pe.len() && (#[trigger] pe[k]).live && (#[trigger] pe[j]).live
                && pe[k].shelf == pe[j].shelf implies pe[k].x + pe[k].width <= pe[j].x || pe[j].x
            + pe[j].width <= pe[k].x by {
            assert(entries[k].live);
            assert(entry_on_shelf(entries[k], shelves));
            if j < entries.len() {
                assert(entries[j].live);
            }
        }
    }
}

impl TextureCache {
    /// The shelves, in the order in which they were opened.
    pub closed spec fn shelves(&self) -> Seq<Shelf> {
        self.shelves@
    }

    /// The entries, in the order in which they were made; a handle holds the
    /// index of its entry.
    pub closed spec fn entries(&self) -> Seq<CacheEntry> {
        self.entries@
    }

    /// The width of every atlas.
    pub closed spec fn atlas_width(&self) -> int {
        self.width as int
    }

    /// The height that no atlas grows beyond.
    pub closed spec fn height_limit(&self) -> int {
        self.max_height as int
    }

    pub open spec fn wf(&self) -> bool {
        layout_wf(self.shelves(), self.entries(), self.atlas_width(), self.height_limit())
    }

    /// An empty cache with atlases `width` wide that grow to `max_height`.
    pub fn new(width: u32, max_height: u32) -> (c: TextureCache)
        ensures
            c.wf(),
            c.atlas_width() == width,
            c.height_limit() == max_height,
            c.shelves().len() == 0,
            c.entries().len() == 0,
    {
        TextureCache { width, max_height, shelves: Vec::new(), entries: Vec::new() }
    }

    pub fn width(&self) -> (w: u32)
        ensures
            w == self.atlas_width(),
    {
        self.width
    }

    pub fn max_height(&self) -> (h: u32)
        ensures
            h == self.height_limit(),
    {
        self.max_height
    }

    /// How many entries were made, the dead ones included.
    pub fn len(&self) -> (n: usize)
        ensures
            n == self.entries().len(),
    {
        self.entries.len()
    }

    /// The entry behind a handle, if it is live. A caller that gets nothing
    /// has to make the content again.
    pub fn get(&self, handle: CacheHandle) -> (r: Option<CacheEntry>)
        ensures
            r == if handle.index < self.entries().len() && self.entries()[handle.index as int].live {
                Some(self.entries()[handle.index as int])
            } else {
                None
            },
    {
        if handle.index < self.entries.len() && self.entries[handle.index].live {
            Some(self.entries[handle.index])
        } else {
            None
        }
    }

    /// The height that the atlas of a format needs to hold its shelves.
    pub fn used_height(&self, format: TextureFormat) -> (h: u32)
        requires
            self.wf(),
        ensures
            h == top(self.shelves(), format),
            h <= self.height_limit(),
    {
        proof {
            lemma_top_bounds(
                self.shelves@,
                format,
                self.shelves@.len() as int,
                self.max_height as int,
            );
        }
        let t = self.top_of(format);
        t as u32
    }

    fn top_of(&self, format: TextureFormat) -> (t: u64)
        ensures
            t == top(self.shelves@, format),
            t <= 2 * u32::MAX,
    {
        let mut best: u64 = 0;
        let mut n: usize = 0;
        while n < self.shelves.len()
            invariant
                n <= self.shelves@.len(),
                best == top_upto(self.shelves@, format, n as int),
                best <= 2 * u32::MAX,
            decreases self.shelves@.len() - n,
        {
            let s = self.shelves[n];
            let end: u64 = s.y as u64 + s.height as u64;
            if s.format == format && !s.closed && end > best {
                best = end;
            }
            n += 1;
        }
        best
    }

    fn find_fit(&self, w: u32, h: u32, format: TextureFormat) -> (r: Option<usize>)
        ensures
            r matches Some(i) ==> i < self.shelves@.len() && i == first_fit_from(
                self.shelves@,
                0,
                self.width as int,
                w as int,
                h as int,
                format,
            ),
            r is None ==> first_fit_from(
                self.shelves@,
                0,
                self.width as int,
                w as int,
                h as int,
                format,
            ) == self.shelves@.len(),
    {
        let mut i: usize = 0;
        while i < self.shelves.len()
            invariant
                i <= self.shelves@.len(),
                first_fit_from(self.shelves@, 0, self.width as int, w as int, h as int, format)
                    == first_fit_from(
                    self.shelves@,
                    i as int,
                    self.width as int,
                    w as int,
                    h as int,
                    format,
                ),
            decreases self.shelves@.len() - i,
        {
            let s = self.shelves[i];
            if !s.closed && s.format == format && h <= s.height && s.cursor as u64 + w as u64
                <= self.width as u64 {
                return Some(i);
            }
            i += 1;
        }
        None
    }

    /// Whether a rectangle fits as the layout stands, without eviction.
    pub fn fits(&self, w: u32, h: u32, format: TextureFormat) -> (b: bool)
        ensures
            b == can_place(
                self.shelves(),
                self.atlas_width(),
                self.height_limit(),
                w as int,
                h as int,
                format,
            ),
    {
        match self.find_fit(w, h, format) {
            Some(_) => true,
            None => {
                let t = self.top_of(format);
                w <= self.width && t + h as u64 <= self.max_height as u64
            },
        }
    }

    /// Whether no live entry lies on a shelf.
    fn is_free(&self, s: usize) -> (free: bool)
        ensures
            free == shelf_is_free(self.entries@, s as int),
    {
        let mut i: usize = 0;
        while i < self.entries.len()
            invariant
                i <= self.entries@.len(),
                forall|k: int|
                    0 <= k < i && (#[trigger] self.entries@[k]).live ==> self.entries@[k].shelf != s,
            decreases self.entries@.len() - i,
        {
            if self.entries[i].live && self.entries[i].shelf == s {
                return false;
            }
            i += 1;
        }
        true
    }

    /// Hands every shelf without a live entry back. The shelves are walked
    /// from the last to the first, so that it is known of each whether a
    /// shelf of its atlas that comes after it is still in use.
    fn compact(&mut self)
        ensures
            final(self).shelves@ == compacted(old(self).shelves@, old(self).entries@),
            final(self).entries@ == old(self).entries@,
            final(self).width == old(self).width,
            final(self).max_height == old(self).max_height,
    {
        let ghost start = self.shelves@;
        let mut alpha_free = true;
        let mut rgba_free = true;
        let mut float_free = true;
        let mut s: usize = self.shelves.len();
        while s > 0
            invariant
                s <= self.shelves@.len(),
                self.shelves@.len() == start.len(),
                self.entries@ == old(self).entries@,
                self.width == old(self).width,
                self.max_height == old(self).max_height,
                start == old(self).shelves@,
                alpha_free == free_from(start, self.entries@, TextureFormat::Alpha8, s as int),
                rgba_free == free_from(start, self.entries@, TextureFormat::Rgba8, s as int),
                float_free == free_from(start, self.entries@, TextureFormat::RgbaFloat, s as int),
                forall|t: int|
                    s <= t < start.len() ==> self.shelves@[t] == compacted(start, self.entries@)[t],
                forall|t: int| 0 <= t < s ==> self.shelves@[t] == start[t],
            decreases s,
        {
            s -= 1;
            let shelf = self.shelves[s];
            let free = self.is_free(s);
            let above = match shelf.format {
                TextureFormat::Alpha8 => alpha_free,
                TextureFormat::Rgba8 => rgba_free,
                TextureFormat::RgbaFloat => float_free,
            };
            assert(above == free_from(start, self.entries@, shelf.format, s + 1));
            if free {
                self.shelves.set(
                    s,
                    Shelf {
                        format: shelf.format,
                        y: shelf.y,
                        height: shelf.height,
                        cursor: 0,
                        closed: shelf.closed || above,
                    },
                );
            } else {
                match shelf.format {
                    TextureFormat::Alpha8 => {
                        alpha_free = false;
                    },
                    TextureFormat::Rgba8 => {
                        rgba_free = false;
                    },
                    TextureFormat::RgbaFloat => {
                        float_free = false;
                    },
                }
            }
            proof {
                let e = self.entries@;
                assert(start[s as int] == shelf);
                assert forall|f: TextureFormat|
                    free_from(start, e, f, s as int) == (free_from(start, e, f, s + 1) && (
                    shelf.format == f ==> free)) by {
                    if free_from(start, e, f, s + 1) && (shelf.format == f ==> free) {
                        assert forall|t: int|
                            s <= t < start.len() && (#[trigger] start[t]).format
                                == f implies shelf_is_free(e, t) by {}
                    }
                    if free_from(start, e, f, s as int) {
                        assert(start[s as int].format == f ==> shelf_is_free(e, s as int));
                    }
                }
            }
        }
        assert(self.shelves@ =~= compacted(start, self.entries@));
    }

    /// The eligible entry that goes before every other eligible entry.
    fn lru_candidate(&self, frame: usize) -> (r: Option<usize>)
        ensures
            r matches Some(c) ==> c < self.entries@.len() && eligible(
                self.entries@[c as int],
                frame as int,
            ) && forall|i: int|
                0 <= i < self.entries@.len() && i != c && eligible(
                    #[trigger] self.entries@[i],
                    frame as int,
                ) ==> older(self.entries@[c as int], c as int, self.entries@[i], i),
            r is None ==> forall|i: int|
                0 <= i < self.entries@.len() ==> !eligible(
                    #[trigger] self.entries@[i],
                    frame as int,
                ),
    {
        let mut best: Option<usize> = None;
        let mut i: usize = 0;
        while i < self.entries.len()
            invariant
                i <= self.entries@.len(),
                best matches Some(c) ==> c < i && eligible(self.entries@[c as int], frame as int)
                    && forall|k: int|
                    0 <= k < i && k != c && eligible(#[trigger] self.entries@[k], frame as int)
                        ==> older(self.entries@[c as int], c as int, self.entries@[k], k),
                best is None ==> forall|k: int|
                    0 <= k < i ==> !eligible(#[trigger] self.entries@[k], frame as int),
            decreases self.entries@.len() - i,
        {
            let e = self.entries[i];
            if e.live && e.evictable && e.last_used < frame {
                match best {
                    None => {
                        best = Some(i);
                    },
                    Some(c) => {
                        if e.last_used < self.entries[c].last_used {
                            best = Some(i);
                        }
                    },
                }
            }
            i += 1;
        }
        best
    }

    /// Allocates a `width` by `height` rectangle in the atlas of `format`, for
    /// the frame `frame`. Free shelves are handed back first. While the
    /// rectangle does not fit, the eligible entry that goes before the others
    /// is evicted: one that is live, may be evicted and was last used before
    /// `frame`. The call fails when no such entry is left; what was evicted
    /// stays evicted.
    pub fn allocate(
        &mut self,
        width: u32,
        height: u32,
        format: TextureFormat,
        evictable: bool,
        frame: FrameId,
    ) -> (r: Result<CacheHandle, OutOfSpace>)
        requires
            old(self).wf(),
        ensures
            final(self).wf(),
            final(self).atlas_width() == old(self).atlas_width(),
            final(self).height_limit() == old(self).height_limit(),
            // Success is owed exactly where the rectangle fits once every
            // eligible entry is gone.
            r is Ok <==> can_place(
                compacted(old(self).shelves(), evict_all(old(self).entries(), frame@)),
                old(self).atlas_width(),
                old(self).height_limit(),
                width as int,
                height as int,
                format,
            ),
            // Old entries stay as they were, but for the evicted ones.
            final(self).entries().len() == old(self).entries().len() + if r is Ok {
                1int
            } else {
                0int
            },
            forall|i: int|
                0 <= i < old(self).entries().len() ==> (#[trigger] final(self).entries()[i]) == old(self).entries()[i] || (eligible(old(self).entries()[i], frame@) && final(self).entries()[i] == retired(old(self).entries()[i])),
            // Whatever was evicted goes before whatever eligible entry stayed.
            forall|a: int, b: int|
                0 <= a < old(self).entries().len() && 0 <= b < old(self).entries().len() && evicted(
                    old(self).entries(),
                    final(self).entries(),
                    a,
                ) && eligible(#[trigger] final(self).entries()[b], frame@) ==> older(
                    #[trigger] old(self).entries()[a],
                    a,
                    old(self).entries()[b],
                    b,
                ),
            // Nothing was evicted needlessly: without an evicted entry and
            // those after it, the rectangle would not have fit.
            forall|a: int|
                0 <= a < old(self).entries().len() && evicted(
                    old(self).entries(),
                    final(self).entries(),
                    a,
                ) ==> !can_place(
                    compacted(
                        old(self).shelves(),
                        evict_older(
                            old(self).entries(),
                            frame@,
                            #[trigger] old(self).entries()[a],
                            a,
                        ),
                    ),
                    old(self).atlas_width(),
                    old(self).height_limit(),
                    width as int,
                    height as int,
                    format,
                ),
            r matches Ok(handle) ==> {
                let kept = final(self).entries().subrange(0, old(self).entries().len() as int);
                let shelves = compacted(old(self).shelves(), kept);
                &&& handle.index == old(self).entries().len()
                &&& final(self).shelves() == placed_shelves(
                    shelves,
                    old(self).atlas_width(),
                    width,
                    height,
                    format,
                )
                &&& final(self).entries()[handle.index as int] == placed_entry(
                    shelves,
                    old(self).atlas_width(),
                    width,
                    height,
                    format,
                    frame@ as usize,
                    evictable,
                )
            },
            r is Err ==> final(self).shelves() == compacted(
                old(self).shelves(),
                final(self).entries(),
            ) && final(self).entries() == evict_all(old(self).entries(), frame@),
            // All in one: the cache is what the allocation makes of it.
            ({
                let made = allocation(
                    old(self).shelves(),
                    old(self).entries(),
                    old(self).atlas_width(),
                    old(self).height_limit(),
                    width,
                    height,
                    format,
                    evictable,
                    frame@,
                );
                &&& final(self).shelves() == made.shelves
                &&& final(self).entries() == made.entries
                &&& match r {
                    Ok(handle) => made.index == Some(handle.index as int),
                    Err(_) => made.index is None,
                }
            }),
    {
        let ghost s0 = self.shelves@;
        let ghost e0 = self.entries@;
        let r = self.evict_and_place(width, height, format, evictable, frame);
        proof {
            lemma_allocation_is_determined(
                s0,
                e0,
                self.shelves@,
                self.entries@,
                self.width as int,
                self.max_height as int,
                width,
                height,
                format,
                evictable,
                frame@,
                r is Ok,
            );
        }
        r
    }

    /// Hands back the free shelves, evicts by age until the rectangle fits or
    /// nothing eligible is left, and places the rectangle if it fits.
    fn evict_and_place(
        &mut self,
        width: u32,
        height: u32,
        format: TextureFormat,
        evictable: bool,
        frame: FrameId,
    ) -> (r: Result<CacheHandle, OutOfSpace>)
        requires
            old(self).wf(),
        ensures
            final(self).wf(),
            final(self).atlas_width() == old(self).atlas_width(),
            final(self).height_limit() == old(self).height_limit(),
            // Success is owed exactly where the rectangle fits once every
            // eligible entry is gone.
            r is Ok <==> can_place(
                compacted(old(self).shelves(), evict_all(old(self).entries(), frame@)),
                old(self).atlas_width(),
                old(self).height_limit(),
                width as int,
                height as int,
                format,
            ),
            // Old entries stay as they were, but for the evicted ones.
            final(self).entries().len() == old(self).entries().len() + if r is Ok {
                1int
            } else {
                0int
            },
            forall|i: int|
                0 <= i < old(self).entries().len() ==> (#[trigger] final(self).entries()[i]) == old(self).entries()[i] || (eligible(old(self).entries()[i], frame@) && final(self).entries()[i] == retired(old(self).entries()[i])),
            // Whatever was evicted goes before whatever eligible entry stayed.
            forall|a: int, b: int|
                0 <= a < old(self).entries().len() && 0 <= b < old(self).entries().len() && evicted(
                    old(self).entries(),
                    final(self).entries(),
                    a,
                ) && eligible(#[trigger] final(self).entries()[b], frame@) ==> older(
                    #[trigger] old(self).entries()[a],
                    a,
                    old(self).entries()[b],
                    b,
                ),
            // Nothing was evicted needlessly: without an evicted entry and
            // those after it, the rectangle would not have fit.
            forall|a: int|
                0 <= a < old(self).entries().len() && evicted(
                    old(self).entries(),
                    final(self).entries(),
                    a,
                ) ==> !can_place(
                    compacted(
                        old(self).shelves(),
                        evict_older(
                            old(self).entries(),
                            frame@,
                            #[trigger] old(self).entries()[a],
                            a,
                        ),
                    ),
                    old(self).atlas_width(),
                    old(self).height_limit(),
                    width as int,
                    height as int,
                    format,
                ),
            r matches Ok(handle) ==> {
                let kept = final(self).entries().subrange(0, old(self).entries().len() as int);
                let shelves = compacted(old(self).shelves(), kept);
                &&& handle.index == old(self).entries().len()
                &&& final(self).shelves() == placed_shelves(
                    shelves,
                    old(self).atlas_width(),
                    width,
                    height,
                    format,
                )
                &&& final(self).entries()[handle.index as int] == placed_entry(
                    shelves,
                    old(self).atlas_width(),
                    width,
                    height,
                    format,
                    frame@ as usize,
                    evictable,
                )
            },
            r is Err ==> final(self).shelves() == compacted(
                old(self).shelves(),
                final(self).entries(),
            ) && final(self).entries() == evict_all(old(self).entries(), frame@),
            r is Ok ==> can_place(
                compacted(
                    old(self).shelves(),
                    final(self).entries().subrange(0, old(self).entries().len() as int),
                ),
                old(self).atlas_width(),
                old(self).height_limit(),
                width as int,
                height as int,
                format,
            ),
    {
        let f = frame.as_usize();
        let ghost s0 = self.shelves@;
        let ghost e0 = self.entries@;
        let ghost aw = self.width as int;
        let ghost mh = self.max_height as int;
        let ghost w = width as int;
        let ghost h = height as int;
        let n = self.entries.len();
        let nshelves = self.shelves.len();
        proof {
            lemma_compacted_wf(s0, e0, aw, mh);
        }
        self.compact();
        loop
            invariant
                self.width == aw,
                self.max_height == mh,
                old(self).width == aw,
                old(self).max_height == mh,
                s0 == old(self).shelves@,
                e0 == old(self).entries@,
                f == frame@,
                w == width,
                h == height,
                n == e0.len(),
                nshelves == s0.len(),
                layout_wf(s0, e0, aw, mh),
                layout_wf(self.shelves@, self.entries@, aw, mh),
                self.entries@.len() == n,
                self.shelves@ == compacted(s0, self.entries@),
                forall|i: int|
                    0 <= i < n ==> (#[trigger] self.entries@[i]) == e0[i] || (eligible(e0[i], f as int)
                        && self.entries@[i] == retired(e0[i])),
                forall|a: int, b: int|
                    0 <= a < n && 0 <= b < n && evicted(e0, self.entries@, a) && eligible(
                        #[trigger] self.entries@[b],
                        f as int,
                    ) ==> older(#[trigger] e0[a], a, e0[b], b),
                forall|a: int|
                    0 <= a < n && evicted(e0, self.entries@, a) ==> !can_place(
                        compacted(s0, evict_older(e0, f as int, #[trigger] e0[a], a)),
                        aw,
                        mh,
                        w,
                        h,
                        format,
                    ),
            decreases eligible_count(self.entries@, f as int),
        {
            let ghost e = self.entries@;
            let shelf_count = self.shelves.len();
            if self.fits(width, height, format) {
                proof {
                    lemma_placed_wf(self.shelves@, e, aw, mh, width, height, format, f, evictable);
                    assert forall|i: int| 0 <= i < n implies (#[trigger] evict_all(e0, f as int)[i])
                        == e[i] || evict_all(e0, f as int)[i] == retired(e[i]) by {}
                    lemma_can_place_after_more_evictions(
                        s0,
                        e,
                        evict_all(e0, f as int),
                        aw,
                        mh,
                        w,
                        h,
                        format,
                    );
                }
                let handle = self.place(width, height, format, f, evictable);
                proof {
                    assert(self.entries@.subrange(0, n as int) =~= e);
                }
                return Ok(handle);
            }
            match self.lru_candidate(f) {
                None => {
                    proof {
                        assert(e =~= evict_all(e0, f as int));
                    }
                    return Err(OutOfSpace);
                },
                Some(c) => {
                    proof {
                        assert(e[c as int] == e0[c as int]);
                        assert forall|i: int| 0 <= i < n implies e[i] == evict_older(
                            e0,
                            f as int,
                            e0[c as int],
                            c as int,
                        )[i] by {
                            if eligible(e0[i], f as int) && older(e0[i], i, e0[c as int], c as int) {
                                if e[i] == e0[i] {
                                    assert(eligible(e[i], f as int));
                                    assert(older(e[c as int], c as int, e[i], i));
                                }
                            } else {
                                if e[i] != e0[i] {
                                    assert(evicted(e0, e, i));
                                    assert(eligible(e[c as int], f as int));
                                    assert(older(e0[i], i, e0[c as int], c as int));
                                }
                            }
                        }
                        assert(e =~= evict_older(e0, f as int, e0[c as int], c as int));
                        lemma_retired_wf(self.shelves@, e, aw, mh, c as int);
                        lemma_eligible_count_drops(e, f as int, c as int);
                    }
                    let victim = self.entries[c];
                    self.entries.set(
                        c,
                        CacheEntry {
                            format: victim.format,
                            shelf: victim.shelf,
                            x: victim.x,
                            y: victim.y,
                            width: victim.width,
                            height: victim.height,
                            last_used: victim.last_used,
                            evictable: victim.evictable,
                            live: false,
                        },
                    );
                    proof {
                        let after = self.entries@;
                        assert(after == e.update(c as int, retired(e[c as int])));
                        lemma_compacted_wf(self.shelves@, after, aw, mh);
                        assert forall|i: int| 0 <= i < n implies (#[trigger] after[i]) == e[i]
                            || after[i] == retired(e[i]) by {}
                        lemma_compacted_again(s0, e, after);
                        assert forall|a: int, b: int|
                            0 <= a < n && 0 <= b < n && evicted(e0, after, a) && eligible(
                                #[trigger] after[b],
                                f as int,
                            ) implies older(#[trigger] e0[a], a, e0[b], b) by {
                            assert(after[b] == e[b]);
                            assert(eligible(e[b], f as int));
                            if a == c {
                                assert(older(e[c as int], c as int, e[b], b));
                            } else {
                                assert(evicted(e0, e, a));
                            }
                        }
                        assert forall|a: int| 0 <= a < n && evicted(e0, after, a) implies !can_place(
                            compacted(s0, evict_older(e0, f as int, #[trigger] e0[a], a)),
                            aw,
                            mh,
                            w,
                            h,
                            format,
                        ) by {
                            if a != c {
                                assert(evicted(e0, e, a));
                            }
                        }
                    }
                    self.compact();
                },
            }
        }
    }

    /// Puts a rectangle that fits on the first shelf with room, else on a new
    /// shelf.
    fn place(&mut self, w: u32, h: u32, format: TextureFormat, frame: usize, evictable: bool) -> (r:
        CacheHandle)
        requires
            layout_wf(
                old(self).shelves@,
                old(self).entries@,
                old(self).width as int,
                old(self).max_height as int,
            ),
            can_place(
                old(self).shelves@,
                old(self).width as int,
                old(self).max_height as int,
                w as int,
                h as int,
                format,
            ),
        ensures
            final(self).width == old(self).width,
            final(self).max_height == old(self).max_height,
            r.index == old(self).entries@.len(),
            final(self).shelves@ == placed_shelves(
                old(self).shelves@,
                old(self).width as int,
                w,
                h,
                format,
            ),
            final(self).entries@ == old(self).entries@.push(
                placed_entry(old(self).shelves@, old(self).width as int, w, h, format, frame, evictable),
            ),
    {
        let index = self.entries.len();
        proof {
            lemma_first_fit(self.shelves@, 0, self.width as int, w as int, h as int, format);
            lemma_top_bounds(
                self.shelves@,
                format,
                self.shelves@.len() as int,
                self.max_height as int,
            );
        }
        match self.find_fit(w, h, format) {
            Some(i) => {
                let s = self.shelves[i];
                self.entries.push(
                    CacheEntry {
                        format,
                        shelf: i,
                        x: s.cursor,
                        y: s.y,
                        width: w,
                        height: h,
                        last_used: frame,
                        evictable,
                        live: true,
                    },
                );
                self.shelves.set(
                    i,
                    Shelf {
                        format: s.format,
                        y: s.y,
                        height: s.height,
                        cursor: s.cursor + w,
                        closed: false,
                    },
                );
            },
            None => {
                let t = self.top_of(format);
                let shelf = self.shelves.len();
                self.entries.push(
                    CacheEntry {
                        format,
                        shelf,
                        x: 0,
                        y: t as u32,
                        width: w,
                        height: h,
                        last_used: frame,
                        evictable,
                        live: true,
                    },
                );
                self.shelves.push(
                    Shelf { format, y: t as u32, height: h, cursor: w, closed: false },
                );
            },
        }
        CacheHandle { index }
    }

    /// Marks the space of an entry as free for reuse. The space is handed
    /// back when the next allocation looks for room, not now. Returns whether
    /// the handle named a live entry.
    pub fn free(&mut self, handle: CacheHandle) -> (freed: bool)
        requires
            old(self).wf(),
        ensures
            final(self).wf(),
            final(self).atlas_width() == old(self).atlas_width(),
            final(self).height_limit() == old(self).height_limit(),
            final(self).shelves() == old(self).shelves(),
            freed == (handle.index < old(self).entries().len() && old(self).entries()[handle.index as int].live),
            freed ==> final(self).entries() == old(self).entries().update(
                handle.index as int,
                retired(old(self).entries()[handle.index as int]),
            ),
            !freed ==> final(self).entries() == old(self).entries(),
    {
        if handle.index < self.entries.len() && self.entries[handle.index].live {
            proof {
                lemma_retired_wf(
                    self.shelves@,
                    self.entries@,
                    self.width as int,
                    self.max_height as int,
                    handle.index as int,
                );
            }
            let e = self.entries[handle.index];
            self.entries.set(
                handle.index,
                CacheEntry {
                    format: e.format,
                    shelf: e.shelf,
                    x: e.x,
                    y: e.y,
                    width: e.width,
                    height: e.height,
                    last_used: e.last_used,
                    evictable: e.evictable,
                    live: false,
                },
            );
            true
        } else {
            false
        }
    }

    /// Records that an entry is used in frame `frame`: no allocation of that
    /// frame evicts it. Returns whether the handle named a live entry.
    pub fn touch(&mut self, handle: CacheHandle, frame: FrameId) -> (touched: bool)
        requires
            old(self).wf(),
        ensures
            final(self).wf(),
            final(self).atlas_width() == old(self).atlas_width(),
            final(self).height_limit() == old(self).height_limit(),
            final(self).shelves() == old(self).shelves(),
            touched == (handle.index < old(self).entries().len() && old(self).entries()[handle.index as int].live),
            touched ==> final(self).entries() == old(self).entries().update(
                handle.index as int,
                CacheEntry {
                    format: old(self).entries()[handle.index as int].format,
                    shelf: old(self).entries()[handle.index as int].shelf,
                    x: old(self).entries()[handle.index as int].x,
                    y: old(self).entries()[handle.index as int].y,
                    width: old(self).entries()[handle.index as int].width,
                    height: old(self).entries()[handle.index as int].height,
                    last_used: frame@ as usize,
                    evictable: old(self).entries()[handle.index as int].evictable,
                    live: true,
                },
            ),
            touched ==> !eligible(final(self).entries()[handle.index as int], frame@),
            !touched ==> final(self).entries() == old(self).entries(),
    {
        if handle.index < self.entries.len() && self.entries[handle.index].live {
            let e = self.entries[handle.index];
            let ghost before = self.entries@;
            self.entries.set(
                handle.index,
                CacheEntry {
                    format: e.format,
                    shelf: e.shelf,
                    x: e.x,
                    y: e.y,
                    width: e.width,
                    height: e.height,
                    last_used: frame.as_usize(),
                    evictable: e.evictable,
                    live: true,
                },
            );
            proof {
                let after = self.entries@;
                assert forall|i: int|
                    0 <= i < after.len() && (#[trigger] after[i]).live implies entry_on_shelf(
                    after[i],
                    self.shelves@,
                ) by {
                    assert(before[i].live);
                    assert(entry_on_shelf(before[i], self.shelves@));
                }
                assert forall|i: int, j: int|
                    0 <= i < j < after.len() && (#[trigger] after[i]).live && (
                    #[trigger] after[j]).live && after[i].shelf == after[j].shelf implies after[i].x
                    + after[i].width <= after[j].x || after[j].x + after[j].width <= after[i].x by {
                    assert(before[i].live && before[j].live);
                }
            }
            true
        } else {
            false
        }
    }
}

/// An entry that was used in the frame of an allocation is not evicted by it.
pub proof fn lemma_used_this_frame_survives(
    before: Seq<CacheEntry>,
    after: Seq<CacheEntry>,
    frame: int,
    i: int,
)
    requires
        0 <= i < before.len() <= after.len(),
        after[i] == before[i] || (eligible(before[i], frame) && after[i] == retired(before[i])),
        before[i].live,
        before[i].last_used >= frame,
    ensures
        after[i] == before[i],
        after[i].live,
{
}

} // verus!
