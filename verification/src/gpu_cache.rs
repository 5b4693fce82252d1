//! The GPU cache: a data texture of rows of four-float blocks.
//!
//! Blocks are appended in row-major order and never move until the cache is
//! invalidated. A handle remembers where its block went and in which
//! generation; it is resident while the cache is still in that generation.
//! Each row that received a block since the last flush is dirty, and a flush
//! hands out the dirty rows only.

use vstd::prelude::*;

verus! {

/// One block: the bit patterns of four 32-bit floats.
#[derive(Clone, Copy, Debug, PartialEq, Eq, Structural)]
pub struct GpuBlock {
    pub x: u32,
    pub y: u32,
    pub z: u32,
    pub w: u32,
}

/// Column `u` and row `v` of a block in the data texture.
#[derive(Clone, Copy, Debug, PartialEq, Eq, Structural)]
pub struct GpuCacheAddress {
    pub u: u16,
    pub v: u16,
}

/// Where a block was stored, and in which generation of the cache.
#[derive(Clone, Copy, Debug, PartialEq, Eq, Structural)]
pub struct CacheLocation {
    pub block_index: usize,
    pub generation: u64,
}

/// What the owner of a block keeps to find it again.
#[derive(Clone, Copy, Debug, PartialEq, Eq, Structural)]
pub struct GpuCacheHandle {
    pub location: Option<CacheLocation>,
}

/// One dirty row, as it is to be uploaded.
pub struct GpuCacheUpdate {
    pub row: u16,
    pub blocks: Vec<GpuBlock>,
}

/// The cache as contracts see it.
pub ghost struct GpuCacheModel {
    pub width: int,
    pub max_rows: int,
    pub generation: int,
    pub blocks: Seq<GpuBlock>,
    pub dirty: Set<int>,
}

pub struct GpuCache {
    width: u16,
    max_rows: u16,
    generation: u64,
    blocks: Vec<GpuBlock>,
    dirty: Vec<bool>,
}

impl GpuCacheModel {
    /// The index of the block that an address names.
    pub open spec fn index_of(self, address: GpuCacheAddress) -> int {
        address.v as int * self.width + address.u as int
    }

    /// The block stored at an address, if the address names one.
    pub open spec fn block_at(self, address: GpuCacheAddress) -> Option<GpuBlock> {
        if address.u < self.width && self.index_of(address) < self.blocks.len() {
            Some(self.blocks[self.index_of(address)])
        } else {
            None
        }
    }

    /// The address of the block with the given index.
    pub open spec fn address_of(self, index: int) -> GpuCacheAddress {
        GpuCacheAddress { u: (index % self.width) as u16, v: (index / self.width) as u16 }
    }

    /// The address behind a handle, if its block is resident.
    pub open spec fn resident(self, handle: GpuCacheHandle) -> Option<GpuCacheAddress> {
        match handle.location {
            Some(location) => if location.generation == self.generation && location.block_index
                < self.blocks.len() {
                Some(self.address_of(location.block_index as int))
            } else {
                None
            },
            None => None,
        }
    }

    /// The blocks of one row, as far as the row is filled.
    pub open spec fn row_blocks(self, row: int) -> Seq<GpuBlock> {
        let start = row * self.width;
        let end = if start + self.width <= self.blocks.len() {
            start + self.width
        } else {
            self.blocks.len() as int
        };
        if 0 <= start <= end {
            self.blocks.subrange(start, end)
        } else {
            Seq::empty()
        }
    }

    /// `later` is this cache after more blocks were pushed, with no
    /// invalidation in between.
    pub open spec fn extended_by(self, later: GpuCacheModel) -> bool {
        &&& later.width == self.width
        &&& later.max_rows == self.max_rows
        &&& later.generation == self.generation
        &&& self.blocks.len() <= later.blocks.len()
        &&& later.blocks.subrange(0, self.blocks.len() as int) == self.blocks
    }
}

/// The dirty rows below `upto`, by increasing row.
pub open spec fn dirty_rows(dirty: Set<int>, upto: int) -> Seq<int>
    decreases upto,
{
    if upto <= 0 {
        Seq::empty()
    } else if dirty.contains(upto - 1) {
        dirty_rows(dirty, upto - 1).push(upto - 1)
    } else {
        dirty_rows(dirty, upto - 1)
    }
}

/// The listed rows are exactly the dirty ones, each once, in rising order.
pub proof fn lemma_dirty_rows(dirty: Set<int>, upto: int)
    requires
        0 <= upto,
    ensures
        forall|r: int| #[trigger]
            dirty_rows(dirty, upto).contains(r) <==> (0 <= r < upto && dirty.contains(r)),
        forall|i: int, j: int|
            0 <= i < j < dirty_rows(dirty, upto).len() ==> dirty_rows(dirty, upto)[i] < dirty_rows(
                dirty,
                upto,
            )[j],
        forall|i: int|
            0 <= i < dirty_rows(dirty, upto).len() ==> 0 <= #[trigger] dirty_rows(dirty, upto)[i]
                < upto,
    decreases upto,
{
    if upto > 0 {
        lemma_dirty_rows(dirty, upto - 1);
        let before = dirty_rows(dirty, upto - 1);
        let now = dirty_rows(dirty, upto);
        if dirty.contains(upto - 1) {
            assert(now == before.push(upto - 1));
            assert forall|r: int| #[trigger] now.contains(r) implies (0 <= r < upto
                && dirty.contains(r)) by {
                let i = choose|i: int| 0 <= i < now.len() && now[i] == r;
                if i < before.len() {
                    assert(before[i] == r);
                    assert(before.contains(r));
                }
            }
            assert forall|r: int| (0 <= r < upto && dirty.contains(r)) implies #[trigger] now.contains(
                r,
            ) by {
                if r == upto - 1 {
                    assert(now[now.len() - 1] == r);
                } else {
                    assert(before.contains(r));
                    let i = choose|i: int| 0 <= i < before.len() && before[i] == r;
                    assert(now[i] == r);
                }
            }
            assert forall|i: int, j: int| 0 <= i < j < now.len() implies now[i] < now[j] by {
                if j < before.len() {
                    assert(before[i] < before[j]);
                } else {
                    assert(now[i] == before[i]);
                }
            }
        } else {
            assert(now == before);
        }
    }
}

/// An address and the index it names determine each other.
pub proof fn lemma_address_roundtrip(m: GpuCacheModel, index: int)
    requires
        0 < m.width <= u16::MAX,
        0 <= index < m.width * m.max_rows,
        0 <= m.max_rows <= u16::MAX,
    ensures
        m.index_of(m.address_of(index)) == index,
        m.address_of(index).u < m.width,
        m.address_of(index).v < m.max_rows,
{
    let w = m.width;
    let rows = m.max_rows;
    assert(index == w * (index / w) + index % w && 0 <= index % w < w) by (nonlinear_arith)
        requires
            0 < w,
            0 <= index,
    ;
    assert(0 <= index / w < rows) by (nonlinear_arith)
        requires
            0 < w,
            0 <= index < w * rows,
    ;
    assert((index / w) * w == w * (index / w)) by (nonlinear_arith);
}

/// A block that is resident stays where it is, with what it holds, however
/// many blocks are pushed after it in the same generation.
pub proof fn lemma_resident_block_is_stable(
    earlier: GpuCacheModel,
    later: GpuCacheModel,
    handle: GpuCacheHandle,
)
    requires
        earlier.extended_by(later),
        earlier.resident(handle) is Some,
        0 < earlier.width <= u16::MAX,
        0 <= earlier.max_rows <= u16::MAX,
        earlier.blocks.len() <= earlier.width * earlier.max_rows,
    ensures
        later.resident(handle) == earlier.resident(handle),
        later.block_at(later.resident(handle)->0) == earlier.block_at(earlier.resident(handle)->0),
        later.block_at(later.resident(handle)->0) == Some(
            earlier.blocks[handle.location->0.block_index as int],
        ),
{
    let index = handle.location->0.block_index as int;
    lemma_address_roundtrip(earlier, index);
    assert(later.blocks.subrange(0, earlier.blocks.len() as int)[index] == later.blocks[index]);
}

impl GpuCacheHandle {
    /// A handle whose block has not been pushed yet.
    pub fn new() -> (h: GpuCacheHandle)
        ensures
            h.location is None,
    {
        GpuCacheHandle { location: None }
    }

    /// Gives the block up: the handle names no block any more, in whatever
    /// cache. The block keeps its place until the cache is invalidated.
    pub fn release(&mut self)
        ensures
            final(self).location is None,
            forall|m: GpuCacheModel| m.resident(*final(self)) is None,
    {
        self.location = None;
    }
}

impl GpuCacheUpdate {
    pub open spec fn view(&self) -> (int, Seq<GpuBlock>) {
        (self.row as int, self.blocks@)
    }
}

impl GpuCache {
    pub closed spec fn view(&self) -> GpuCacheModel {
        GpuCacheModel {
            width: self.width as int,
            max_rows: self.max_rows as int,
            generation: self.generation as int,
            blocks: self.blocks@,
            dirty: Set::new(|r: int| 0 <= r < self.dirty@.len() && self.dirty@[r]),
        }
    }

    /// The cache holds no more than its rows can take, and only rows that
    /// hold a block are dirty.
    pub closed spec fn wf(&self) -> bool {
        &&& self.width > 0
        &&& self.blocks@.len() <= self.width as int * self.max_rows as int
        &&& self.dirty@.len() == self.max_rows
        &&& forall|r: int|
            0 <= r < self.dirty@.len() && #[trigger] self.dirty@[r] ==> r * self.width
                < self.blocks@.len()
    }

    /// What `wf` says, over the model.
    pub proof fn lemma_wf(&self)
        requires
            self.wf(),
        ensures
            0 < self@.width <= u16::MAX,
            0 <= self@.max_rows <= u16::MAX,
            0 <= self@.generation <= u64::MAX,
            self@.blocks.len() <= self@.width * self@.max_rows,
            forall|r: int|
                self@.dirty.contains(r) ==> 0 <= r < self@.max_rows && r * self@.width
                    < self@.blocks.len(),
    {
    }

    /// An empty cache of `max_rows` rows of `width` blocks, or nothing where
    /// `width` is 0.
    pub fn new(width: u16, max_rows: u16) -> (r: Option<GpuCache>)
        ensures
            r is Some <==> width > 0,
            r matches Some(c) ==> c.wf() && c@.width == width && c@.max_rows == max_rows
                && c@.generation == 0 && c@.blocks.len() == 0 && c@.dirty == Set::<int>::empty(),
    {
        if width == 0 {
            return None;
        }
        let mut dirty: Vec<bool> = Vec::new();
        let mut r: u16 = 0;
        while r < max_rows
            invariant
                r <= max_rows,
                dirty@.len() == r,
                forall|i: int| 0 <= i < r ==> !dirty@[i],
            decreases max_rows - r,
        {
            dirty.push(false);
            r += 1;
        }
        let c = GpuCache { width, max_rows, generation: 0, blocks: Vec::new(), dirty };
        assert(c@.dirty =~= Set::<int>::empty());
        assert(c.blocks@.len() <= c.width as int * c.max_rows as int) by (nonlinear_arith)
            requires
                c.blocks@.len() == 0,
                c.width >= 0,
                c.max_rows >= 0,
        ;
        Some(c)
    }

    pub fn width(&self) -> (w: u16)
        ensures
            w == self@.width,
    {
        self.width
    }

    pub fn max_rows(&self) -> (n: u16)
        ensures
            n == self@.max_rows,
    {
        self.max_rows
    }

    pub fn generation(&self) -> (g: u64)
        ensures
            g == self@.generation,
    {
        self.generation
    }

    /// How many blocks the cache holds.
    pub fn len(&self) -> (n: usize)
        ensures
            n == self@.blocks.len(),
    {
        self.blocks.len()
    }

    /// The address of the block with the given index.
    fn address_for(&self, index: usize) -> (a: GpuCacheAddress)
        requires
            self.wf(),
            index < self.width as int * self.max_rows as int,
        ensures
            a == self@.address_of(index as int),
            self@.index_of(a) == index,
            a.u < self@.width,
            a.v < self@.max_rows,
    {
        proof {
            lemma_address_roundtrip(self@, index as int);
        }
        let w = self.width as usize;
        GpuCacheAddress { u: (index % w) as u16, v: (index / w) as u16 }
    }

    /// Appends one block and binds `handle` to it. The block's row becomes
    /// dirty. Returns the block's address, or nothing, with the cache and the
    /// handle unchanged, when every row is full.
    pub fn push_block(&mut self, handle: &mut GpuCacheHandle, data: GpuBlock) -> (r: Option<
        GpuCacheAddress,
    >)
        requires
            old(self).wf(),
        ensures
            final(self).wf(),
            r is Some <==> old(self)@.blocks.len() < old(self)@.width * old(self)@.max_rows,
            r is None ==> final(self)@ == old(self)@ && *final(handle) == *old(handle),
            r matches Some(a) ==> {
                &&& final(self)@.blocks == old(self)@.blocks.push(data)
                &&& old(self)@.extended_by(final(self)@)
                &&& a == final(self)@.address_of(old(self)@.blocks.len() as int)
                &&& final(self)@.dirty == old(self)@.dirty.insert(a.v as int)
                &&& final(handle).location == Some(
                    CacheLocation {
                        block_index: old(self)@.blocks.len() as usize,
                        generation: old(self)@.generation as u64,
                    },
                )
                &&& final(self)@.resident(*final(handle)) == Some(a)
                &&& final(self)@.block_at(a) == Some(data)
            },
    {
        let index = self.blocks.len();
        assert(self.width as int * self.max_rows as int <= 0xffff * 0xffff) by (nonlinear_arith)
            requires
                0 <= self.width <= 0xffff,
                0 <= self.max_rows <= 0xffff,
        ;
        let capacity: usize = self.width as usize * self.max_rows as usize;
        if index >= capacity {
            return None;
        }
        let address = self.address_for(index);
        self.blocks.push(data);
        let ghost before_dirty = self.dirty@;
        self.dirty.set(address.v as usize, true);
        handle.location = Some(CacheLocation { block_index: index, generation: self.generation });
        proof {
            let w = self.width as int;
            let row = address.v as int;
            assert(self@.dirty =~= old(self)@.dirty.insert(row));
            assert(row * w <= index) by (nonlinear_arith)
                requires
                    index == row * w + address.u as int,
                    address.u >= 0,
            ;
            assert forall|r: int|
                0 <= r < self.dirty@.len() && #[trigger] self.dirty@[r] implies r * self.width
                < self.blocks@.len() by {
                if r != row {
                    assert(before_dirty[r]);
                }
            }
            assert(self@.blocks.subrange(0, index as int) =~= old(self)@.blocks);
        }
        Some(address)
    }

    /// The address of the block behind `handle`, if the block was pushed in
    /// the present generation; nothing if it has to be pushed again.
    pub fn request(&self, handle: &GpuCacheHandle) -> (r: Option<GpuCacheAddress>)
        requires
            self.wf(),
        ensures
            r == self@.resident(*handle),
    {
        match handle.location {
            Some(location) => {
                if location.generation == self.generation && location.block_index
                    < self.blocks.len() {
                    Some(self.address_for(location.block_index))
                } else {
                    None
                }
            },
            None => None,
        }
    }

    /// The block stored at an address, if the address names one.
    pub fn get(&self, address: GpuCacheAddress) -> (r: Option<GpuBlock>)
        requires
            self.wf(),
        ensures
            r == self@.block_at(address),
    {
        if address.u >= self.width {
            return None;
        }
        assert(0 <= address.v as int * self.width as int <= 0xffff * 0xffff) by (nonlinear_arith)
            requires
                0 <= address.v <= 0xffff,
                0 <= self.width <= 0xffff,
        ;
        let index: u64 = address.v as u64 * self.width as u64 + address.u as u64;
        if index < self.blocks.len() as u64 {
            Some(self.blocks[index as usize])
        } else {
            None
        }
    }

    /// Drops every block and starts the next generation: no handle is
    /// resident any more, and no row is dirty.
    pub fn invalidate(&mut self)
        requires
            old(self).wf(),
            old(self)@.generation < u64::MAX,
        ensures
            final(self).wf(),
            final(self)@.width == old(self)@.width,
            final(self)@.max_rows == old(self)@.max_rows,
            final(self)@.generation == old(self)@.generation + 1,
            final(self)@.blocks.len() == 0,
            final(self)@.dirty == Set::<int>::empty(),
            forall|h: GpuCacheHandle|
                old(self)@.resident(h) is Some ==> final(self)@.resident(h) is None,
    {
        self.generation = self.generation + 1;
        self.blocks.clear();
        let mut r: usize = 0;
        while r < self.dirty.len()
            invariant
                r <= self.dirty@.len(),
                self.dirty@.len() == self.max_rows,
                self.width == old(self).width,
                self.max_rows == old(self).max_rows,
                self.generation == old(self).generation + 1,
                self.blocks@.len() == 0,
                forall|i: int| 0 <= i < r ==> !self.dirty@[i],
            decreases self.dirty@.len() - r,
        {
            self.dirty.set(r, false);
            r += 1;
        }
        assert(self@.dirty =~= Set::<int>::empty());
        assert(self.blocks@.len() <= self.width as int * self.max_rows as int) by (nonlinear_arith)
            requires
                self.blocks@.len() == 0,
                self.width >= 0,
                self.max_rows >= 0,
        ;
    }

    /// Hands out the rows that received a block since the last flush, by
    /// increasing row, each with the blocks it holds now. After the call no
    /// row is dirty; the blocks stay.
    pub fn flush(&mut self) -> (updates: Vec<GpuCacheUpdate>)
        requires
            old(self).wf(),
        ensures
            final(self).wf(),
            final(self)@.dirty == Set::<int>::empty(),
            final(self)@.blocks == old(self)@.blocks,
            old(self)@.extended_by(final(self)@),
            updates@.len() == dirty_rows(old(self)@.dirty, old(self)@.max_rows).len(),
            forall|i: int|
                0 <= i < updates@.len() ==> (#[trigger] updates@[i])@ == (
                    dirty_rows(old(self)@.dirty, old(self)@.max_rows)[i],
                    old(self)@.row_blocks(dirty_rows(old(self)@.dirty, old(self)@.max_rows)[i]),
                ),
    {
        let ghost model = self@;
        let mut updates: Vec<GpuCacheUpdate> = Vec::new();
        let width = self.width as usize;
        let len = self.blocks.len();
        let mut row: usize = 0;
        while row < self.max_rows as usize
            invariant
                row <= self.max_rows,
                width == self.width,
                width > 0,
                len == self.blocks@.len(),
                len <= self.width as int * self.max_rows as int,
                self.width == old(self).width,
                self.max_rows == old(self).max_rows,
                self.generation == old(self).generation,
                self.blocks@ == old(self).blocks@,
                self.dirty@.len() == self.max_rows,
                model == old(self)@,
                forall|r: int| 0 <= r < row ==> !self.dirty@[r],
                forall|r: int| row <= r < self.max_rows ==> self.dirty@[r] == model.dirty.contains(r),
                forall|r: int|
                    0 <= r < self.dirty@.len() && #[trigger] self.dirty@[r] ==> r * self.width
                        < self.blocks@.len(),
                updates@.len() == dirty_rows(model.dirty, row as int).len(),
                forall|i: int|
                    0 <= i < updates@.len() ==> (#[trigger] updates@[i])@ == (
                        dirty_rows(model.dirty, row as int)[i],
                        model.row_blocks(dirty_rows(model.dirty, row as int)[i]),
                    ),
            decreases self.max_rows - row,
        {
            if self.dirty[row] {
                assert(row * width < len);
                assert(row * width + width <= 0xffff * 0xffff + 0xffff) by (nonlinear_arith)
                    requires
                        row < 0xffff,
                        width <= 0xffff,
                ;
                let start: usize = row * width;
                let end: usize = if start + width <= len {
                    start + width
                } else {
                    len
                };
                let mut blocks: Vec<GpuBlock> = Vec::new();
                let mut i: usize = start;
                while i < end
                    invariant
                        start <= i <= end <= len,
                        len == self.blocks@.len(),
                        blocks@ == self.blocks@.subrange(start as int, i as int),
                    decreases end - i,
                {
                    blocks.push(self.blocks[i]);
                    assert(blocks@ == self.blocks@.subrange(start as int, i + 1));
                    i += 1;
                }
                assert(blocks@ == model.row_blocks(row as int));
                let ghost before = updates@;
                updates.push(GpuCacheUpdate { row: row as u16, blocks });
                self.dirty.set(row, false);
                proof {
                    let rows = dirty_rows(model.dirty, row as int);
                    let next = dirty_rows(model.dirty, row + 1);
                    assert(model.dirty.contains(row as int));
                    assert(next == rows.push(row as int));
                    assert forall|i: int| 0 <= i < updates@.len() implies (#[trigger] updates@[i])@
                        == (next[i], model.row_blocks(next[i])) by {
                        if i < before.len() {
                            assert(updates@[i] == before[i]);
                        }
                    }
                }
            } else {
                assert(!model.dirty.contains(row as int));
            }
            row += 1;
        }
        assert(self@.dirty =~= Set::<int>::empty());
        assert(self@.blocks.subrange(0, self@.blocks.len() as int) =~= self@.blocks);
        updates
    }
}

} // verus!
