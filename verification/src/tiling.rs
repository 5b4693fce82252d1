//! Instance records and the batcher.
//!
//! The batcher groups the instances of one render target into batches that
//! share a key: shader kind, blend mode and bound textures. Batches are drawn
//! in the order in which they were opened, and the instances of a batch in
//! the order in which they were added. An opaque instance may join any batch
//! of its key. A blended instance may only join a batch that no later batch
//! with an overlapping instance separates it from, so that of two blended
//! instances that overlap the one painted first is drawn first.

use crate::geometry::DeviceRect;
use crate::internal_types::BatchTextures;
use crate::renderer::BlendMode;
use vstd::prelude::*;

verus! {

/// What a render target holds.
#[derive(Clone, Copy, Debug, PartialEq, Eq, Structural)]
pub enum RenderTargetKind {
    Color,
    Alpha,
}

/// The shader that draws a batch.
#[derive(Clone, Copy, Debug, PartialEq, Eq, Structural)]
pub enum AlphaBatchKind {
    Rectangle,
    Image,
    TextRun,
    Border,
    Gradient,
    BoxShadow,
    Composite,
}

/// One instance of a primitive shader.
#[derive(Clone, Copy, Debug, PartialEq, Eq, Structural)]
pub struct PrimitiveInstance {
    pub prim_address: i32,
    pub task_index: i32,
    pub clip_task_index: i32,
    pub layer_index: i32,
    pub z_sort_index: i32,
    pub user_data0: i32,
    pub user_data1: i32,
    pub user_data2: i32,
}

/// One instance of the blur shader.
#[derive(Clone, Copy, Debug, PartialEq, Eq, Structural)]
pub struct BlurCommand {
    pub task_id: i32,
    pub src_task_id: i32,
    pub blur_direction: i32,
}

/// One instance of the clip mask shader.
#[derive(Clone, Copy, Debug, PartialEq, Eq, Structural)]
pub struct CacheClipInstance {
    pub task_id: i32,
    pub layer_index: i32,
    pub address: i32,
    pub segment: i32,
    pub resource_address: i32,
}

/// What the instances of one batch share.
#[derive(Clone, Copy, Debug, PartialEq, Eq, Structural)]
pub struct BatchKey {
    pub kind: AlphaBatchKind,
    pub blend_mode: BlendMode,
    pub textures: BatchTextures,
}

/// An instance in its batch list: what is drawn, where, and in which batch.
#[derive(Clone, Copy, Debug, PartialEq, Eq, Structural)]
pub struct BatchItem {
    pub instance: PrimitiveInstance,
    pub bounds: DeviceRect,
    pub batch: usize,
}

/// A batch as it is handed to the device.
pub struct PrimitiveBatch {
    pub key: BatchKey,
    pub instances: Vec<PrimitiveInstance>,
}

/// A batch as it is submitted: opaque batches write depth, blended ones do
/// not.
pub struct DrawCall {
    pub batch: PrimitiveBatch,
    pub depth_write: bool,
}

/// Batches in the order in which they were opened, and their instances in
/// the order in which they were added.
pub struct BatchList {
    keys: Vec<BatchKey>,
    items: Vec<BatchItem>,
}

/// The batches of one render target.
pub struct Batcher {
    opaque: BatchList,
    alpha: BatchList,
}

/// An instance of batch `b` overlaps `bounds`.
pub open spec fn batch_overlaps(items: Seq<BatchItem>, b: int, bounds: DeviceRect) -> bool {
    exists|p: int|
        0 <= p < items.len() && (#[trigger] items[p]).batch == b && items[p].bounds.spec_intersects(
            bounds,
        )
}

/// The batch that a blended instance joins, looking back from batch `n - 1`:
/// the first batch of its key, unless a batch with an overlapping instance
/// comes first.
pub open spec fn select_ordered(
    keys: Seq<BatchKey>,
    items: Seq<BatchItem>,
    key: BatchKey,
    bounds: DeviceRect,
    n: int,
) -> Option<int>
    decreases n,
{
    if n <= 0 || n > keys.len() {
        None
    } else if keys[n - 1] == key {
        Some(n - 1)
    } else if batch_overlaps(items, n - 1, bounds) {
        None
    } else {
        select_ordered(keys, items, key, bounds, n - 1)
    }
}

/// The batch that an opaque instance joins, looking back from batch `n - 1`:
/// the first batch of its key.
pub open spec fn select_any(keys: Seq<BatchKey>, key: BatchKey, n: int) -> Option<int>
    decreases n,
{
    if n <= 0 || n > keys.len() {
        None
    } else if keys[n - 1] == key {
        Some(n - 1)
    } else {
        select_any(keys, key, n - 1)
    }
}

/// The keys after an instance joined the selected batch, or opened one.
pub open spec fn keys_after(keys: Seq<BatchKey>, key: BatchKey, selected: Option<int>) -> Seq<
    BatchKey,
> {
    match selected {
        Some(_) => keys,
        None => keys.push(key),
    }
}

/// The batch that the new instance is in.
pub open spec fn batch_after(keys: Seq<BatchKey>, selected: Option<int>) -> int {
    match selected {
        Some(b) => b,
        None => keys.len() as int,
    }
}

/// Item `p` is drawn before item `q`: its batch was opened earlier, or both
/// are in one batch and `p` was added first.
pub open spec fn drawn_before(items: Seq<BatchItem>, p: int, q: int) -> bool {
    items[p].batch < items[q].batch || (items[p].batch == items[q].batch && p < q)
}

/// Every item is in a batch of the list.
pub open spec fn items_in_batches(keys: Seq<BatchKey>, items: Seq<BatchItem>) -> bool {
    forall|p: int| 0 <= p < items.len() ==> (#[trigger] items[p]).batch < keys.len()
}

/// Of two items that overlap, the one added first is drawn first.
pub open spec fn paint_order_kept(items: Seq<BatchItem>) -> bool {
    forall|p: int, q: int|
        0 <= p < q < items.len() && (#[trigger] items[p]).bounds.spec_intersects(
            (#[trigger] items[q]).bounds,
        ) ==> drawn_before(items, p, q)
}

/// The instances of batch `b` among the first `upto` items, in the order in
/// which they were added.
pub open spec fn batch_instances(items: Seq<BatchItem>, b: int, upto: int) -> Seq<
    PrimitiveInstance,
>
    decreases upto,
{
    if upto <= 0 || upto > items.len() {
        Seq::empty()
    } else if items[upto - 1].batch == b {
        batch_instances(items, b, upto - 1).push(items[upto - 1].instance)
    } else {
        batch_instances(items, b, upto - 1)
    }
}

proof fn lemma_select_ordered(
    keys: Seq<BatchKey>,
    items: Seq<BatchItem>,
    key: BatchKey,
    bounds: DeviceRect,
    n: int,
)
    requires
        0 <= n <= keys.len(),
    ensures
        select_ordered(keys, items, key, bounds, n) matches Some(b) ==> 0 <= b < n && keys[b] == key
            && forall|c: int| b < c < n ==> !batch_overlaps(items, c, bounds),
    decreases n,
{
    if n > 0 && keys[n - 1] != key && !batch_overlaps(items, n - 1, bounds) {
        lemma_select_ordered(keys, items, key, bounds, n - 1);
    }
}

proof fn lemma_select_any(keys: Seq<BatchKey>, key: BatchKey, n: int)
    requires
        0 <= n <= keys.len(),
    ensures
        select_any(keys, key, n) matches Some(b) ==> 0 <= b < n && keys[b] == key,
        select_any(keys, key, n) is None ==> forall|c: int| 0 <= c < n ==> keys[c] != key,
    decreases n,
{
    if n > 0 && keys[n - 1] != key {
        lemma_select_any(keys, key, n - 1);
    }
}

/// An instance that joins the batch chosen for it keeps the paint order.
pub proof fn lemma_ordered_add_keeps_paint_order(
    keys: Seq<BatchKey>,
    items: Seq<BatchItem>,
    key: BatchKey,
    instance: PrimitiveInstance,
    bounds: DeviceRect,
)
    requires
        items_in_batches(keys, items),
        paint_order_kept(items),
        keys.len() <= usize::MAX,
    ensures
        ({
            let selected = select_ordered(keys, items, key, bounds, keys.len() as int);
            let item = BatchItem { instance, bounds, batch: batch_after(keys, selected) as usize };
            paint_order_kept(items.push(item)) && items_in_batches(
                keys_after(keys, key, selected),
                items.push(item),
            )
        }),
{
    let selected = select_ordered(keys, items, key, bounds, keys.len() as int);
    let item = BatchItem { instance, bounds, batch: batch_after(keys, selected) as usize };
    let after = items.push(item);
    lemma_select_ordered(keys, items, key, bounds, keys.len() as int);
    assert forall|p: int, q: int|
        0 <= p < q < after.len() && (#[trigger] after[p]).bounds.spec_intersects(
            (#[trigger] after[q]).bounds,
        ) implies drawn_before(after, p, q) by {
        if q < items.len() {
            assert(items[p].bounds.spec_intersects(items[q].bounds));
            assert(drawn_before(items, p, q));
        } else {
            assert(items[p].batch < keys.len());
            if selected is Some && items[p].batch > selected->0 {
                assert(batch_overlaps(items, items[p].batch as int, bounds));
            }
        }
    }
    assert forall|p: int| 0 <= p < after.len() implies (#[trigger] after[p]).batch < keys_after(
        keys,
        key,
        selected,
    ).len() by {
        if p < items.len() {
            assert(items[p].batch < keys.len());
        }
    }
}

impl BatchList {
    /// The key of each batch.
    pub closed spec fn keys(&self) -> Seq<BatchKey> {
        self.keys@
    }

    /// The instances, in the order in which they were added.
    pub closed spec fn items(&self) -> Seq<BatchItem> {
        self.items@
    }

    pub open spec fn wf(&self) -> bool {
        items_in_batches(self.keys(), self.items())
    }

    pub fn new() -> (l: BatchList)
        ensures
            l.wf(),
            l.keys().len() == 0,
            l.items().len() == 0,
            paint_order_kept(l.items()),
    {
        BatchList { keys: Vec::new(), items: Vec::new() }
    }

    pub fn batch_count(&self) -> (n: usize)
        ensures
            n == self.keys().len(),
    {
        self.keys.len()
    }

    pub fn instance_count(&self) -> (n: usize)
        ensures
            n == self.items().len(),
    {
        self.items.len()
    }

    fn overlaps(&self, b: usize, bounds: &DeviceRect) -> (r: bool)
        ensures
            r == batch_overlaps(self.items@, b as int, *bounds),
    {
        let mut p: usize = 0;
        while p < self.items.len()
            invariant
                p <= self.items@.len(),
                forall|k: int|
                    0 <= k < p ==> !((#[trigger] self.items@[k]).batch == b
                        && self.items@[k].bounds.spec_intersects(*bounds)),
            decreases self.items@.len() - p,
        {
            if self.items[p].batch == b && self.items[p].bounds.intersects(bounds) {
                return true;
            }
            p += 1;
        }
        false
    }

    fn find_ordered(&self, key: &BatchKey, bounds: &DeviceRect) -> (r: Option<usize>)
        ensures
            r matches Some(b) ==> select_ordered(
                self.keys@,
                self.items@,
                *key,
                *bounds,
                self.keys@.len() as int,
            ) == Some(b as int),
            r is None ==> select_ordered(
                self.keys@,
                self.items@,
                *key,
                *bounds,
                self.keys@.len() as int,
            ) is None,
    {
        let mut n: usize = self.keys.len();
        while n > 0
            invariant
                n <= self.keys@.len(),
                select_ordered(self.keys@, self.items@, *key, *bounds, self.keys@.len() as int)
                    == select_ordered(self.keys@, self.items@, *key, *bounds, n as int),
            decreases n,
        {
            if self.keys[n - 1] == *key {
                return Some(n - 1);
            }
            if self.overlaps(n - 1, bounds) {
                return None;
            }
            n -= 1;
        }
        None
    }

    fn find_any(&self, key: &BatchKey) -> (r: Option<usize>)
        ensures
            r matches Some(b) ==> select_any(self.keys@, *key, self.keys@.len() as int) == Some(
                b as int,
            ),
            r is None ==> select_any(self.keys@, *key, self.keys@.len() as int) is None,
    {
        let mut n: usize = self.keys.len();
        while n > 0
            invariant
                n <= self.keys@.len(),
                select_any(self.keys@, *key, self.keys@.len() as int) == select_any(
                    self.keys@,
                    *key,
                    n as int,
                ),
            decreases n,
        {
            if self.keys[n - 1] == *key {
                return Some(n - 1);
            }
            n -= 1;
        }
        None
    }

    fn push_into(&mut self, selected: Option<usize>, key: BatchKey, instance: PrimitiveInstance, bounds:
        DeviceRect)
        requires
            selected matches Some(b) ==> b < old(self).keys@.len(),
        ensures
            final(self).keys@ == keys_after(
                old(self).keys@,
                key,
                match selected {
                    Some(b) => Some(b as int),
                    None => None,
                },
            ),
            final(self).items@ == old(self).items@.push(
                BatchItem {
                    instance,
                    bounds,
                    batch: batch_after(
                        old(self).keys@,
                        match selected {
                            Some(b) => Some(b as int),
                            None => None,
                        },
                    ) as usize,
                },
            ),
    {
        match selected {
            Some(b) => {
                self.items.push(BatchItem { instance, bounds, batch: b });
            },
            None => {
                let b = self.keys.len();
                self.keys.push(key);
                self.items.push(BatchItem { instance, bounds, batch: b });
            },
        }
    }

    /// Adds a blended instance: it joins the latest batch of its key, unless
    /// a later batch holds an instance that overlaps it; then, and where no
    /// batch has its key, it opens a batch.
    pub fn add_ordered(&mut self, key: BatchKey, instance: PrimitiveInstance, bounds: DeviceRect)
        requires
            old(self).wf(),
            paint_order_kept(old(self).items()),
        ensures
            final(self).wf(),
            paint_order_kept(final(self).items()),
            final(self).keys() == keys_after(
                old(self).keys(),
                key,
                select_ordered(
                    old(self).keys(),
                    old(self).items(),
                    key,
                    bounds,
                    old(self).keys().len() as int,
                ),
            ),
            final(self).items() == old(self).items().push(
                BatchItem {
                    instance,
                    bounds,
                    batch: batch_after(
                        old(self).keys(),
                        select_ordered(
                            old(self).keys(),
                            old(self).items(),
                            key,
                            bounds,
                            old(self).keys().len() as int,
                        ),
                    ) as usize,
                },
            ),
    {
        let count = self.keys.len();
        let selected = self.find_ordered(&key, &bounds);
        proof {
            lemma_select_ordered(self.keys@, self.items@, key, bounds, count as int);
            lemma_ordered_add_keeps_paint_order(self.keys@, self.items@, key, instance, bounds);
        }
        self.push_into(selected, key, instance, bounds);
    }

    /// Adds an opaque instance: it joins the latest batch of its key, or
    /// opens a batch where none has its key.
    pub fn add_unordered(&mut self, key: BatchKey, instance: PrimitiveInstance, bounds: DeviceRect)
        requires
            old(self).wf(),
        ensures
            final(self).wf(),
            final(self).keys() == keys_after(
                old(self).keys(),
                key,
                select_any(old(self).keys(), key, old(self).keys().len() as int),
            ),
            final(self).items() == old(self).items().push(
                BatchItem {
                    instance,
                    bounds,
                    batch: batch_after(
                        old(self).keys(),
                        select_any(old(self).keys(), key, old(self).keys().len() as int),
                    ) as usize,
                },
            ),
    {
        let selected = self.find_any(&key);
        proof {
            lemma_select_any(self.keys@, key, self.keys@.len() as int);
        }
        let ghost before = self.items@;
        let ghost keys = self.keys@;
        self.push_into(selected, key, instance, bounds);
        proof {
            assert forall|p: int| 0 <= p < self.items@.len() implies (#[trigger] self.items@[p]).batch
                < self.keys@.len() by {
                if p < before.len() {
                    assert(before[p].batch < keys.len());
                }
            }
        }
    }

    /// The batches as they are drawn: in the order in which they were
    /// opened, each with its instances in the order in which they were added.
    pub fn batches(&self) -> (out: Vec<PrimitiveBatch>)
        ensures
            out@.len() == self.keys().len(),
            forall|b: int|
                0 <= b < out@.len() ==> (#[trigger] out@[b]).key == self.keys()[b]
                    && out@[b].instances@ == batch_instances(
                    self.items(),
                    b,
                    self.items().len() as int,
                ),
    {
        let mut out: Vec<PrimitiveBatch> = Vec::new();
        let mut b: usize = 0;
        while b < self.keys.len()
            invariant
                b <= self.keys@.len(),
                out@.len() == b,
                forall|c: int|
                    0 <= c < b ==> (#[trigger] out@[c]).key == self.keys@[c] && out@[c].instances@
                        == batch_instances(self.items@, c, self.items@.len() as int),
            decreases self.keys@.len() - b,
        {
            let mut instances: Vec<PrimitiveInstance> = Vec::new();
            let mut p: usize = 0;
            while p < self.items.len()
                invariant
                    p <= self.items@.len(),
                    instances@ == batch_instances(self.items@, b as int, p as int),
                decreases self.items@.len() - p,
            {
                if self.items[p].batch == b {
                    instances.push(self.items[p].instance);
                }
                p += 1;
            }
            out.push(PrimitiveBatch { key: self.keys[b], instances });
            b += 1;
        }
        out
    }
}

impl Batcher {
    /// The batches of the instances that do not blend.
    pub closed spec fn opaque(&self) -> BatchList {
        self.opaque
    }

    /// The batches of the blended instances.
    pub closed spec fn alpha(&self) -> BatchList {
        self.alpha
    }

    pub open spec fn wf(&self) -> bool {
        self.opaque().wf() && self.alpha().wf() && paint_order_kept(self.alpha().items())
    }

    pub fn new() -> (b: Batcher)
        ensures
            b.wf(),
            b.opaque().keys().len() == 0,
            b.opaque().items().len() == 0,
            b.alpha().keys().len() == 0,
            b.alpha().items().len() == 0,
    {
        Batcher { opaque: BatchList::new(), alpha: BatchList::new() }
    }

    /// Adds an instance with the given key and screen bounds. An instance
    /// that does not blend goes to the opaque batches, any other to the
    /// blended ones.
    pub fn add_instance(&mut self, key: BatchKey, instance: PrimitiveInstance, bounds: DeviceRect)
        requires
            old(self).wf(),
        ensures
            final(self).wf(),
            key.blend_mode is NoBlend ==> final(self).alpha() == old(self).alpha() && final(self).opaque().keys() == keys_after(
                old(self).opaque().keys(),
                key,
                select_any(old(self).opaque().keys(), key, old(self).opaque().keys().len() as int),
            ) && final(self).opaque().items() == old(self).opaque().items().push(
                BatchItem {
                    instance,
                    bounds,
                    batch: batch_after(
                        old(self).opaque().keys(),
                        select_any(
                            old(self).opaque().keys(),
                            key,
                            old(self).opaque().keys().len() as int,
                        ),
                    ) as usize,
                },
            ),
            !(key.blend_mode is NoBlend) ==> final(self).opaque() == old(self).opaque() && final(self).alpha().keys() == keys_after(
                old(self).alpha().keys(),
                key,
                select_ordered(
                    old(self).alpha().keys(),
                    old(self).alpha().items(),
                    key,
                    bounds,
                    old(self).alpha().keys().len() as int,
                ),
            ) && final(self).alpha().items() == old(self).alpha().items().push(
                BatchItem {
                    instance,
                    bounds,
                    batch: batch_after(
                        old(self).alpha().keys(),
                        select_ordered(
                            old(self).alpha().keys(),
                            old(self).alpha().items(),
                            key,
                            bounds,
                            old(self).alpha().keys().len() as int,
                        ),
                    ) as usize,
                },
            ),
    {
        match key.blend_mode {
            BlendMode::NoBlend => {
                self.opaque.add_unordered(key, instance, bounds);
            },
            _ => {
                self.alpha.add_ordered(key, instance, bounds);
            },
        }
    }

    /// The opaque batches as they are drawn.
    pub fn opaque_batches(&self) -> (out: Vec<PrimitiveBatch>)
        ensures
            out@.len() == self.opaque().keys().len(),
            forall|b: int|
                0 <= b < out@.len() ==> (#[trigger] out@[b]).key == self.opaque().keys()[b]
                    && out@[b].instances@ == batch_instances(
                    self.opaque().items(),
                    b,
                    self.opaque().items().len() as int,
                ),
    {
        self.opaque.batches()
    }

    /// The blended batches as they are drawn, after the opaque ones.
    pub fn alpha_batches(&self) -> (out: Vec<PrimitiveBatch>)
        ensures
            out@.len() == self.alpha().keys().len(),
            forall|b: int|
                0 <= b < out@.len() ==> (#[trigger] out@[b]).key == self.alpha().keys()[b]
                    && out@[b].instances@ == batch_instances(
                    self.alpha().items(),
                    b,
                    self.alpha().items().len() as int,
                ),
    {
        self.alpha.batches()
    }

    /// The batches in the order in which they are submitted: the opaque
    /// ones first, with depth write, then the blended ones without, each
    /// kind in the order in which its batches were opened.
    pub fn draw_calls(&self) -> (out: Vec<DrawCall>)
        ensures
            out@.len() == self.opaque().keys().len() + self.alpha().keys().len(),
            forall|b: int|
                0 <= b < self.opaque().keys().len() ==> (#[trigger] out@[b]).depth_write
                    && out@[b].batch.key == self.opaque().keys()[b] && out@[b].batch.instances@
                    == batch_instances(
                    self.opaque().items(),
                    b,
                    self.opaque().items().len() as int,
                ),
            forall|b: int|
                self.opaque().keys().len() <= b < out@.len() ==> !(#[trigger] out@[b]).depth_write
                    && out@[b].batch.key == self.alpha().keys()[b - self.opaque().keys().len()]
                    && out@[b].batch.instances@ == batch_instances(
                    self.alpha().items(),
                    b - self.opaque().keys().len(),
                    self.alpha().items().len() as int,
                ),
    {
        let mut out: Vec<DrawCall> = Vec::new();
        let mut opaque = self.opaque.batches();
        let ghost first = opaque@;
        let ghost mut taken: int = 0;
        while opaque.len() > 0
            invariant
                0 <= taken <= first.len(),
                opaque@ == first.subrange(taken, first.len() as int),
                out@.len() == taken,
                forall|b: int|
                    0 <= b < taken ==> (#[trigger] out@[b]).depth_write && out@[b].batch
                        == first[b],
            decreases opaque@.len(),
        {
            let batch = opaque.remove(0);
            assert(batch == first[taken]);
            out.push(DrawCall { batch, depth_write: true });
            proof {
                assert(opaque@ =~= first.subrange(taken + 1, first.len() as int));
                taken = taken + 1;
            }
        }
        let mut alpha = self.alpha.batches();
        let ghost second = alpha@;
        let ghost mut more: int = 0;
        while alpha.len() > 0
            invariant
                0 <= more <= second.len(),
                alpha@ == second.subrange(more, second.len() as int),
                out@.len() == first.len() + more,
                forall|b: int|
                    0 <= b < first.len() ==> (#[trigger] out@[b]).depth_write && out@[b].batch
                        == first[b],
                forall|b: int|
                    first.len() <= b < first.len() + more ==> !(#[trigger] out@[b]).depth_write
                        && out@[b].batch == second[b - first.len()],
            decreases alpha@.len(),
        {
            let batch = alpha.remove(0);
            assert(batch == second[more]);
            out.push(DrawCall { batch, depth_write: false });
            proof {
                assert(alpha@ =~= second.subrange(more + 1, second.len() as int));
                more = more + 1;
            }
        }
        out
    }
}

} // verus!
