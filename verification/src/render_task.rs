//! The render task graph.
//!
//! A task names the tasks it reads from. A task can only name tasks that were
//! added before it, so the graph has no cycle. Tasks are scheduled into
//! passes: a task without dependencies runs in pass 0, any other task in the
//! pass after the latest pass of its dependencies.

use vstd::prelude::*;

verus! {

/// Index of a task in its graph.
#[derive(Clone, Copy, Debug, PartialEq, Eq, Structural)]
pub struct RenderTaskId(pub usize);

#[derive(Clone, Copy, Debug, PartialEq, Eq, Structural)]
pub enum RenderTaskKind {
    CacheMask,
    VerticalBlur,
    HorizontalBlur,
    Readback,
    Picture,
    Alias,
}

/// Where a task draws to.
#[derive(Clone, Copy, Debug, PartialEq, Eq, Structural)]
pub enum RenderTaskLocation {
    Framebuffer,
    /// A place in an atlas that is chosen when the pass is laid out.
    Dynamic { width: u32, height: u32 },
    Atlas { texture: u32, x: u32, y: u32, width: u32, height: u32 },
}

/// What a task of a given kind needs beyond its dependencies.
#[derive(Clone, Copy, Debug, PartialEq, Eq, Structural)]
pub enum RenderTaskPayload {
    Empty,
    Blur { radius: u32 },
    Mask { clip_node: usize },
    Picture { primitive: usize },
}

#[derive(Clone, Copy, Debug, PartialEq, Eq, Structural)]
pub enum RenderTaskError {
    /// A dependency names a task that the graph does not hold.
    UnknownDependency,
}

pub struct RenderTask {
    pub kind: RenderTaskKind,
    pub location: RenderTaskLocation,
    pub payload: RenderTaskPayload,
    pub children: Vec<RenderTaskId>,
}

/// A task as contracts see it.
pub ghost struct RenderTaskModel {
    pub kind: RenderTaskKind,
    pub location: RenderTaskLocation,
    pub payload: RenderTaskPayload,
    pub deps: Seq<int>,
}

/// The tasks that run together, by increasing id.
pub struct RenderPass {
    pub tasks: Vec<RenderTaskId>,
}

pub struct RenderTaskGraph {
    tasks: Vec<RenderTask>,
}

/// The indices that a list of task ids holds.
pub open spec fn ids_to_ints(ids: Seq<RenderTaskId>) -> Seq<int> {
    Seq::new(ids.len(), |k: int| ids[k].0 as int)
}

/// Every dependency of every task is an earlier task.
pub open spec fn acyclic(g: Seq<Seq<int>>) -> bool {
    forall|t: int, k: int|
        0 <= t < g.len() && 0 <= k < g[t].len() ==> 0 <= #[trigger] g[t][k] < t
}

/// The pass that the first `k` dependencies of task `t` force on it.
pub open spec fn pass_upto(g: Seq<Seq<int>>, t: int, k: int) -> int
    decreases t, k,
{
    if k <= 0 || t < 0 || t >= g.len() || k > g[t].len() {
        0
    } else {
        let d = g[t][k - 1];
        let rest = pass_upto(g, t, k - 1);
        if 0 <= d < t {
            let via = 1 + pass_upto(g, d, g[d].len() as int);
            if via > rest {
                via
            } else {
                rest
            }
        } else {
            rest
        }
    }
}

/// The pass of task `t`: 0 without dependencies, else one more than the
/// latest pass among them.
pub open spec fn pass_index(g: Seq<Seq<int>>, t: int) -> int {
    pass_upto(g, t, g[t].len() as int)
}

/// Task `p` names task `t` among its dependencies.
pub open spec fn reads_from(g: Seq<Seq<int>>, p: int, t: int) -> bool {
    0 <= p < g.len() && g[p].contains(t)
}

/// Task `t` is the task `root` or feeds, through any number of steps, into it.
pub open spec fn needed(g: Seq<Seq<int>>, root: int, t: int) -> bool
    decreases root - t,
{
    t == root || (t < root && exists|p: int|
        #[trigger] reads_from(g, p, t) && t < p <= root && needed(g, root, p))
}

/// The needed tasks below `upto` that run in pass `pass`, by increasing id.
pub open spec fn pass_members(g: Seq<Seq<int>>, root: int, pass: int, upto: int) -> Seq<int>
    decreases upto,
{
    if upto <= 0 {
        Seq::empty()
    } else {
        let before = pass_members(g, root, pass, upto - 1);
        if needed(g, root, upto - 1) && pass_index(g, upto - 1) == pass {
            before.push(upto - 1)
        } else {
            before
        }
    }
}

pub proof fn lemma_pass_upto_bounds(g: Seq<Seq<int>>, t: int, k: int)
    requires
        0 <= t < g.len(),
    ensures
        0 <= pass_upto(g, t, k) <= t,
    decreases t, k,
{
    if k <= 0 || k > g[t].len() {
    } else {
        let d = g[t][k - 1];
        lemma_pass_upto_bounds(g, t, k - 1);
        if 0 <= d < t {
            lemma_pass_upto_bounds(g, d, g[d].len() as int);
        }
    }
}

proof fn lemma_pass_upto_covers(g: Seq<Seq<int>>, t: int, k: int, j: int)
    requires
        acyclic(g),
        0 <= t < g.len(),
        0 <= j < k <= g[t].len(),
    ensures
        pass_index(g, g[t][j]) < pass_upto(g, t, k),
    decreases k,
{
    if j < k - 1 {
        lemma_pass_upto_covers(g, t, k - 1, j);
    }
}

/// A dependency runs in an earlier pass than the task that reads from it.
pub proof fn lemma_dependency_runs_earlier(g: Seq<Seq<int>>, t: int, k: int)
    requires
        acyclic(g),
        0 <= t < g.len(),
        0 <= k < g[t].len(),
    ensures
        0 <= pass_index(g, g[t][k]) < pass_index(g, t),
{
    lemma_pass_upto_covers(g, t, g[t].len() as int, k);
    lemma_pass_upto_bounds(g, g[t][k], g[g[t][k]].len() as int);
}

proof fn lemma_pass_upto_attained(g: Seq<Seq<int>>, t: int, k: int)
    requires
        acyclic(g),
        0 <= t < g.len(),
        0 <= k <= g[t].len(),
    ensures
        pass_upto(g, t, k) == 0 || exists|j: int|
            0 <= j < k && pass_upto(g, t, k) == 1 + #[trigger] pass_index(g, g[t][j]),
    decreases k,
{
    if k > 0 {
        lemma_pass_upto_attained(g, t, k - 1);
        let d = g[t][k - 1];
        let rest = pass_upto(g, t, k - 1);
        let via = 1 + pass_index(g, d);
        if via > rest {
            assert(pass_upto(g, t, k) == 1 + pass_index(g, g[t][k - 1]));
        } else if rest != 0 {
            let j = choose|j: int|
                0 <= j < k - 1 && pass_upto(g, t, k - 1) == 1 + #[trigger] pass_index(g, g[t][j]);
            assert(pass_upto(g, t, k) == 1 + pass_index(g, g[t][j]));
        }
    }
}

/// No task runs later than it must: a task without dependencies runs in pass
/// 0, and any other task runs right after one of its dependencies.
pub proof fn lemma_pass_is_earliest(g: Seq<Seq<int>>, t: int)
    requires
        acyclic(g),
        0 <= t < g.len(),
    ensures
        g[t].len() == 0 ==> pass_index(g, t) == 0,
        g[t].len() > 0 ==> exists|j: int|
            0 <= j < g[t].len() && pass_index(g, t) == 1 + #[trigger] pass_index(g, g[t][j]),
{
    lemma_pass_upto_attained(g, t, g[t].len() as int);
    if g[t].len() > 0 {
        lemma_dependency_runs_earlier(g, t, 0);
    }
}

/// A needed task other than the root runs in an earlier pass than the root.
pub proof fn lemma_needed_runs_before_root(g: Seq<Seq<int>>, root: int, t: int)
    requires
        acyclic(g),
        0 <= root < g.len(),
        0 <= t,
        needed(g, root, t),
        t != root,
    ensures
        pass_index(g, t) < pass_index(g, root),
    decreases root - t,
{
    let p = choose|p: int| #[trigger] reads_from(g, p, t) && t < p <= root && needed(g, root, p);
    let k = choose|k: int| 0 <= k < g[p].len() && g[p][k] == t;
    lemma_dependency_runs_earlier(g, p, k);
    if p != root {
        lemma_needed_runs_before_root(g, root, p);
    }
}

/// A pass holds exactly the needed tasks of its index, each once, by
/// increasing id.
pub proof fn lemma_pass_members(g: Seq<Seq<int>>, root: int, pass: int, upto: int)
    requires
        0 <= upto,
    ensures
        forall|t: int|
            #[trigger] pass_members(g, root, pass, upto).contains(t) <==> (0 <= t < upto && needed(
                g,
                root,
                t,
            ) && pass_index(g, t) == pass),
        forall|i: int, j: int|
            0 <= i < j < pass_members(g, root, pass, upto).len() ==> pass_members(
                g,
                root,
                pass,
                upto,
            )[i] < pass_members(g, root, pass, upto)[j],
        forall|i: int|
            0 <= i < pass_members(g, root, pass, upto).len() ==> 0 <= #[trigger] pass_members(
                g,
                root,
                pass,
                upto,
            )[i] < upto,
        pass_members(g, root, pass, upto).len() <= upto,
    decreases upto,
{
    if upto > 0 {
        lemma_pass_members(g, root, pass, upto - 1);
        let before = pass_members(g, root, pass, upto - 1);
        let now = pass_members(g, root, pass, upto);
        if needed(g, root, upto - 1) && pass_index(g, upto - 1) == pass {
            assert(now == before.push(upto - 1));
            assert(now[now.len() - 1] == upto - 1);
            assert forall|t: int| #[trigger] now.contains(t) implies (0 <= t < upto && needed(
                g,
                root,
                t,
            ) && pass_index(g, t) == pass) by {
                let i = choose|i: int| 0 <= i < now.len() && now[i] == t;
                if i < before.len() {
                    assert(before[i] == t);
                    assert(before.contains(t));
                }
            }
            assert forall|t: int|
                (0 <= t < upto && needed(g, root, t) && pass_index(g, t)
                    == pass) implies #[trigger] now.contains(t) by {
                if t == upto - 1 {
                    assert(now[now.len() - 1] == t);
                } else {
                    assert(before.contains(t));
                    let i = choose|i: int| 0 <= i < before.len() && before[i] == t;
                    assert(now[i] == t);
                }
            }
            assert forall|i: int, j: int| 0 <= i < j < now.len() implies now[i] < now[j] by {
                if j < before.len() {
                    assert(before[i] < before[j]);
                } else {
                    assert(now[i] == before[i]);
                }
            }
        } else {
            assert(now == before);
        }
    }
}

impl RenderTask {
    pub open spec fn model(self) -> RenderTaskModel {
        RenderTaskModel {
            kind: self.kind,
            location: self.location,
            payload: self.payload,
            deps: ids_to_ints(self.children@),
        }
    }
}

impl RenderTaskGraph {
    /// The tasks, in the order in which they were added.
    pub closed spec fn view(&self) -> Seq<RenderTaskModel> {
        Seq::new(self.tasks@.len(), |t: int| self.tasks@[t].model())
    }

    /// The dependencies of each task.
    pub open spec fn deps(&self) -> Seq<Seq<int>> {
        Seq::new(self@.len(), |t: int| self@[t].deps)
    }

    /// Every dependency of every task is an earlier task.
    pub open spec fn wf(&self) -> bool {
        acyclic(self.deps())
    }

    pub fn new() -> (g: RenderTaskGraph)
        ensures
            g@.len() == 0,
            g.wf(),
    {
        RenderTaskGraph { tasks: Vec::new() }
    }

    pub fn len(&self) -> (n: usize)
        ensures
            n == self@.len(),
    {
        self.tasks.len()
    }

    /// Adds a task that reads from `dependencies`, all of which the graph
    /// must hold already, and returns its id. With an unknown dependency the
    /// graph stays as it is.
    pub fn add_task(
        &mut self,
        kind: RenderTaskKind,
        location: RenderTaskLocation,
        payload: RenderTaskPayload,
        dependencies: Vec<RenderTaskId>,
    ) -> (r: Result<RenderTaskId, RenderTaskError>)
        requires
            old(self).wf(),
        ensures
            final(self).wf(),
            r is Ok <==> (forall|k: int|
                0 <= k < dependencies@.len() ==> (#[trigger] dependencies@[k]).0 < old(self)@.len()),
            r matches Ok(id) ==> id.0 == old(self)@.len() && final(self)@ == old(self)@.push(
                RenderTaskModel { kind, location, payload, deps: ids_to_ints(dependencies@) },
            ),
            r matches Err(e) ==> e == RenderTaskError::UnknownDependency && final(self)@ == old(
                self,
            )@,
    {
        let n = self.tasks.len();
        let mut k: usize = 0;
        while k < dependencies.len()
            invariant
                k <= dependencies@.len(),
                n == self.tasks@.len(),
                *self == *old(self),
                self.wf(),
                forall|j: int| 0 <= j < k ==> (#[trigger] dependencies@[j]).0 < n,
            decreases dependencies@.len() - k,
        {
            if dependencies[k].0 >= n {
                return Err(RenderTaskError::UnknownDependency);
            }
            k += 1;
        }
        let ghost added = RenderTaskModel {
            kind,
            location,
            payload,
            deps: ids_to_ints(dependencies@),
        };
        self.tasks.push(RenderTask { kind, location, payload, children: dependencies });
        proof {
            assert(self@ =~= old(self)@.push(added));
            assert forall|t: int, j: int|
                0 <= t < self.deps().len() && 0 <= j < self.deps()[t].len() implies 0
                <= #[trigger] self.deps()[t][j] < t by {
                if t < n {
                    assert(self.deps()[t] == old(self).deps()[t]);
                    assert(0 <= old(self).deps()[t][j] < t);
                } else {
                    assert(self.deps()[t][j] == dependencies@[j].0);
                }
            }
        }
        Ok(RenderTaskId(n))
    }

    pub fn kind(&self, id: RenderTaskId) -> (k: RenderTaskKind)
        requires
            id.0 < self@.len(),
        ensures
            k == self@[id.0 as int].kind,
    {
        self.tasks[id.0].kind
    }

    pub fn location(&self, id: RenderTaskId) -> (l: RenderTaskLocation)
        requires
            id.0 < self@.len(),
        ensures
            l == self@[id.0 as int].location,
    {
        self.tasks[id.0].location
    }

    pub fn payload(&self, id: RenderTaskId) -> (p: RenderTaskPayload)
        requires
            id.0 < self@.len(),
        ensures
            p == self@[id.0 as int].payload,
    {
        self.tasks[id.0].payload
    }

    /// The dependencies of a task, in the order given when it was added.
    pub fn dependencies(&self, id: RenderTaskId) -> (d: Vec<RenderTaskId>)
        requires
            id.0 < self@.len(),
        ensures
            ids_to_ints(d@) == self@[id.0 as int].deps,
    {
        let children = &self.tasks[id.0].children;
        let mut d: Vec<RenderTaskId> = Vec::new();
        let mut k: usize = 0;
        while k < children.len()
            invariant
                k <= children@.len(),
                d@ == children@.subrange(0, k as int),
            decreases children@.len() - k,
        {
            d.push(children[k]);
            assert(d@ == children@.subrange(0, k + 1));
            k += 1;
        }
        assert(d@ == children@);
        d
    }

    /// The pass of every task.
    pub fn pass_indices(&self) -> (passes: Vec<usize>)
        requires
            self.wf(),
        ensures
            passes@.len() == self@.len(),
            forall|t: int| 0 <= t < self@.len() ==> passes@[t] as int == pass_index(self.deps(), t),
            forall|t: int, k: int|
                0 <= t < self@.len() && 0 <= k < self@[t].deps.len() ==> passes@[self@[t].deps[k]]
                    < passes@[t],
    {
        let ghost g = self.deps();
        let n = self.tasks.len();
        let mut passes: Vec<usize> = Vec::new();
        let mut t: usize = 0;
        while t < n
            invariant
                t <= n,
                n == self.tasks@.len(),
                g == self.deps(),
                acyclic(g),
                passes@.len() == t,
                forall|j: int| 0 <= j < t ==> passes@[j] as int == pass_index(g, j),
            decreases n - t,
        {
            let children = &self.tasks[t].children;
            let mut best: usize = 0;
            let mut k: usize = 0;
            assert(g[t as int] == ids_to_ints(children@));
            while k < children.len()
                invariant
                    t < n,
                    n == g.len(),
                    acyclic(g),
                    k <= children@.len(),
                    g[t as int] == ids_to_ints(children@),
                    passes@.len() == t,
                    forall|j: int| 0 <= j < t ==> passes@[j] as int == pass_index(g, j),
                    best as int == pass_upto(g, t as int, k as int),
                decreases children@.len() - k,
            {
                let d = children[k].0;
                proof {
                    assert(g[t as int][k as int] == d);
                    assert(0 <= d < t);
                    lemma_pass_upto_bounds(g, d as int, g[d as int].len() as int);
                    assert(passes@[d as int] as int == pass_index(g, d as int));
                    assert(pass_upto(g, t as int, k + 1) == if 1 + pass_index(g, d as int)
                        > pass_upto(g, t as int, k as int) {
                        1 + pass_index(g, d as int)
                    } else {
                        pass_upto(g, t as int, k as int)
                    });
                }
                let via: usize = passes[d] + 1;
                if via > best {
                    best = via;
                }
                k += 1;
            }
            passes.push(best);
            t += 1;
        }
        proof {
            assert forall|t: int, k: int|
                0 <= t < self@.len() && 0 <= k < self@[t].deps.len() implies passes@[self@[t].deps[k]]
                < passes@[t] by {
                assert(g[t][k] == self@[t].deps[k]);
                lemma_dependency_runs_earlier(g, t, k);
            }
        }
        passes
    }

    /// Which tasks the task `root` needs, itself included.
    pub fn needed_tasks(&self, root: RenderTaskId) -> (marks: Vec<bool>)
        requires
            self.wf(),
            root.0 < self@.len(),
        ensures
            marks@.len() == root.0 + 1,
            forall|t: int| 0 <= t <= root.0 ==> marks@[t] == needed(self.deps(), root.0 as int, t),
    {
        let ghost g = self.deps();
        let ghost r = root.0 as int;
        let n = self.tasks.len();
        let mut marks: Vec<bool> = Vec::new();
        let mut i: usize = 0;
        while i < root.0
            invariant
                i <= root.0,
                marks@.len() == i,
                forall|t: int| 0 <= t < i ==> !marks@[t],
            decreases root.0 - i,
        {
            marks.push(false);
            i += 1;
        }
        marks.push(true);
        // Walk from the root down: when task `p` is reached, every task that
        // names it has been visited, so its own mark is settled.
        let mut p: usize = root.0 + 1;
        assert forall|t: int| 0 <= t <= r implies (marks@[t] <==> marked_from(g, r, p as int, t)) by {
            if t != r && marked_from(g, r, p as int, t) {
                let q = choose|q: int|
                    #[trigger] reads_from(g, q, t) && p <= q <= r && t < q && needed(g, r, q);
            }
        }
        while p > 0
            invariant
                p <= root.0 + 1,
                r == root.0,
                r < g.len(),
                g == self.deps(),
                g.len() == self.tasks@.len(),
                acyclic(g),
                marks@.len() == r + 1,
                forall|t: int| 0 <= t <= r ==> (marks@[t] <==> marked_from(g, r, p as int, t)),
            decreases p,
        {
            p -= 1;
            let ghost before = marks@;
            proof {
                lemma_marked_settled(g, r, p as int + 1, p as int);
            }
            if marks[p] {
                let children = &self.tasks[p].children;
                assert(g[p as int] == ids_to_ints(children@));
                let mut k: usize = 0;
                while k < children.len()
                    invariant
                        k <= children@.len(),
                        p <= r,
                        r < g.len(),
                        acyclic(g),
                        g[p as int] == ids_to_ints(children@),
                        marks@.len() == r + 1,
                        before.len() == r + 1,
                        forall|t: int|
                            0 <= t <= r ==> (marks@[t] <==> (before[t] || exists|j: int|
                                0 <= j < k && #[trigger] g[p as int][j] == t)),
                    decreases children@.len() - k,
                {
                    let c = children[k].0;
                    let ghost prev = marks@;
                    assert(forall|t: int|
                        0 <= t <= r ==> (prev[t] <==> (before[t] || exists|j: int|
                            0 <= j < k && #[trigger] g[p as int][j] == t)));
                    assert(g[p as int][k as int] == c);
                    marks.set(c, true);
                    assert forall|t: int| 0 <= t <= r implies (marks@[t] <==> (before[t] || exists|
                        j: int,
                    |
                        0 <= j < k + 1 && #[trigger] g[p as int][j] == t)) by {
                        if t == c {
                            assert(g[p as int][k as int] == t);
                            assert(marks@[t]);
                        } else {
                            assert(marks@[t] == prev[t]);
                            assert(prev[t] <==> (before[t] || exists|j: int|
                                0 <= j < k && #[trigger] g[p as int][j] == t));
                            if exists|j: int| 0 <= j < k + 1 && #[trigger] g[p as int][j] == t {
                                let j = choose|j: int|
                                    0 <= j < k + 1 && #[trigger] g[p as int][j] == t;
                                assert(0 <= j < k && g[p as int][j] == t);
                            }
                            if prev[t] && !before[t] {
                                let j = choose|j: int| 0 <= j < k && #[trigger] g[p as int][j] == t;
                                assert(0 <= j < k + 1 && g[p as int][j] == t);
                            }
                        }
                    }
                    k += 1;
                }
                proof {
                    assert forall|t: int| 0 <= t <= r implies (marks@[t] <==> marked_from(
                        g,
                        r,
                        p as int,
                        t,
                    )) by {
                        lemma_marked_step(g, r, p as int, t);
                        assert(before[t] <==> marked_from(g, r, p + 1, t));
                        if g[p as int].contains(t) {
                            let j = choose|j: int| 0 <= j < g[p as int].len() && g[p as int][j] == t;
                            assert(g[p as int][j] == t);
                        }
                        if exists|j: int| 0 <= j < k && #[trigger] g[p as int][j] == t {
                            let j = choose|j: int| 0 <= j < k && #[trigger] g[p as int][j] == t;
                            assert(g[p as int].contains(t));
                        }
                    }
                }
            } else {
                proof {
                    assert forall|t: int| 0 <= t <= r implies (marks@[t] <==> marked_from(
                        g,
                        r,
                        p as int,
                        t,
                    )) by {
                        lemma_marked_step(g, r, p as int, t);
                        assert(before[t] <==> marked_from(g, r, p + 1, t));
                    }
                }
            }
        }
        proof {
            assert forall|t: int| 0 <= t <= r implies marks@[t] == needed(g, r, t) by {
                lemma_marked_settled(g, r, 0, t);
            }
        }
        marks
    }

    /// The passes that lead to the task `root`: pass `k` holds the tasks that
    /// `root` needs and that run in pass `k`, by increasing id. The last pass
    /// is that of `root`; whatever else it needs runs before
    /// (`lemma_needed_runs_before_root`).
    pub fn build_passes(&self, root: RenderTaskId) -> (passes: Vec<RenderPass>)
        requires
            self.wf(),
            root.0 < self@.len(),
        ensures
            passes@.len() == pass_index(self.deps(), root.0 as int) + 1,
            forall|k: int|
                0 <= k < passes@.len() ==> ids_to_ints((#[trigger] passes@[k]).tasks@)
                    == pass_members(self.deps(), root.0 as int, k, root.0 + 1),
    {
        let ghost g = self.deps();
        let ghost r = root.0 as int;
        let n = self.tasks.len();
        let indices = self.pass_indices();
        let marks = self.needed_tasks(root);
        proof {
            lemma_pass_upto_bounds(g, r, g[r].len() as int);
        }
        let count: usize = indices[root.0] + 1;
        let mut passes: Vec<RenderPass> = Vec::new();
        let mut k: usize = 0;
        while k < count
            invariant
                k <= count,
                root.0 < usize::MAX,
                count == pass_index(g, r) + 1,
                0 <= r < g.len(),
                r == root.0,
                g.len() == indices@.len(),
                marks@.len() == r + 1,
                forall|t: int| 0 <= t < g.len() ==> indices@[t] as int == pass_index(g, t),
                forall|t: int| 0 <= t <= r ==> marks@[t] == needed(g, r, t),
                passes@.len() == k,
                forall|j: int|
                    0 <= j < k ==> ids_to_ints((#[trigger] passes@[j]).tasks@) == pass_members(
                        g,
                        r,
                        j,
                        r + 1,
                    ),
            decreases count - k,
        {
            let mut tasks: Vec<RenderTaskId> = Vec::new();
            let mut t: usize = 0;
            while t <= root.0
                invariant
                    t <= root.0 + 1,
                    root.0 < usize::MAX,
                    0 <= r < g.len(),
                    r == root.0,
                    g.len() == indices@.len(),
                    marks@.len() == r + 1,
                    forall|j: int| 0 <= j < g.len() ==> indices@[j] as int == pass_index(g, j),
                    forall|j: int| 0 <= j <= r ==> marks@[j] == needed(g, r, j),
                    ids_to_ints(tasks@) == pass_members(g, r, k as int, t as int),
                decreases root.0 + 1 - t,
            {
                if marks[t] && indices[t] == k {
                    let ghost prev = tasks@;
                    tasks.push(RenderTaskId(t));
                    assert(ids_to_ints(tasks@) == ids_to_ints(prev).push(t as int));
                }
                t += 1;
            }
            passes.push(RenderPass { tasks });
            k += 1;
        }
        passes
    }
}

/// Task `t` is the root, or a needed task from `low` on reads from it.
pub open spec fn marked_from(g: Seq<Seq<int>>, r: int, low: int, t: int) -> bool {
    t == r || exists|q: int|
        #[trigger] reads_from(g, q, t) && low <= q <= r && t < q && needed(g, r, q)
}

/// Once every task above `t` has been walked, the mark of `t` says whether
/// `t` is needed.
proof fn lemma_marked_settled(g: Seq<Seq<int>>, r: int, low: int, t: int)
    requires
        0 <= t <= r,
        low <= t + 1,
    ensures
        marked_from(g, r, low, t) == needed(g, r, t),
{
    if marked_from(g, r, low, t) && t != r {
        let q = choose|q: int|
            #[trigger] reads_from(g, q, t) && low <= q <= r && t < q && needed(g, r, q);
        assert(reads_from(g, q, t) && t < q <= r && needed(g, r, q));
    }
    if needed(g, r, t) && t != r {
        let q = choose|q: int| #[trigger] reads_from(g, q, t) && t < q <= r && needed(g, r, q);
        assert(reads_from(g, q, t) && low <= q <= r && t < q && needed(g, r, q));
    }
}

/// Walking task `p` marks what `p` reads from, if `p` is needed.
proof fn lemma_marked_step(g: Seq<Seq<int>>, r: int, p: int, t: int)
    requires
        acyclic(g),
        0 <= p <= r < g.len(),
        0 <= t <= r,
    ensures
        marked_from(g, r, p, t) <==> (marked_from(g, r, p + 1, t) || (needed(g, r, p)
            && g[p].contains(t))),
{
    if marked_from(g, r, p, t) && t != r {
        let q = choose|q: int|
            #[trigger] reads_from(g, q, t) && p <= q <= r && t < q && needed(g, r, q);
        if q != p {
            assert(reads_from(g, q, t) && p + 1 <= q <= r && t < q && needed(g, r, q));
        }
    }
    if marked_from(g, r, p + 1, t) && t != r {
        let q = choose|q: int|
            #[trigger] reads_from(g, q, t) && p + 1 <= q <= r && t < q && needed(g, r, q);
        assert(reads_from(g, q, t) && p <= q <= r && t < q && needed(g, r, q));
    }
    if needed(g, r, p) && g[p].contains(t) && t != r {
        let j = choose|j: int| 0 <= j < g[p].len() && g[p][j] == t;
        assert(0 <= g[p][j] < p);
        assert(reads_from(g, p, t) && p <= p <= r && t < p && needed(g, r, p));
    }
}

} // verus!
