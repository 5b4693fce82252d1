use webrender::render_task::{
    RenderTaskError, RenderTaskGraph, RenderTaskId, RenderTaskKind, RenderTaskLocation,
    RenderTaskPayload,
};

fn add(graph: &mut RenderTaskGraph, kind: RenderTaskKind, deps: Vec<usize>) -> RenderTaskId {
    let deps = deps.into_iter().map(RenderTaskId).collect();
    graph
        .add_task(kind, RenderTaskLocation::Framebuffer, RenderTaskPayload::Empty, deps)
        .unwrap()
}

#[test]
fn a_task_gets_the_next_id() {
    let mut g = RenderTaskGraph::new();
    assert_eq!(g.len(), 0);
    assert_eq!(add(&mut g, RenderTaskKind::CacheMask, vec![]), RenderTaskId(0));
    assert_eq!(add(&mut g, RenderTaskKind::Picture, vec![0]), RenderTaskId(1));
    assert_eq!(g.len(), 2);
    assert_eq!(g.kind(RenderTaskId(1)), RenderTaskKind::Picture);
    assert_eq!(g.dependencies(RenderTaskId(1)), vec![RenderTaskId(0)]);
    assert_eq!(g.location(RenderTaskId(0)), RenderTaskLocation::Framebuffer);
    assert_eq!(g.payload(RenderTaskId(0)), RenderTaskPayload::Empty);
}

#[test]
fn an_unknown_dependency_is_refused() {
    let mut g = RenderTaskGraph::new();
    add(&mut g, RenderTaskKind::CacheMask, vec![]);
    let r = g.add_task(
        RenderTaskKind::Picture,
        RenderTaskLocation::Framebuffer,
        RenderTaskPayload::Empty,
        vec![RenderTaskId(0), RenderTaskId(1)],
    );
    assert_eq!(r, Err(RenderTaskError::UnknownDependency));
    assert_eq!(g.len(), 1);
    // A task cannot read from itself either.
    let own = g.add_task(
        RenderTaskKind::Alias,
        RenderTaskLocation::Framebuffer,
        RenderTaskPayload::Empty,
        vec![RenderTaskId(1)],
    );
    assert_eq!(own, Err(RenderTaskError::UnknownDependency));
}

#[test]
fn a_pass_is_one_more_than_the_latest_dependency() {
    let mut g = RenderTaskGraph::new();
    add(&mut g, RenderTaskKind::CacheMask, vec![]); // 0: pass 0
    add(&mut g, RenderTaskKind::VerticalBlur, vec![0]); // 1: pass 1
    add(&mut g, RenderTaskKind::HorizontalBlur, vec![1]); // 2: pass 2
    add(&mut g, RenderTaskKind::Readback, vec![]); // 3: pass 0
    add(&mut g, RenderTaskKind::Picture, vec![3, 2, 0]); // 4: pass 3
    assert_eq!(g.pass_indices(), vec![0, 1, 2, 0, 3]);
}

#[test]
fn every_dependency_runs_in_an_earlier_pass() {
    let mut g = RenderTaskGraph::new();
    add(&mut g, RenderTaskKind::CacheMask, vec![]);
    add(&mut g, RenderTaskKind::CacheMask, vec![]);
    add(&mut g, RenderTaskKind::VerticalBlur, vec![0, 1]);
    add(&mut g, RenderTaskKind::HorizontalBlur, vec![2, 0]);
    add(&mut g, RenderTaskKind::Picture, vec![1]);
    add(&mut g, RenderTaskKind::Picture, vec![3, 4]);
    let passes = g.pass_indices();
    for t in 0..g.len() {
        for d in g.dependencies(RenderTaskId(t)) {
            assert!(passes[d.0] < passes[t]);
        }
    }
}

#[test]
fn passes_hold_only_what_the_root_needs() {
    let mut g = RenderTaskGraph::new();
    add(&mut g, RenderTaskKind::CacheMask, vec![]); // 0 needed
    add(&mut g, RenderTaskKind::CacheMask, vec![]); // 1 not needed
    add(&mut g, RenderTaskKind::VerticalBlur, vec![0]); // 2 needed
    add(&mut g, RenderTaskKind::Readback, vec![1]); // 3 not needed
    add(&mut g, RenderTaskKind::Readback, vec![]); // 4 needed
    add(&mut g, RenderTaskKind::Picture, vec![2, 4]); // 5 root
    add(&mut g, RenderTaskKind::Picture, vec![5]); // 6 after the root
    assert_eq!(
        g.needed_tasks(RenderTaskId(5)),
        vec![true, false, true, false, true, true]
    );
    let passes = g.build_passes(RenderTaskId(5));
    assert_eq!(passes.len(), 3);
    assert_eq!(passes[0].tasks, vec![RenderTaskId(0), RenderTaskId(4)]);
    assert_eq!(passes[1].tasks, vec![RenderTaskId(2)]);
    assert_eq!(passes[2].tasks, vec![RenderTaskId(5)]);
}

#[test]
fn a_root_without_dependencies_is_one_pass() {
    let mut g = RenderTaskGraph::new();
    add(&mut g, RenderTaskKind::Picture, vec![]);
    let passes = g.build_passes(RenderTaskId(0));
    assert_eq!(passes.len(), 1);
    assert_eq!(passes[0].tasks, vec![RenderTaskId(0)]);
}
