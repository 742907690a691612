use markview::mermaid_cache::{BlockState, MermaidCache, Plan, MAX_ENTRIES, REDRAW_DELAY_MS};

#[test]
fn first_sight_renders_then_shows() {
    let mut c = MermaidCache::new();
    assert_eq!(c.plan(0, 7, 1000), Plan::Render);
    assert_eq!(c.store(7, true), None);
    assert_eq!(c.finish(0, 7), Some(true));
    assert_eq!(c.plan(0, 7, 1010), Plan::Show(7));
    assert_eq!(c.blocks[0].last_ok, Some(7));
}

#[test]
fn edited_block_keeps_its_picture_for_a_moment() {
    let mut c = MermaidCache::new();
    c.plan(0, 1, 0);
    c.store(1, true);
    c.finish(0, 1);
    // The source changes at t = 1000.
    assert_eq!(c.plan(0, 2, 1000), Plan::Wait { previous: 1, remaining_ms: REDRAW_DELAY_MS });
    assert_eq!(c.plan(0, 2, 1100), Plan::Wait { previous: 1, remaining_ms: 150 });
    assert_eq!(c.plan(0, 2, 1000 + REDRAW_DELAY_MS), Plan::Render);
}

#[test]
fn failed_render_is_kept_and_not_preferred() {
    let mut c = MermaidCache::new();
    c.plan(0, 1, 0);
    c.store(1, true);
    c.finish(0, 1);
    c.plan(0, 2, 500);
    c.store(2, false);
    assert_eq!(c.finish(0, 2), Some(false));
    assert_eq!(c.blocks[0].attempted, Some(2));
    assert_eq!(c.blocks[0].last_ok, Some(1));
    // Editing again: the last good picture stands in, not the failure.
    assert_eq!(c.plan(0, 3, 900), Plan::Wait { previous: 1, remaining_ms: REDRAW_DELAY_MS });
}

#[test]
fn least_recently_used_picture_goes() {
    let mut c = MermaidCache::new();
    for k in 0..MAX_ENTRIES as u64 {
        c.plan(0, k, 0);
        assert_eq!(c.store(k, true), None);
    }
    // Use picture 0 again, so that 1 is now the oldest.
    c.plan(0, 0, 0);
    c.finish(0, 0);
    c.plan(0, 99, 0);
    assert_eq!(c.store(99, true), Some(1));
    assert_eq!(c.entries.len(), MAX_ENTRIES);
}

#[test]
fn blocks_grow_on_demand_and_clear() {
    let mut c = MermaidCache::default();
    c.plan(2, 5, 10);
    assert_eq!(c.blocks.len(), 3);
    assert_eq!(c.blocks[1].wanted, 5);
    assert_eq!(c.blocks[1].changed_at, 10);
    let fresh = BlockState::new(4, 20);
    assert_eq!((fresh.wanted, fresh.attempted, fresh.last_ok, fresh.changed_at), (4, None, None, 20));
    c.clear();
    assert!(c.entries.is_empty() && c.blocks.is_empty());
}
