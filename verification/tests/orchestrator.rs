use dq::entity::Docset;
use dq::pool::BoundedPool;
use dq::progress::ProgressBarManager;
use dq::update::select_docsets;

fn docset(slug: &str) -> Docset {
    Docset {
        name: String::from(slug),
        slug: String::from(slug),
        doc_type: String::new(),
        links: None,
        version: None,
        release: None,
        mtime: 1,
        db_size: 0,
    }
}

#[test]
fn pool_never_exceeds_limit() {
    let mut pool = BoundedPool::new(10, 3);
    let mut max_in_flight = 0;
    while !pool.is_done() {
        while pool.can_start() {
            pool.start();
            max_in_flight = max_in_flight.max(pool.in_flight());
        }
        pool.on_complete();
    }
    assert_eq!(max_in_flight, 3);
}

#[test]
fn three_sets_limit_two_runs_all_three() {
    // Catalog of three sets, selection all, limit two: exactly three
    // units run, at most two concurrently, and the final count is three.
    let docsets = vec![docset("a"), docset("b"), docset("c")];
    let selected = select_docsets(&docsets, true, &Vec::new());
    assert_eq!(selected, vec![0, 1, 2]);

    let mut m = ProgressBarManager::new();
    let root = m.add_root();
    let mut pool = BoundedPool::new(selected.len(), 2);
    let mut started_units = Vec::new();
    let mut max_in_flight = 0;
    while !pool.is_done() {
        while pool.can_start() {
            let idx = pool.start();
            started_units.push(selected[idx]);
            assert!(pool.in_flight() <= 2);
            max_in_flight = max_in_flight.max(pool.in_flight());
        }
        pool.on_complete();
        m.inc(root, 1);
    }
    assert_eq!(started_units, vec![0, 1, 2]);
    assert_eq!(max_in_flight, 2);
    assert_eq!(m.bar(root).position, 3);
    m.finish(root, String::from("All docsets updated"));
    assert!(m.bar(root).finished);
}

#[test]
fn selection_by_slug_keeps_catalog_order() {
    let docsets = vec![docset("a"), docset("b"), docset("c"), docset("d")];
    let slugs = vec![String::from("d"), String::from("b")];
    let selected = select_docsets(&docsets, false, &slugs);
    assert_eq!(selected, vec![1, 3]);
}

#[test]
fn empty_selection_selects_nothing() {
    let docsets = vec![docset("a"), docset("b")];
    let selected = select_docsets(&docsets, false, &Vec::new());
    assert!(selected.is_empty());
    let unknown = select_docsets(&docsets, false, &vec![String::from("zz")]);
    assert!(unknown.is_empty());
}
