use packagesbot::telegram::bot::{search_reply, SEARCH_WORKERS_COUNT};
use packagesbot::Package;
use std::sync::atomic::{AtomicUsize, Ordering};
use std::sync::Arc;
use threadpool::ThreadPool;

#[test]
fn test_pool_completes_all_search_tasks() {
    let pool = ThreadPool::new(SEARCH_WORKERS_COUNT);
    let done = Arc::new(AtomicUsize::new(0));
    let active = Arc::new(AtomicUsize::new(0));
    let max_active = Arc::new(AtomicUsize::new(0));
    let submitted = 40;
    for i in 0..submitted {
        let done = done.clone();
        let active = active.clone();
        let max_active = max_active.clone();
        pool.execute(move || {
            let now = active.fetch_add(1, Ordering::SeqCst) + 1;
            max_active.fetch_max(now, Ordering::SeqCst);
            let pkgs = vec![Package {
                name: format!("p{}", i),
                repository: None,
                documentation: None,
                description: None,
            }];
            let reply = search_reply(&Ok(pkgs));
            assert!(reply.contains("<b>"));
            active.fetch_sub(1, Ordering::SeqCst);
            done.fetch_add(1, Ordering::SeqCst);
        });
    }
    pool.join();
    assert_eq!(done.load(Ordering::SeqCst), submitted);
    assert!(max_active.load(Ordering::SeqCst) <= SEARCH_WORKERS_COUNT);
}

#[test]
fn test_pool_tasks_for_distinct_commands_are_independent() {
    let pool = ThreadPool::new(SEARCH_WORKERS_COUNT);
    let done = Arc::new(AtomicUsize::new(0));
    for _ in 0..SEARCH_WORKERS_COUNT * 2 {
        let done = done.clone();
        pool.execute(move || {
            // A failing backend never stops the others: every task still
            // produces the fallback reply.
            let reply = search_reply(&Ok(Vec::<Package>::new()));
            assert_eq!(reply, "No results found");
            done.fetch_add(1, Ordering::SeqCst);
        });
    }
    pool.join();
    assert_eq!(done.load(Ordering::SeqCst), SEARCH_WORKERS_COUNT * 2);
}
