//! The traversal scheduler: closure computation, dedup of in-flight hashes,
//! and determinism of the resolved set across scheduling orders.

use std::collections::HashMap;

use lbp_archive_dl::resolver::Resolver;
use lbp_archive_dl::resrc::hash_children;
use lbp_archive_dl::resrc::ResrcClass;
use lbp_archive_dl::resrc::ResrcDescriptor;
use lbp_archive_dl::store::ContentStore;
use lbp_archive_dl::store::DiskProbe;
use lbp_archive_dl::store::DownloadResult;
use sha1::Digest;
use sha1::Sha1;

fn sha1_of(bytes: &[u8]) -> [u8; 20] {
    let mut hasher = Sha1::new();
    hasher.update(bytes);
    hasher.finalize().into()
}

/// A fixed fake archive: per hash, its bytes and the children its blob
/// reports. The resolver is driven to completion, taking the next task from
/// the front or the back of the task list depending on `lifo`.
fn run_to_completion(
    contents: &HashMap<[u8; 20], (Vec<u8>, Vec<[u8; 20]>)>,
    root: [u8; 20],
    icon: Option<[u8; 20]>,
    lifo: bool,
) -> DownloadResult {
    let mut store = ContentStore::new();
    let (mut resolver, mut tasks) = Resolver::new(&root, icon.as_ref());
    let mut failures: usize = 0;
    while let Some(hash) = if lifo { tasks.pop() } else { Some(tasks.remove(0)) } {
        let claimed = store.try_claim(&hash);
        assert!(claimed, "each hash is spawned exactly once");
        let (bytes, children) = contents.get(&hash).expect("hash present in the fake archive");
        store
            .on_disk_probe(&hash, DiskProbe::Found(bytes.clone()))
            .expect("fake archive bytes are honest");
        let class = if children.is_empty() && bytes.first() == Some(&0xff) {
            failures += 1;
            ResrcClass::Unparsed
        } else {
            ResrcClass::Binary(
                children
                    .iter()
                    .map(|c| ResrcDescriptor::Sha1(*c))
                    .collect(),
            )
        };
        let spawn = resolver.on_task_children(&hash, &class);
        tasks.extend(spawn);
        if tasks.is_empty() {
            break;
        }
    }
    assert!(resolver.is_done());
    assert_eq!(resolver.extraction_failures(), failures);
    store.into_result(resolver.extraction_failures())
}

/// A diamond-shaped dependency graph with a shared grandchild:
/// root -> {a, b}, a -> {c}, b -> {c}, c -> {}.
fn diamond() -> (HashMap<[u8; 20], (Vec<u8>, Vec<[u8; 20]>)>, [u8; 20]) {
    let root_bytes = b"root blob".to_vec();
    let a_bytes = b"child a".to_vec();
    let b_bytes = b"child b".to_vec();
    let c_bytes = b"shared grandchild".to_vec();
    let (root, a, b, c) = (
        sha1_of(&root_bytes),
        sha1_of(&a_bytes),
        sha1_of(&b_bytes),
        sha1_of(&c_bytes),
    );
    let mut m = HashMap::new();
    m.insert(root, (root_bytes, vec![a, b]));
    m.insert(a, (a_bytes, vec![c]));
    m.insert(b, (b_bytes, vec![c]));
    m.insert(c, (c_bytes, vec![]));
    (m, root)
}

#[test]
fn closure_covers_all_reachable_hashes() {
    let (contents, root) = diamond();
    let result = run_to_completion(&contents, root, None, false);
    assert_eq!(result.success_count, 4);
    assert_eq!(result.error_count, 0);
    for (hash, (bytes, _)) in &contents {
        let got = result.resources.get(hash).expect("reachable hash resolved");
        assert_eq!(got, bytes);
        // Integrity over the whole result.
        assert_eq!(sha1_of(got), *hash);
    }
}

#[test]
fn resolved_set_is_independent_of_scheduling_order() {
    // The same root over the same contents, drained in opposite orders,
    // resolves exactly the same set with the same bytes.
    let (contents, root) = diamond();
    let fifo = run_to_completion(&contents, root, None, false);
    let lifo = run_to_completion(&contents, root, None, true);
    assert_eq!(fifo.success_count, lifo.success_count);
    let mut fifo_hashes = fifo.resources.hashes();
    let mut lifo_hashes = lifo.resources.hashes();
    fifo_hashes.sort();
    lifo_hashes.sort();
    assert_eq!(fifo_hashes, lifo_hashes);
    for h in &fifo_hashes {
        assert_eq!(fifo.resources.get(h), lifo.resources.get(h));
    }
}

#[test]
fn rerun_yields_identical_result_map() {
    // Resolving the same root twice over unchanged contents yields an
    // identical result map both times.
    let (contents, root) = diamond();
    let first = run_to_completion(&contents, root, None, false);
    let second = run_to_completion(&contents, root, None, false);
    assert_eq!(first.success_count, second.success_count);
    let hashes = first.resources.hashes();
    assert_eq!(hashes.len(), second.resources.hashes().len());
    for h in &hashes {
        assert_eq!(first.resources.get(h), second.resources.get(h));
    }
}

#[test]
fn icon_root_is_a_second_independent_root() {
    let (mut contents, root) = diamond();
    let icon_bytes = b"icon texture".to_vec();
    let icon = sha1_of(&icon_bytes);
    contents.insert(icon, (icon_bytes, vec![]));
    let result = run_to_completion(&contents, root, Some(icon), false);
    assert_eq!(result.success_count, 5);
    assert!(result.resources.get(&icon).is_some());
}

#[test]
fn duplicate_roots_spawn_one_task() {
    let root = sha1_of(b"only root");
    let (_, tasks) = Resolver::new(&root, Some(&root));
    assert_eq!(tasks, vec![root]);
    let other = sha1_of(b"an icon");
    let (_, tasks2) = Resolver::new(&root, Some(&other));
    assert_eq!(tasks2, vec![root, other]);
}

#[test]
fn guid_references_are_not_traversed() {
    let descs = vec![
        ResrcDescriptor::Sha1(sha1_of(b"one")),
        ResrcDescriptor::Guid(4242),
        ResrcDescriptor::Sha1(sha1_of(b"two")),
    ];
    let children = hash_children(&descs);
    assert_eq!(children, vec![sha1_of(b"one"), sha1_of(b"two")]);
}

#[test]
fn extraction_failure_is_a_leaf_and_counted() {
    // A blob the extractor cannot classify ends the branch without failing
    // the run, and is counted.
    let root_bytes = b"root blob".to_vec();
    let mut odd_bytes = vec![0xffu8];
    odd_bytes.extend_from_slice(b"unclassifiable");
    let root = sha1_of(&root_bytes);
    let odd = sha1_of(&odd_bytes);
    let mut contents = HashMap::new();
    contents.insert(root, (root_bytes, vec![odd]));
    contents.insert(odd, (odd_bytes, vec![]));
    let result = run_to_completion(&contents, root, None, false);
    assert_eq!(result.success_count, 2);
    assert_eq!(result.error_count, 1);
}

#[test]
fn report_for_unknown_hash_changes_nothing() {
    let root = sha1_of(b"the root");
    let (mut resolver, _tasks) = Resolver::new(&root, None);
    let stray = sha1_of(b"never enqueued");
    let spawn = resolver.on_task_children(&stray, &ResrcClass::Other);
    assert!(spawn.is_empty());
    assert!(!resolver.is_done());
}
