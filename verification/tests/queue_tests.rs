use paul_scrape_rs::path::Path;
use paul_scrape_rs::queue::{Queue, QueueEntry};
use paul_scrape_rs::retry::RetryPolicy;

fn tree_entry(url: &str) -> QueueEntry {
    QueueEntry::Tree(url.to_string(), Path::new().push("root".to_string()))
}

fn leaf_entry(url: &str) -> QueueEntry {
    QueueEntry::CourseLeaf(url.to_string(), Path::new().push("root".to_string()))
}

fn entry_url(e: &QueueEntry) -> String {
    match e {
        QueueEntry::Main => "main".to_string(),
        QueueEntry::Tree(u, _) => u.clone(),
        QueueEntry::CourseLeaf(u, _) => u.clone(),
        QueueEntry::SmallGroupLeaf(u, _) => u.clone(),
    }
}

#[test]
fn pushes_then_pops_are_a_permutation() {
    let mut q = Queue::new();
    let mut pushed: Vec<String> = Vec::new();
    for i in 0..50u32 {
        let url = format!("https://example.test/{}", i);
        pushed.push(url.clone());
        if i % 3 == 0 {
            q.push_back(leaf_entry(&url));
        } else {
            q.push_back(tree_entry(&url));
        }
    }
    assert_eq!(q.len(), 50);
    let mut popped: Vec<String> = Vec::new();
    for _ in 0..50 {
        let e = q.pop().expect("queue should not be empty yet");
        popped.push(entry_url(&e));
    }
    assert_eq!(q.len(), 0);
    assert!(q.pop().is_none());
    pushed.sort();
    popped.sort();
    assert_eq!(pushed, popped);
}

#[test]
fn pop_on_empty_returns_none() {
    let mut q = Queue::new();
    assert_eq!(q.len(), 0);
    assert!(q.pop().is_none());
}

#[test]
fn category_counters_track_pushes_and_pops() {
    let mut q = Queue::new();
    q.push_back(QueueEntry::Main);
    q.push_back(tree_entry("a"));
    q.push_back(leaf_entry("b"));
    q.push_back(QueueEntry::SmallGroupLeaf("c".to_string(), Path::new()));
    assert_eq!(q.tree_pushed, 2);
    assert_eq!(q.leaf_pushed, 2);
    assert_eq!(q.tree_popped, 0);
    assert_eq!(q.leaf_popped, 0);
    for _ in 0..4 {
        q.pop().unwrap();
    }
    assert_eq!(q.tree_popped, 2);
    assert_eq!(q.leaf_popped, 2);
}

#[test]
fn single_entry_round_trip() {
    let mut q = Queue::new();
    q.push_back(tree_entry("only"));
    let e = q.pop().unwrap();
    assert_eq!(entry_url(&e), "only");
    assert!(q.pop().is_none());
}

#[test]
fn pop_at_removes_the_chosen_entry() {
    let mut q = Queue::new();
    q.push_back(tree_entry("a"));
    q.push_back(tree_entry("b"));
    q.push_back(tree_entry("c"));
    let e = q.pop_at(1);
    assert_eq!(entry_url(&e), "b");
    assert_eq!(q.len(), 2);
}

#[test]
fn retry_policy_defaults_to_forever() {
    let p = RetryPolicy::unbounded();
    assert_eq!(p.next_delay(0), Some(0));
    assert_eq!(p.next_delay(1_000_000), Some(0));
    let bounded = RetryPolicy { max_attempts: Some(3), backoff_ms: 250 };
    assert_eq!(bounded.next_delay(0), Some(250));
    assert_eq!(bounded.next_delay(2), Some(250));
    assert_eq!(bounded.next_delay(3), None);
}
