use cratesync::item::WorkItem;
use cratesync::ledger::{ledger_line, parse_lines, ForbiddenSet};
use cratesync::item::artifact_path;
use cratesync::report::{kib_rate, percent, rate, snapshot};
use cratesync::run::{pool_size, RunState, WorkQueue};
use cratesync::worker::ErrorRecord;

fn item(name: &str, version: &str, cksum: &str) -> WorkItem {
    WorkItem {
        name: name.to_owned(),
        version: version.to_owned(),
        cksum: cksum.to_owned(),
    }
}

#[test]
fn ledger_text_splits_into_lines() {
    assert_eq!(parse_lines(""), Vec::<String>::new());
    assert_eq!(parse_lines("a\nb\n"), vec!["a", "b"]);
    assert_eq!(parse_lines("a\nb"), vec!["a", "b"]);
    assert_eq!(parse_lines("a\r\nb\n"), vec!["a", "b"]);
    assert_eq!(parse_lines("\n\n"), vec!["", ""]);
}

#[test]
fn ledger_line_appends_newline() {
    assert_eq!(ledger_line("crates/bar/bar-2.0.0.crate"), "crates/bar/bar-2.0.0.crate\n");
}

#[test]
fn denial_recorded_then_found_on_reload() {
    // Scenario: the upstream denies an item; its path goes to the ledger,
    // and the next run's loaded set contains it without any network call.
    let path = "crates/bar/bar-2.0.0.crate";
    let mut text = String::new();
    text.push_str(&ledger_line(path));
    let reloaded = ForbiddenSet::load(&text);
    assert!(reloaded.contains(path));
    assert!(!reloaded.contains("crates/foo/foo-1.0.0.crate"));
    assert_eq!(reloaded.len(), 1);
}

#[test]
fn forbidden_set_grows_in_memory() {
    let mut set = ForbiddenSet::load("");
    assert!(!set.contains("a"));
    set.insert("a".to_owned());
    assert!(set.contains("a"));
    set.insert("b".to_owned());
    assert!(set.contains("a"));
    assert!(set.contains("b"));
    assert_eq!(set.len(), 2);
}

#[test]
fn queue_pops_in_order_without_loss() {
    let items = vec![item("a", "1", "c1"), item("b", "1", "c2"), item("c", "1", "c3")];
    let mut q = WorkQueue::new(items);
    assert_eq!(q.len(), 3);
    assert_eq!(q.pop().unwrap().name, "a");
    assert_eq!(q.pop().unwrap().name, "b");
    assert_eq!(q.pop().unwrap().name, "c");
    assert!(q.pop().is_none());
    assert_eq!(q.len(), 0);
}

#[test]
fn every_item_reaches_a_terminal_outcome() {
    // Three enqueued items handled by two interleaved workers: each pop is
    // matched by exactly one completion, and the run ends with the queue
    // empty and the completed count equal to the enqueued total.
    let items = vec![item("a", "1", "c1"), item("b", "1", "c2"), item("c", "1", "c3")];
    let mut state = RunState::start(WorkQueue::new(items));
    assert_eq!(state.total(), 3);
    assert!(!state.is_done());

    let first = state.next_item().unwrap();
    let second = state.next_item().unwrap();
    assert_ne!(first.name, second.name);
    state.finish_item();
    let third = state.next_item().unwrap();
    assert_eq!(third.name, "c");
    state.finish_item();
    state.finish_item();

    assert!(state.next_item().is_none());
    assert_eq!(state.queue_len(), 0);
    assert_eq!(state.in_flight(), 0);
    assert_eq!(state.completed(), 3);
    assert!(state.is_done());
}

#[test]
fn byte_counter_accumulates_and_saturates() {
    let mut state = RunState::start(WorkQueue::new(vec![item("a", "1", "c")]));
    state.add_bytes(1024);
    state.add_bytes(512);
    assert_eq!(state.bytes(), 1536);
    state.add_bytes(u64::MAX);
    assert_eq!(state.bytes(), u64::MAX);
}

#[test]
fn errors_buffer_until_drained() {
    let mut state = RunState::start(WorkQueue::new(Vec::new()));
    state.push_error(ErrorRecord {
        name: "a".to_owned(),
        version: "1".to_owned(),
        message: "first".to_owned(),
    });
    state.push_error(ErrorRecord {
        name: "b".to_owned(),
        version: "2".to_owned(),
        message: "second".to_owned(),
    });
    let drained = state.drain_errors();
    assert_eq!(drained.len(), 2);
    assert_eq!(drained[0].message, "first");
    assert_eq!(drained[1].message, "second");
    assert!(state.drain_errors().is_empty());
}

#[test]
fn pool_never_exceeds_pending_work() {
    assert_eq!(pool_size(200, 3), 3);
    assert_eq!(pool_size(2, 3), 2);
    assert_eq!(pool_size(200, 0), 0);
}

#[test]
fn distinct_items_use_distinct_final_paths() {
    // Even a hyphenated name whose tail could be read as a version is
    // disambiguated by the directory part of the path.
    assert_ne!(artifact_path("a-b", "c"), artifact_path("a", "b-c"));
    assert_ne!(artifact_path("foo", "1.0.0"), artifact_path("foo", "1.0.1"));
}

#[test]
fn progress_figures_are_exact() {
    assert_eq!(percent(0, 4), 0);
    assert_eq!(percent(1, 3), 33);
    assert_eq!(percent(200, 200), 100);
    assert_eq!(rate(10, 0), 10);
    assert_eq!(rate(10, 4), 2);
    assert_eq!(kib_rate(4096, 2), 2);
    let p = snapshot(50, 200, 1024 * 1024, 8);
    assert_eq!(p.percent, 25);
    assert_eq!(p.items_per_sec, 6);
    assert_eq!(p.kib_per_sec, 128);
}
