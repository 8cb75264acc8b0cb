use cratesync::filter::{all_items, build_queue};
use cratesync::index::{
    ascii_eq_ignore_case, component_ok, git_args, is_hidden_name, CrateData, CrateVersions,
    GitStep, Index, IndexError,
};
use cratesync::ledger::ForbiddenSet;

fn data(cksum: &str) -> CrateData {
    CrateData {
        cksum: cksum.to_owned(),
        yanked: false,
    }
}

fn crate_with(name: &str, versions: &[(&str, &str)]) -> CrateVersions {
    let mut cv = CrateVersions::new(name.to_owned()).unwrap();
    for (v, c) in versions {
        cv.upsert((*v).to_owned(), data(c)).unwrap();
    }
    cv
}

#[test]
fn component_validity() {
    assert!(component_ok("serde"));
    assert!(component_ok("serde-json"));
    assert!(!component_ok(""));
    assert!(!component_ok("a/b"));
    assert!(!component_ok("a\nb"));
}

#[test]
fn case_insensitive_name_check() {
    assert!(ascii_eq_ignore_case("Serde", "serde"));
    assert!(ascii_eq_ignore_case("SERDE", "serde"));
    assert!(!ascii_eq_ignore_case("serde", "serde2"));
    assert!(!ascii_eq_ignore_case("serda", "serde"));
}

#[test]
fn hidden_names_are_recognized() {
    assert!(is_hidden_name(".git"));
    assert!(is_hidden_name(".github"));
    assert!(!is_hidden_name("se"));
    assert!(!is_hidden_name(""));
}

#[test]
fn update_plan_depends_on_presence() {
    let fresh = Index::update(false);
    assert_eq!(
        fresh,
        vec![GitStep::CloneIndex, GitStep::FetchIndex, GitStep::ResetIndex]
    );
    let existing = Index::update(true);
    assert_eq!(existing, vec![GitStep::FetchIndex, GitStep::ResetIndex]);
}

#[test]
fn git_arguments_per_step() {
    assert_eq!(
        git_args(GitStep::CloneIndex),
        vec!["clone", "https://github.com/rust-lang/crates.io-index"]
    );
    assert_eq!(
        git_args(GitStep::FetchIndex),
        vec!["-C", "crates.io-index", "fetch"]
    );
    assert_eq!(
        git_args(GitStep::ResetIndex),
        vec!["-C", "crates.io-index", "reset", "--hard", "origin/master"]
    );
}

#[test]
fn duplicate_crate_is_refused() {
    let mut index = Index::new();
    index.add_crate(crate_with("foo", &[("1.0.0", "c1")])).unwrap();
    let again = index.add_crate(crate_with("foo", &[("2.0.0", "c2")]));
    assert_eq!(again, Err(IndexError::DuplicateCrate));
    assert_eq!(index.crate_count(), 1);
}

#[test]
fn upsert_keeps_last_data_for_a_version() {
    let mut cv = CrateVersions::new("foo".to_owned()).unwrap();
    cv.upsert("1.0.0".to_owned(), data("old")).unwrap();
    cv.upsert("1.0.0".to_owned(), data("new")).unwrap();
    assert_eq!(cv.versions.len(), 1);
    assert_eq!(cv.versions[0].version, "1.0.0");
    assert_eq!(cv.versions[0].data.cksum, "new");
}

#[test]
fn invalid_components_are_refused() {
    assert!(matches!(
        CrateVersions::new("a/b".to_owned()),
        Err(IndexError::InvalidName)
    ));
    let mut cv = CrateVersions::new("foo".to_owned()).unwrap();
    assert_eq!(
        cv.upsert("1/0".to_owned(), data("c")),
        Err(IndexError::InvalidVersion)
    );
}

#[test]
fn total_versions_counts_every_entry() {
    let mut index = Index::new();
    index
        .add_crate(crate_with("foo", &[("1.0.0", "c1"), ("1.1.0", "c2")]))
        .unwrap();
    index.add_crate(crate_with("bar", &[("2.0.0", "c3")])).unwrap();
    assert_eq!(index.total_versions(), Some(3));
}

#[test]
fn flattening_preserves_catalog_order() {
    let mut index = Index::new();
    index
        .add_crate(crate_with("foo", &[("1.0.0", "c1"), ("1.1.0", "c2")]))
        .unwrap();
    index.add_crate(crate_with("bar", &[("2.0.0", "c3")])).unwrap();
    let items = all_items(&index);
    let keys: Vec<(String, String)> = items
        .iter()
        .map(|i| (i.name.clone(), i.version.clone()))
        .collect();
    assert_eq!(
        keys,
        vec![
            ("foo".to_owned(), "1.0.0".to_owned()),
            ("foo".to_owned(), "1.1.0".to_owned()),
            ("bar".to_owned(), "2.0.0".to_owned()),
        ]
    );
    assert_eq!(items[0].cksum, "c1");
}

#[test]
fn filter_excludes_present_and_forbidden() {
    // One artifact already on disk, one denied by the ledger, one pending:
    // only the pending item is enqueued.
    let mut index = Index::new();
    index.add_crate(crate_with("foo", &[("1.0.0", "c1")])).unwrap();
    index.add_crate(crate_with("bar", &[("2.0.0", "c2")])).unwrap();
    index.add_crate(crate_with("baz", &[("0.1.0", "c3")])).unwrap();
    let items = all_items(&index);
    let present = vec![true, false, false];
    let forbidden = ForbiddenSet::load("crates/bar/bar-2.0.0.crate\n");
    let mut queue = build_queue(&items, &present, &forbidden);
    assert_eq!(queue.len(), 1);
    let only = queue.pop().unwrap();
    assert_eq!(only.name, "baz");
    assert_eq!(only.version, "0.1.0");
    assert_eq!(only.cksum, "c3");
    assert!(queue.pop().is_none());
}

#[test]
fn all_artifacts_present_means_no_pending_work() {
    // Scenario: everything already on disk; the run has nothing to do and
    // no network activity is required.
    let mut index = Index::new();
    index.add_crate(crate_with("foo", &[("1.0.0", "c1")])).unwrap();
    index.add_crate(crate_with("bar", &[("2.0.0", "c2")])).unwrap();
    let items = all_items(&index);
    let present = vec![true, true];
    let forbidden = ForbiddenSet::load("");
    let mut queue = build_queue(&items, &present, &forbidden);
    assert_eq!(queue.len(), 0);
    assert!(queue.pop().is_none());
}
