use crater_report::aggregate::{aggregate, CauseTable};
use crater_report::cause::SuspectedCause;
use crater_report::config::{Config, Toolchain, ToolchainSource};
use crater_report::identity::CrateId;
use crater_report::store::RegressionStore;

fn config() -> Config {
    Config {
        name: "exp".to_string(),
        start: Toolchain { source: ToolchainSource::Dist { name: "stable".to_string() } },
        end: Toolchain { source: ToolchainSource::Dist { name: "beta".to_string() } },
    }
}

fn registry(package: &str, version: &str) -> CrateId {
    CrateId::CratesIo { package: package.to_string(), version: version.to_string() }
}

fn repository(user: &str, repository: &str) -> CrateId {
    CrateId::GitHub { user: user.to_string(), repository: repository.to_string() }
}

fn store_of(crates: &[(CrateId, &str)]) -> RegressionStore {
    let cfg = config();
    let mut store = RegressionStore::new();
    for (id, end_log) in crates {
        assert_eq!(store.insert(&cfg, id.clone(), "beta", end_log.to_string()), Ok(()));
        assert_eq!(store.insert(&cfg, id.clone(), "stable", "ok".to_string()), Ok(()));
    }
    assert!(store.is_complete());
    store
}

fn rows(table: &CauseTable) -> Vec<(SuspectedCause, Vec<CrateId>)> {
    table.buckets().iter().map(|bucket| (bucket.cause().clone(), bucket.crates().to_vec())).collect()
}

const LIB_FAILED: &str = "error: test failed, to rerun pass '--lib'";
const DOC_FAILED: &str = "error: test failed, to rerun pass '--doc'";

#[test]
fn an_empty_store_gives_an_empty_table() {
    let table = aggregate(&RegressionStore::new());
    assert_eq!(table.len(), 0);
    assert!(table.buckets().is_empty());
}

#[test]
fn crates_with_one_cause_share_a_bucket() {
    let store = store_of(&[
        (registry("beta", "2.0"), "error: could not compile `libfoo`"),
        (registry("alpha", "1.0"), "error: could not compile `libfoo`"),
    ]);
    let table = aggregate(&store);
    assert_eq!(
        rows(&table),
        vec![(
            SuspectedCause::CompileError { crate_name: "libfoo".to_string() },
            vec![registry("alpha", "1.0"), registry("beta", "2.0")],
        )]
    );
}

#[test]
fn a_repository_with_failed_tests_is_alone_with_its_cause() {
    let store = store_of(&[(repository("octo", "widget"), LIB_FAILED)]);
    let table = aggregate(&store);
    assert_eq!(
        rows(&table),
        vec![(
            SuspectedCause::TestFailure { crate_name: "octo/widget".to_string() },
            vec![repository("octo", "widget")],
        )]
    );
}

#[test]
fn a_registry_crate_with_failed_tests_is_named_without_its_version() {
    let store = store_of(&[(registry("alpha", "1.0"), DOC_FAILED)]);
    let table = aggregate(&store);
    assert_eq!(
        rows(&table),
        vec![(SuspectedCause::DocTestFailure { crate_name: "alpha".to_string() }, vec![registry("alpha", "1.0")])]
    );
}

#[test]
fn buckets_stand_in_the_order_of_their_causes() {
    let both = format!("{}\n{}", LIB_FAILED, DOC_FAILED);
    let store = store_of(&[
        (registry("a", "1"), ""),
        (registry("b", "1"), DOC_FAILED),
        (registry("c", "1"), LIB_FAILED),
        (registry("d", "1"), "Could not document `zlib`"),
        (registry("e", "1"), "Could not document `alib`"),
        (registry("f", "1"), "could not compile `zlib`"),
        (registry("g", "1"), "could not compile `alib`"),
        (registry("h", "1"), both.as_str()),
        (repository("i", "j"), "could not compile `alib`"),
    ]);
    let table = aggregate(&store);
    assert_eq!(
        rows(&table),
        vec![
            (
                SuspectedCause::CompileError { crate_name: "alib".to_string() },
                vec![registry("g", "1"), repository("i", "j")],
            ),
            (SuspectedCause::CompileError { crate_name: "zlib".to_string() }, vec![registry("f", "1")]),
            (SuspectedCause::DocumentationError { crate_name: "alib".to_string() }, vec![registry("e", "1")]),
            (SuspectedCause::DocumentationError { crate_name: "zlib".to_string() }, vec![registry("d", "1")]),
            (SuspectedCause::TestFailure { crate_name: "c".to_string() }, vec![registry("c", "1")]),
            (SuspectedCause::DocTestFailure { crate_name: "b".to_string() }, vec![registry("b", "1")]),
            (SuspectedCause::Unknown, vec![registry("a", "1"), registry("h", "1")]),
        ]
    );
}

#[test]
fn every_crate_stands_in_one_bucket_and_there_once() {
    let crates = vec![
        (registry("a", "1"), "could not compile `x`"),
        (registry("a", "2"), "could not compile `y`"),
        (registry("b", "1"), "could not compile `x`"),
        (registry("c", "1"), ""),
        (repository("d", "e"), "could not compile `x`\ncould not compile `y`"),
        (repository("f", "g"), LIB_FAILED),
        (repository("h", "i"), "could not compile `y`"),
    ];
    let store = store_of(&crates);
    let table = aggregate(&store);
    let mut seen: Vec<CrateId> = Vec::new();
    for bucket in table.buckets() {
        assert!(!bucket.crates().is_empty());
        for id in bucket.crates() {
            assert!(!seen.contains(id));
            seen.push(id.clone());
        }
    }
    assert_eq!(seen.len(), crates.len());
    for (id, _) in &crates {
        assert!(seen.contains(id));
    }
}

#[test]
fn the_crates_of_a_bucket_stand_in_the_order_of_the_store() {
    let store = store_of(&[
        (repository("z", "z"), "could not compile `x`"),
        (registry("b", "2"), "could not compile `x`"),
        (registry("b", "10"), "could not compile `x`"),
        (registry("a", "1"), "could not compile `x`"),
        (repository("a", "a"), "could not compile `x`"),
    ]);
    let table = aggregate(&store);
    assert_eq!(table.len(), 1);
    assert_eq!(
        table.buckets()[0].crates().to_vec(),
        vec![registry("a", "1"), registry("b", "10"), registry("b", "2"), repository("a", "a"), repository("z", "z")]
    );
}

#[test]
fn causes_of_different_kinds_with_one_name_have_their_own_buckets() {
    let store = store_of(&[
        (registry("a", "1"), "could not compile `a`"),
        (registry("b", "1"), "Could not document `a`"),
        (registry("a", "2"), LIB_FAILED),
    ]);
    let table = aggregate(&store);
    assert_eq!(
        rows(&table),
        vec![
            (SuspectedCause::CompileError { crate_name: "a".to_string() }, vec![registry("a", "1")]),
            (SuspectedCause::DocumentationError { crate_name: "a".to_string() }, vec![registry("b", "1")]),
            (SuspectedCause::TestFailure { crate_name: "a".to_string() }, vec![registry("a", "2")]),
        ]
    );
}

#[test]
fn the_start_log_does_not_count() {
    let cfg = config();
    let mut store = RegressionStore::new();
    let id = registry("alpha", "1.0");
    assert_eq!(store.insert(&cfg, id.clone(), "stable", "could not compile `libfoo`".to_string()), Ok(()));
    assert_eq!(store.insert(&cfg, id.clone(), "beta", "all is well".to_string()), Ok(()));
    let table = aggregate(&store);
    assert_eq!(rows(&table), vec![(SuspectedCause::Unknown, vec![id])]);
}

#[test]
fn a_bucket_of_one_crate_is_a_root() {
    let store = store_of(&[
        (registry("a", "1"), "could not compile `x`"),
        (registry("b", "1"), "could not compile `x`"),
        (registry("c", "1"), "could not compile `y`"),
    ]);
    let table = aggregate(&store);
    assert_eq!(table.len(), 2);
    assert!(!table.buckets()[0].is_root());
    assert!(table.buckets()[1].is_root());
}
