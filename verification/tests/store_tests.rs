use crater_report::config::{Config, Toolchain, ToolchainSource, ToolchainType};
use crater_report::identity::CrateId;
use crater_report::regression::{parse_entry_path, IngestError, Regression};
use crater_report::store::RegressionStore;

fn config() -> Config {
    Config {
        name: "exp".to_string(),
        start: Toolchain { source: ToolchainSource::Dist { name: "stable".to_string() } },
        end: Toolchain { source: ToolchainSource::Ci { sha: "abc".to_string(), try_: true } },
    }
}

fn registry(package: &str, version: &str) -> CrateId {
    CrateId::CratesIo { package: package.to_string(), version: version.to_string() }
}

fn repository(user: &str, repository: &str) -> CrateId {
    CrateId::GitHub { user: user.to_string(), repository: repository.to_string() }
}

fn segments(path: &str) -> Vec<String> {
    path.split('/').map(|segment| segment.to_string()).collect()
}

fn ids(store: &RegressionStore) -> Vec<CrateId> {
    store.records().iter().map(|record| record.id().clone()).collect()
}

#[test]
fn a_new_record_has_no_logs() {
    let record = Regression::new(registry("alpha", "1.0"));
    assert_eq!(record.id(), &registry("alpha", "1.0"));
    assert!(!record.has_log(ToolchainType::Start));
    assert!(!record.has_log(ToolchainType::End));
    assert!(!record.is_complete());
}

#[test]
fn a_log_goes_into_the_slot_of_its_toolchain() {
    let cfg = config();
    let mut record = Regression::new(registry("alpha", "1.0"));
    assert_eq!(record.insert(&cfg, "try#abc", "after".to_string()), Ok(()));
    assert!(!record.has_log(ToolchainType::Start));
    assert!(record.has_log(ToolchainType::End));
    assert_eq!(record.log(ToolchainType::End), "after");
    assert!(!record.is_complete());
    assert_eq!(record.insert(&cfg, "stable", "before".to_string()), Ok(()));
    assert_eq!(record.log(ToolchainType::Start), "before");
    assert_eq!(record.log(ToolchainType::End), "after");
    assert!(record.is_complete());
}

#[test]
fn a_second_log_for_a_slot_is_a_duplicate() {
    let cfg = config();
    let mut record = Regression::new(registry("alpha", "1.0"));
    assert_eq!(record.insert(&cfg, "stable", "first".to_string()), Ok(()));
    assert_eq!(record.insert(&cfg, "stable", "second".to_string()), Err(IngestError::DuplicateLog));
    assert_eq!(record.log(ToolchainType::Start), "first");
    assert!(!record.has_log(ToolchainType::End));
    assert_eq!(record.put(ToolchainType::End, "end".to_string()), Ok(()));
    assert_eq!(record.put(ToolchainType::End, "again".to_string()), Err(IngestError::DuplicateLog));
    assert_eq!(record.log(ToolchainType::End), "end");
}

#[test]
fn a_log_of_an_unknown_toolchain_is_refused() {
    let cfg = config();
    let mut record = Regression::new(registry("alpha", "1.0"));
    assert_eq!(record.insert(&cfg, "nightly", "log".to_string()), Err(IngestError::UnknownToolchain));
    assert_eq!(record.insert(&cfg, "", "log".to_string()), Err(IngestError::UnknownToolchain));
    assert!(!record.has_log(ToolchainType::Start));
    assert!(!record.has_log(ToolchainType::End));
}

#[test]
fn a_label_of_both_toolchains_fills_the_start_slot_only() {
    let cfg = Config {
        name: "exp".to_string(),
        start: Toolchain { source: ToolchainSource::Dist { name: "stable".to_string() } },
        end: Toolchain { source: ToolchainSource::Dist { name: "stable".to_string() } },
    };
    let mut record = Regression::new(registry("alpha", "1.0"));
    assert_eq!(record.insert(&cfg, "stable", "first".to_string()), Ok(()));
    assert!(record.has_log(ToolchainType::Start));
    assert!(!record.has_log(ToolchainType::End));
    assert_eq!(record.insert(&cfg, "stable", "second".to_string()), Err(IngestError::DuplicateLog));
}

#[test]
fn an_empty_store_has_no_records() {
    let store = RegressionStore::new();
    assert_eq!(store.len(), 0);
    assert!(store.records().is_empty());
    assert!(store.is_complete());
    assert!(store.get(&registry("alpha", "1.0")).is_none());
}

#[test]
fn logs_inserted_once_for_each_role_give_complete_records() {
    let cfg = config();
    let mut store = RegressionStore::new();
    let crates = vec![registry("beta", "2.0"), repository("octo", "widget"), registry("alpha", "1.0")];
    for id in &crates {
        assert_eq!(store.insert(&cfg, id.clone(), "try#abc", format!("end of {}", id.to_string())), Ok(()));
    }
    assert!(!store.is_complete());
    for id in crates.iter().rev() {
        assert_eq!(store.insert(&cfg, id.clone(), "stable", format!("start of {}", id.to_string())), Ok(()));
    }
    assert_eq!(store.len(), 3);
    assert!(store.is_complete());
    for id in &crates {
        let record = store.get(id).unwrap();
        assert_eq!(record.id(), id);
        assert!(record.is_complete());
        assert_eq!(record.log(ToolchainType::Start), format!("start of {}", id.to_string()));
        assert_eq!(record.log(ToolchainType::End), format!("end of {}", id.to_string()));
    }
}

#[test]
fn a_second_log_for_the_same_crate_and_role_fails_as_a_duplicate() {
    let cfg = config();
    let mut store = RegressionStore::new();
    let id = registry("alpha", "1.0");
    assert_eq!(store.insert(&cfg, id.clone(), "stable", "first".to_string()), Ok(()));
    assert_eq!(store.insert(&cfg, id.clone(), "stable", "second".to_string()), Err(IngestError::DuplicateLog));
    assert_eq!(store.len(), 1);
    let record = store.get(&id).unwrap();
    assert_eq!(record.log(ToolchainType::Start), "first");
    assert!(!record.has_log(ToolchainType::End));
    assert_eq!(store.insert(&cfg, id.clone(), "try#abc", "end".to_string()), Ok(()));
    assert_eq!(store.insert(&cfg, id.clone(), "try#abc", "end".to_string()), Err(IngestError::DuplicateLog));
    assert_eq!(store.len(), 1);
}

#[test]
fn a_log_of_an_unknown_toolchain_leaves_the_store_as_it_was() {
    let cfg = config();
    let mut store = RegressionStore::new();
    assert_eq!(
        store.insert(&cfg, registry("alpha", "1.0"), "nightly", "log".to_string()),
        Err(IngestError::UnknownToolchain)
    );
    assert_eq!(store.len(), 0);
    assert!(store.get(&registry("alpha", "1.0")).is_none());
}

#[test]
fn records_stand_in_the_order_of_their_identities() {
    let cfg = config();
    let mut store = RegressionStore::new();
    let arrivals = vec![
        repository("octo", "widget"),
        registry("beta", "2.0"),
        registry("alpha", "1.1"),
        repository("ann", "zeta"),
        registry("alpha", "1.0"),
        registry("gamma", "0.1"),
    ];
    for id in &arrivals {
        assert_eq!(store.insert(&cfg, id.clone(), "stable", String::new()), Ok(()));
    }
    assert_eq!(
        ids(&store),
        vec![
            registry("alpha", "1.0"),
            registry("alpha", "1.1"),
            registry("beta", "2.0"),
            registry("gamma", "0.1"),
            repository("ann", "zeta"),
            repository("octo", "widget"),
        ]
    );
}

#[test]
fn crates_of_one_name_from_two_sources_have_two_records() {
    let cfg = config();
    let mut store = RegressionStore::new();
    assert_eq!(store.insert(&cfg, registry("octo", "widget"), "stable", "registry".to_string()), Ok(()));
    assert_eq!(store.insert(&cfg, repository("octo", "widget"), "stable", "repository".to_string()), Ok(()));
    assert_eq!(store.insert(&cfg, registry("octo", "gadget"), "stable", "other".to_string()), Ok(()));
    assert_eq!(store.len(), 3);
    assert_eq!(store.get(&registry("octo", "widget")).unwrap().log(ToolchainType::Start), "registry");
    assert_eq!(store.get(&repository("octo", "widget")).unwrap().log(ToolchainType::Start), "repository");
    assert!(store.get(&repository("octo", "gadget")).is_none());
}

#[test]
fn a_path_names_a_registry_crate_and_its_toolchain() {
    assert_eq!(
        parse_entry_path(&segments("regressed/reg/alpha/1.0/stable.txt")),
        Ok((registry("alpha", "1.0"), "stable".to_string()))
    );
    assert_eq!(
        parse_entry_path(&segments("regressed/reg/alpha/1.0/try#abc.txt")),
        Ok((registry("alpha", "1.0"), "try#abc".to_string()))
    );
}

#[test]
fn a_path_names_a_repository_and_its_toolchain() {
    assert_eq!(
        parse_entry_path(&segments("regressed/gh/octo/widget/master#0123.txt")),
        Ok((repository("octo", "widget"), "master#0123".to_string()))
    );
}

#[test]
fn the_suffix_is_taken_out_of_the_label_wherever_it_stands() {
    assert_eq!(
        parse_entry_path(&segments("x/reg/a/1/be.txtta.txt")),
        Ok((registry("a", "1"), "beta".to_string()))
    );
    assert_eq!(parse_entry_path(&segments("x/reg/a/1/stable")), Ok((registry("a", "1"), "stable".to_string())));
}

#[test]
fn segments_behind_the_fifth_are_not_read() {
    assert_eq!(
        parse_entry_path(&segments("x/gh/octo/widget/stable.txt/more/still")),
        Ok((repository("octo", "widget"), "stable".to_string()))
    );
}

#[test]
fn a_path_with_another_source_is_refused() {
    assert_eq!(parse_entry_path(&segments("regressed/local/alpha/1.0/stable.txt")), Err(IngestError::UnknownSourceKind));
    assert_eq!(parse_entry_path(&segments("regressed/GH/octo/widget/stable.txt")), Err(IngestError::UnknownSourceKind));
    assert_eq!(parse_entry_path(&segments("reg/alpha/1.0/stable.txt/x")), Err(IngestError::UnknownSourceKind));
}

#[test]
fn a_short_path_is_refused() {
    assert_eq!(parse_entry_path(&[]), Err(IngestError::MalformedPath));
    assert_eq!(parse_entry_path(&segments("regressed/reg/alpha/1.0")), Err(IngestError::MalformedPath));
    assert_eq!(parse_entry_path(&segments("regressed/local/alpha/1.0")), Err(IngestError::MalformedPath));
}

#[test]
fn entries_of_the_archive_fill_the_store() {
    let cfg = config();
    let mut store = RegressionStore::new();
    assert_eq!(store.ingest(&cfg, &segments("regressed/gh/octo/widget/try#abc.txt"), "end".to_string()), Ok(()));
    assert_eq!(store.ingest(&cfg, &segments("regressed/reg/alpha/1.0/stable.txt"), "start".to_string()), Ok(()));
    assert_eq!(store.ingest(&cfg, &segments("regressed/gh/octo/widget/stable.txt"), "start".to_string()), Ok(()));
    assert_eq!(ids(&store), vec![registry("alpha", "1.0"), repository("octo", "widget")]);
    assert!(store.get(&repository("octo", "widget")).unwrap().is_complete());
    assert!(!store.get(&registry("alpha", "1.0")).unwrap().is_complete());
    assert!(!store.is_complete());
}

#[test]
fn entries_that_are_refused_leave_the_store_as_it_was() {
    let cfg = config();
    let mut store = RegressionStore::new();
    assert_eq!(store.ingest(&cfg, &segments("regressed/reg/alpha/1.0/stable.txt"), "start".to_string()), Ok(()));
    assert_eq!(
        store.ingest(&cfg, &segments("regressed/reg/alpha/1.0/stable.txt"), "again".to_string()),
        Err(IngestError::DuplicateLog)
    );
    assert_eq!(
        store.ingest(&cfg, &segments("regressed/reg/beta/2.0/nightly.txt"), "log".to_string()),
        Err(IngestError::UnknownToolchain)
    );
    assert_eq!(
        store.ingest(&cfg, &segments("regressed/svn/beta/2.0/stable.txt"), "log".to_string()),
        Err(IngestError::UnknownSourceKind)
    );
    assert_eq!(store.ingest(&cfg, &segments("regressed/reg/beta"), "log".to_string()), Err(IngestError::MalformedPath));
    assert_eq!(ids(&store), vec![registry("alpha", "1.0")]);
    assert_eq!(store.get(&registry("alpha", "1.0")).unwrap().log(ToolchainType::Start), "start");
}
