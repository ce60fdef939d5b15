use crater_report::config::{CcWho, Config, Toolchain, ToolchainSource, ToolchainType};

fn dist(name: &str) -> Toolchain {
    Toolchain { source: ToolchainSource::Dist { name: name.to_string() } }
}

fn ci(sha: &str, try_: bool) -> Toolchain {
    Toolchain { source: ToolchainSource::Ci { sha: sha.to_string(), try_ } }
}

#[test]
fn a_released_toolchain_is_named_by_its_name() {
    let cfg = Config { name: "exp".to_string(), start: dist("stable"), end: dist("beta") };
    assert_eq!(cfg.toolchain_name(ToolchainType::Start), "stable");
    assert_eq!(cfg.toolchain_name(ToolchainType::End), "beta");
}

#[test]
fn a_build_of_a_commit_is_named_by_branch_and_commit() {
    let cfg = Config { name: "exp".to_string(), start: ci("0123abc", false), end: ci("4567def", true) };
    assert_eq!(cfg.toolchain_name(ToolchainType::Start), "master#0123abc");
    assert_eq!(cfg.toolchain_name(ToolchainType::End), "try#4567def");
    assert_eq!(ci("", true).name(), "try#");
}

#[test]
fn a_label_resolves_to_the_role_of_its_toolchain() {
    let cfg = Config { name: "exp".to_string(), start: dist("stable"), end: ci("abc", true) };
    assert_eq!(cfg.role("stable"), Some(ToolchainType::Start));
    assert_eq!(cfg.role("try#abc"), Some(ToolchainType::End));
    assert_eq!(cfg.role("master#abc"), None);
    assert_eq!(cfg.role("Stable"), None);
    assert_eq!(cfg.role(""), None);
}

#[test]
fn a_label_of_both_toolchains_resolves_to_the_start() {
    let cfg = Config { name: "exp".to_string(), start: dist("stable"), end: dist("stable") };
    assert_eq!(cfg.role("stable"), Some(ToolchainType::Start));
}

#[test]
fn policy_words_are_read() {
    assert_eq!(CcWho::parse("all"), Some(CcWho::All));
    assert_eq!(CcWho::parse("roots"), Some(CcWho::Roots));
    assert_eq!(CcWho::parse("none"), Some(CcWho::Nobody));
    assert_eq!(CcWho::parse("print-list"), Some(CcWho::Nobody));
}

#[test]
fn other_words_are_no_policy() {
    assert_eq!(CcWho::parse(""), None);
    assert_eq!(CcWho::parse("All"), None);
    assert_eq!(CcWho::parse("root"), None);
    assert_eq!(CcWho::parse("none "), None);
}

#[test]
fn the_policy_decides_who_is_mentioned() {
    assert!(CcWho::All.causes());
    assert!(!CcWho::Roots.causes());
    assert!(!CcWho::Nobody.causes());
    assert!(CcWho::All.roots());
    assert!(CcWho::Roots.roots());
    assert!(!CcWho::Nobody.roots());
}
