use crater_report::identity::CrateId;
use crater_report::owners::{
    format_owners_to_cc, CratesIoOwners, CratesIoUser, CratesIoUserKind, LookupError, OwnerDirectory,
};

fn user(kind: CratesIoUserKind, login: &str, url: &str) -> CratesIoUser {
    CratesIoUser { kind, login: login.to_string(), url: url.to_string() }
}

fn handles(names: &[&str]) -> Vec<String> {
    names.iter().map(|name| name.to_string()).collect()
}

#[test]
fn a_user_with_a_profile_has_a_handle() {
    let owner = user(CratesIoUserKind::User, "alice", "https://github.com/alice");
    assert_eq!(owner.gh_username(), Some("alice"));
}

#[test]
fn a_team_has_no_handle() {
    let owner = user(CratesIoUserKind::Team, "github:org:team", "https://github.com/org");
    assert_eq!(owner.gh_username(), None);
}

#[test]
fn a_user_from_elsewhere_has_no_handle() {
    let owner = user(CratesIoUserKind::User, "bob", "https://gitlab.com/bob");
    assert_eq!(owner.gh_username(), None);
    let owner = user(CratesIoUserKind::User, "bob", "http://github.com/bob");
    assert_eq!(owner.gh_username(), None);
    let owner = user(CratesIoUserKind::User, "bob", "");
    assert_eq!(owner.gh_username(), None);
}

#[test]
fn the_handles_of_the_owners_keep_their_order() {
    let owners = CratesIoOwners {
        users: vec![
            user(CratesIoUserKind::User, "zed", "https://github.com/zed"),
            user(CratesIoUserKind::Team, "team", "https://github.com/team"),
            user(CratesIoUserKind::User, "elsewhere", "https://example.com/elsewhere"),
            user(CratesIoUserKind::User, "alice", "https://github.com/alice"),
        ],
    };
    assert_eq!(owners.gh_usernames(), handles(&["zed", "alice"]));
    assert_eq!(CratesIoOwners { users: vec![] }.gh_usernames(), Vec::<String>::new());
}

#[test]
fn owners_are_mentioned_behind_an_at_sign() {
    assert_eq!(format_owners_to_cc(&handles(&[])), "");
    assert_eq!(format_owners_to_cc(&handles(&["alice"])), "@alice");
    assert_eq!(format_owners_to_cc(&handles(&["alice", "bob"])), "@alice, @bob");
    assert_eq!(format_owners_to_cc(&handles(&["c", "b", "a"])), "@c, @b, @a");
}

#[test]
fn an_empty_directory_knows_no_name() {
    let directory = OwnerDirectory::new();
    assert_eq!(directory.lookup("libfoo"), Err(LookupError::UnknownName));
    assert_eq!(directory.lookup(""), Err(LookupError::UnknownName));
}

#[test]
fn a_directory_gives_what_was_recorded() {
    let mut directory = OwnerDirectory::new();
    directory.record("libfoo".to_string(), Ok(handles(&["alice", "bob"])));
    directory.record("libbar".to_string(), Err(LookupError::Unavailable));
    directory.record("libbaz".to_string(), Ok(vec![]));
    assert_eq!(directory.lookup("libfoo"), Ok(handles(&["alice", "bob"])));
    assert_eq!(directory.lookup("libbar"), Err(LookupError::Unavailable));
    assert_eq!(directory.lookup("libbaz"), Ok(vec![]));
    assert_eq!(directory.lookup("libqux"), Err(LookupError::UnknownName));
}

#[test]
fn a_later_record_replaces_an_earlier_one() {
    let mut directory = OwnerDirectory::new();
    directory.record("libfoo".to_string(), Err(LookupError::Unavailable));
    directory.record("libfoo".to_string(), Ok(handles(&["alice"])));
    assert_eq!(directory.lookup("libfoo"), Ok(handles(&["alice"])));
}

#[test]
fn a_repository_is_owned_by_its_user() {
    let id = CrateId::GitHub { user: "octo".to_string(), repository: "widget".to_string() };
    let mut directory = OwnerDirectory::new();
    assert_eq!(id.owners(&directory), Ok(handles(&["octo"])));
    directory.record("octo".to_string(), Ok(handles(&["someone"])));
    assert_eq!(id.owners(&directory), Ok(handles(&["octo"])));
}

#[test]
fn a_package_is_owned_by_whom_the_directory_says() {
    let id = CrateId::CratesIo { package: "alpha".to_string(), version: "1.0".to_string() };
    let mut directory = OwnerDirectory::new();
    assert_eq!(id.owners(&directory), Err(LookupError::UnknownName));
    directory.record("alpha".to_string(), Ok(handles(&["alice"])));
    assert_eq!(id.owners(&directory), Ok(handles(&["alice"])));
    directory.record("alpha".to_string(), Err(LookupError::Unavailable));
    assert_eq!(id.owners(&directory), Err(LookupError::Unavailable));
}
