//! Maintainers: what the registry says of a package's owners, the directory
//! of looked-up names that the report consults, and how owners are mentioned.

use crate::identity::{CrateId, CrateIdView};
use crate::text::{starts_with, text_eq, text_starts_with};
use vstd::prelude::*;
use vstd::string::*;

verus! {

/// What kind of owner the registry lists.
#[derive(Copy, Clone, Debug, PartialEq, Eq, Structural)]
pub enum CratesIoUserKind {
    User,
    Team,
}

/// One owner of a package, as the registry lists it.
#[derive(Debug)]
pub struct CratesIoUser {
    pub kind: CratesIoUserKind,
    pub login: String,
    pub url: String,
}

/// The registry's answer to the question who owns a package.
#[derive(Debug)]
pub struct CratesIoOwners {
    pub users: Vec<CratesIoUser>,
}

/// Why a lookup gave no owners.
#[derive(Copy, Clone, Debug, PartialEq, Eq, Structural)]
pub enum LookupError {
    /// The service could not be reached or did not answer properly.
    Unavailable,
    /// Nothing is known under that name.
    UnknownName,
}

/// The outcome of a lookup, as plain text: the handles of the owners, or
/// the reason why there are none.
pub type Outcome = Result<Seq<Seq<char>>, LookupError>;

/// The plain-text form of an outcome.
pub open spec fn outcome_view(outcome: Result<Vec<String>, LookupError>) -> Outcome {
    match outcome {
        Ok(handles) => Ok(handles.deep_view()),
        Err(error) => Err(error),
    }
}

/// Where the profiles of the users that can be mentioned live.
pub const PROFILE_PREFIX: &'static str = "https://github.com/";

impl CratesIoUser {
    /// The handle under which the owner can be mentioned: the login of a
    /// user whose profile lives under [`PROFILE_PREFIX`]; a team, or a user
    /// from elsewhere, has none.
    pub open spec fn handle(self) -> Option<Seq<char>> {
        if text_starts_with(self.url@, PROFILE_PREFIX@) && self.kind == CratesIoUserKind::User {
            Some(self.login@)
        } else {
            None
        }
    }

    /// The handle under which the owner can be mentioned, if there is one.
    pub fn gh_username(&self) -> (name: Option<&str>)
        ensures
            name.deep_view() == self.handle(),
    {
        if starts_with(self.url.as_str(), PROFILE_PREFIX) && self.kind == CratesIoUserKind::User {
            Some(self.login.as_str())
        } else {
            None
        }
    }
}

impl CratesIoOwners {
    /// The handles of the owners that can be mentioned, in the order in
    /// which the registry lists them.
    pub open spec fn handles(self) -> Seq<Seq<char>> {
        self.users@.filter_map(|user: CratesIoUser| user.handle())
    }

    /// The handles of the owners that can be mentioned, in the order in
    /// which the registry lists them.
    pub fn gh_usernames(&self) -> (names: Vec<String>)
        ensures
            names.deep_view() == self.handles(),
    {
        let ghost pick = |user: CratesIoUser| user.handle();
        let mut names: Vec<String> = Vec::new();
        let mut i: usize = 0;
        while i < self.users.len()
            invariant
                i <= self.users.len(),
                pick == |user: CratesIoUser| user.handle(),
                names.deep_view() =~= self.users@.take(i as int).filter_map(pick),
            decreases self.users.len() - i,
        {
            let ghost before = names.deep_view();
            proof {
                self.users@.lemma_filter_map_take_succ(pick, i as int);
            }
            match self.users[i].gh_username() {
                Some(name) => {
                    names.push(String::from_str(name));
                    assert(names.deep_view() =~= before + seq![name@]);
                },
                None => {},
            }
            i = i + 1;
        }
        assert(self.users@.take(i as int) =~= self.users@);
        names
    }
}

/// The owners as the report mentions them: each handle behind an `@`, the
/// mentions separated by a comma and a space.
pub open spec fn cc_list(owners: Seq<Seq<char>>) -> Seq<char>
    decreases owners.len(),
{
    if owners.len() == 0 {
        Seq::empty()
    } else if owners.len() == 1 {
        "@"@ + owners[0]
    } else {
        cc_list(owners.drop_last()) + ", "@ + "@"@ + owners.last()
    }
}

/// Writes the owners as the report mentions them.
pub fn format_owners_to_cc(owners: &[String]) -> (mentions: String)
    ensures
        mentions@ == cc_list(owners.deep_view()),
{
    let ghost handles = owners.deep_view();
    let mut mentions = String::new();
    let mut i: usize = 0;
    while i < owners.len()
        invariant
            i <= owners.len(),
            handles == owners.deep_view(),
            mentions@ == cc_list(handles.take(i as int)),
        decreases owners.len() - i,
    {
        proof {
            assert(handles.take(i + 1).drop_last() =~= handles.take(i as int));
            assert(handles.take(i + 1).last() == owners@[i as int]@);
            if i == 0 {
                assert(mentions@ + "@"@ =~= "@"@);
            }
        }
        if i > 0 {
            mentions.append(", ");
        }
        mentions.append("@");
        mentions.append(owners[i].as_str());
        i = i + 1;
    }
    assert(handles.take(i as int) =~= handles);
    mentions
}

/// One looked-up name with what the lookup gave.
#[derive(Debug)]
struct OwnerRecord {
    name: String,
    outcome: Result<Vec<String>, LookupError>,
}

/// The names that were looked up, each with the outcome of its lookup. The
/// report reads the owners of packages out of it and looks nothing up by
/// itself.
#[derive(Debug)]
pub struct OwnerDirectory {
    records: Vec<OwnerRecord>,
}

/// The directory that a list of records stands for: a later record of a name
/// replaces an earlier one.
spec fn directory_of(records: Seq<OwnerRecord>) -> Map<Seq<char>, Outcome>
    decreases records.len(),
{
    if records.len() == 0 {
        Map::empty()
    } else {
        directory_of(records.drop_last()).insert(
            records.last().name@,
            outcome_view(records.last().outcome),
        )
    }
}

/// What a directory says of a name: the recorded outcome, or that the name
/// is unknown where nothing was recorded.
pub open spec fn looked_up(directory: Map<Seq<char>, Outcome>, name: Seq<char>) -> Outcome {
    if directory.dom().contains(name) {
        directory[name]
    } else {
        Err(LookupError::UnknownName)
    }
}

/// The owners of a crate: those that the directory gives for a registry
/// package, and the user itself for a repository.
pub open spec fn owners_of(id: CrateIdView, directory: Map<Seq<char>, Outcome>) -> Outcome {
    match id {
        CrateIdView::CratesIo { package, version } => looked_up(directory, package),
        CrateIdView::GitHub { user, repository } => Ok(seq![user]),
    }
}

impl View for OwnerDirectory {
    type V = Map<Seq<char>, Outcome>;

    closed spec fn view(&self) -> Map<Seq<char>, Outcome> {
        directory_of(self.records@)
    }
}

/// A copy of a list of handles.
fn copy_handles(handles: &Vec<String>) -> (copy: Vec<String>)
    ensures
        copy.deep_view() == handles.deep_view(),
{
    let mut copy: Vec<String> = Vec::new();
    let mut i: usize = 0;
    while i < handles.len()
        invariant
            i <= handles.len(),
            copy@.len() == i,
            forall|k: int| 0 <= k < i ==> copy@[k]@ == handles@[k]@,
        decreases handles.len() - i,
    {
        copy.push(handles[i].clone());
        i = i + 1;
    }
    assert(copy.deep_view() =~= handles.deep_view());
    copy
}

impl OwnerDirectory {
    /// A directory in which nothing is known.
    pub fn new() -> (directory: OwnerDirectory)
        ensures
            directory@ == Map::<Seq<char>, Outcome>::empty(),
    {
        OwnerDirectory { records: Vec::new() }
    }

    /// Records what the lookup of `name` gave; an earlier record of the
    /// same name is replaced.
    pub fn record(&mut self, name: String, outcome: Result<Vec<String>, LookupError>)
        ensures
            final(self)@ == old(self)@.insert(name@, outcome_view(outcome)),
    {
        let ghost before = self.records@;
        self.records.push(OwnerRecord { name, outcome });
        assert(self.records@.drop_last() =~= before);
    }

    /// What the directory says of `name`.
    pub fn lookup(&self, name: &str) -> (outcome: Result<Vec<String>, LookupError>)
        ensures
            outcome_view(outcome) == looked_up(self@, name@),
    {
        let mut i: usize = self.records.len();
        assert(self.records@.take(i as int) =~= self.records@);
        while i > 0
            invariant
                i <= self.records.len(),
                looked_up(directory_of(self.records@), name@) == looked_up(
                    directory_of(self.records@.take(i as int)),
                    name@,
                ),
            decreases i,
        {
            let record = &self.records[i - 1];
            proof {
                assert(self.records@.take(i as int).drop_last() =~= self.records@.take(i - 1));
                assert(self.records@.take(i as int).last() == self.records@[i - 1]);
            }
            if text_eq(record.name.as_str(), name) {
                return match &record.outcome {
                    Ok(handles) => Ok(copy_handles(handles)),
                    Err(error) => Err(*error),
                };
            }
            i = i - 1;
        }
        assert(self.records@.take(0) =~= Seq::<OwnerRecord>::empty());
        Err(LookupError::UnknownName)
    }
}

impl CrateId {
    /// The owners of the crate: those that the directory gives for a
    /// registry package, and the user itself for a repository.
    pub fn owners(&self, directory: &OwnerDirectory) -> (owners: Result<Vec<String>, LookupError>)
        ensures
            outcome_view(owners) == owners_of(self@, directory@),
    {
        match self {
            CrateId::CratesIo { package, version } => directory.lookup(package.as_str()),
            CrateId::GitHub { user, repository } => {
                let mut owners: Vec<String> = Vec::new();
                owners.push(user.clone());
                assert(owners.deep_view() =~= seq![user@]);
                Ok(owners)
            },
        }
    }
}

} // verus!
