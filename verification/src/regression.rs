//! One regressed crate with its two logs, and how an entry of the log archive
//! is read.

use crate::cause::{classify, log_cause, CauseView, SuspectedCause};
use crate::config::{Config, ToolchainType};
use crate::identity::{CrateId, CrateIdView};
use crate::text::{remove_all, text_eq, without_all};
use crate::url::log_link;
use vstd::prelude::*;

verus! {

/// Why an entry of the log archive was refused.
#[derive(Copy, Clone, Debug, PartialEq, Eq, Structural)]
pub enum IngestError {
    /// The crate already has a log of that toolchain.
    DuplicateLog,
    /// The toolchain is none of the two that the run compares.
    UnknownToolchain,
    /// The crate comes neither from the registry nor from a repository.
    UnknownSourceKind,
    /// The path has too few segments to name a crate and a toolchain.
    MalformedPath,
}

/// A regressed crate and the logs of its builds under the two toolchains.
#[derive(Debug)]
pub struct Regression {
    id: CrateId,
    start_log: Option<String>,
    end_log: Option<String>,
}

/// What a [`Regression`] holds, as plain text.
pub struct RegressionView {
    pub id: CrateIdView,
    pub start_log: Option<Seq<char>>,
    pub end_log: Option<Seq<char>>,
}

impl View for Regression {
    type V = RegressionView;

    closed spec fn view(&self) -> RegressionView {
        RegressionView {
            id: self.id@,
            start_log: self.start_log.deep_view(),
            end_log: self.end_log.deep_view(),
        }
    }
}

impl DeepView for Regression {
    type V = RegressionView;

    open spec fn deep_view(&self) -> RegressionView {
        self@
    }
}

impl RegressionView {
    /// The record of a crate of which no log has arrived.
    pub open spec fn fresh(id: CrateIdView) -> RegressionView {
        RegressionView { id, start_log: None, end_log: None }
    }

    /// The log of the toolchain of the given role, if it has arrived.
    pub open spec fn log(self, ty: ToolchainType) -> Option<Seq<char>> {
        match ty {
            ToolchainType::Start => self.start_log,
            ToolchainType::End => self.end_log,
        }
    }

    /// The record with `text` as the log of the toolchain of the given role.
    pub open spec fn with_log(self, ty: ToolchainType, text: Seq<char>) -> RegressionView {
        match ty {
            ToolchainType::Start => RegressionView { start_log: Some(text), ..self },
            ToolchainType::End => RegressionView { end_log: Some(text), ..self },
        }
    }

    /// Both logs have arrived.
    pub open spec fn complete(self) -> bool {
        self.start_log is Some && self.end_log is Some
    }

    /// The cause that the end log gives, read for the crate's own name.
    pub open spec fn cause(self) -> CauseView {
        log_cause(self.end_log->0, self.id.name())
    }

    /// What becomes of the record when a log of the toolchain of the given
    /// role arrives: the log takes the empty slot, and a slot that is taken
    /// refuses it.
    pub open spec fn put(self, ty: ToolchainType, text: Seq<char>) -> Result<
        RegressionView,
        IngestError,
    > {
        if self.log(ty) is Some {
            Err(IngestError::DuplicateLog)
        } else {
            Ok(self.with_log(ty, text))
        }
    }

    /// What becomes of the record when a log arrives under the label of a
    /// toolchain.
    pub open spec fn inserted(self, cfg: &Config, toolchain: Seq<char>, text: Seq<char>) -> Result<
        RegressionView,
        IngestError,
    > {
        match cfg.role_of(toolchain) {
            Some(ty) => self.put(ty, text),
            None => Err(IngestError::UnknownToolchain),
        }
    }
}

impl Regression {
    /// The record of a crate of which no log has arrived.
    pub fn new(id: CrateId) -> (record: Regression)
        ensures
            record@ == RegressionView::fresh(id@),
    {
        Regression { id, start_log: None, end_log: None }
    }

    /// The crate that regressed.
    pub fn id(&self) -> (id: &CrateId)
        ensures
            id@ == self@.id,
    {
        &self.id
    }

    /// Whether the log of the toolchain of the given role has arrived.
    pub fn has_log(&self, ty: ToolchainType) -> (yes: bool)
        ensures
            yes == self@.log(ty) is Some,
    {
        match ty {
            ToolchainType::Start => self.start_log.is_some(),
            ToolchainType::End => self.end_log.is_some(),
        }
    }

    /// Whether both logs have arrived.
    pub fn is_complete(&self) -> (yes: bool)
        ensures
            yes == self@.complete(),
    {
        self.start_log.is_some() && self.end_log.is_some()
    }

    /// The log of the toolchain of the given role, which has arrived.
    pub fn log(&self, ty: ToolchainType) -> (text: &str)
        requires
            self@.log(ty) is Some,
        ensures
            text@ == self@.log(ty)->0,
    {
        match ty {
            ToolchainType::Start => self.start_log.as_ref().unwrap().as_str(),
            ToolchainType::End => self.end_log.as_ref().unwrap().as_str(),
        }
    }

    /// The link to the log of the toolchain of the given role.
    pub fn log_url(&self, cfg: &Config, ty: ToolchainType) -> (link: String)
        ensures
            link@ == log_link(cfg, self@.id, ty),
    {
        self.id.log_url(cfg, ty)
    }

    /// Files a log into the slot of the given role. A slot that is taken
    /// refuses the log, and the record stays as it was.
    pub fn put(&mut self, ty: ToolchainType, log: String) -> (done: Result<(), IngestError>)
        ensures
            match old(self)@.put(ty, log@) {
                Ok(record) => done == Ok::<(), IngestError>(()) && final(self)@ == record,
                Err(error) => done == Err::<(), IngestError>(error) && final(self)@ == old(self)@,
            },
    {
        match ty {
            ToolchainType::Start => {
                if self.start_log.is_some() {
                    return Err(IngestError::DuplicateLog);
                }
                self.start_log = Some(log);
            },
            ToolchainType::End => {
                if self.end_log.is_some() {
                    return Err(IngestError::DuplicateLog);
                }
                self.end_log = Some(log);
            },
        }
        Ok(())
    }

    /// Files a log that arrived under the label of a toolchain: into the
    /// start slot where the label is that of the start toolchain, else into
    /// the end slot where it is that of the end toolchain. Any other label
    /// is refused, and so is a log for a slot that is taken; the record then
    /// stays as it was.
    pub fn insert(&mut self, cfg: &Config, toolchain: &str, log: String) -> (done: Result<
        (),
        IngestError,
    >)
        ensures
            match old(self)@.inserted(cfg, toolchain@, log@) {
                Ok(record) => done == Ok::<(), IngestError>(()) && final(self)@ == record,
                Err(error) => done == Err::<(), IngestError>(error) && final(self)@ == old(self)@,
            },
    {
        match cfg.role(toolchain) {
            Some(ty) => self.put(ty, log),
            None => Err(IngestError::UnknownToolchain),
        }
    }

    /// The cause of the regression, read out of the end log, which has
    /// arrived.
    pub fn suspected_cause(&self) -> (cause: SuspectedCause)
        requires
            self@.end_log is Some,
        ensures
            cause@ == self@.cause(),
    {
        let own_name = self.id.name();
        classify(self.log(ToolchainType::End), own_name.as_str())
    }
}

/// The segment that names the registry as the source of a crate.
pub const REGISTRY_KIND: &'static str = "reg";

/// The segment that names a repository as the source of a crate.
pub const REPOSITORY_KIND: &'static str = "gh";

/// What the name of a log file holds besides the label of its toolchain.
pub const LOG_SUFFIX: &'static str = ".txt";

/// What the path of an entry of the log archive names: the crate and the
/// label of the toolchain. The second segment is the source of the crate,
/// the third and fourth are its two fields, and the fifth is the label with
/// the suffix of a log file, which is taken out wherever it stands. A path
/// of fewer than five segments names nothing, nor does one with another
/// source.
pub open spec fn entry_of(segments: Seq<Seq<char>>) -> Result<(CrateIdView, Seq<char>), IngestError> {
    if segments.len() < 5 {
        Err(IngestError::MalformedPath)
    } else if segments[1] == REPOSITORY_KIND@ {
        Ok(
            (
                CrateIdView::GitHub { user: segments[2], repository: segments[3] },
                without_all(segments[4], LOG_SUFFIX@),
            ),
        )
    } else if segments[1] == REGISTRY_KIND@ {
        Ok(
            (
                CrateIdView::CratesIo { package: segments[2], version: segments[3] },
                without_all(segments[4], LOG_SUFFIX@),
            ),
        )
    } else {
        Err(IngestError::UnknownSourceKind)
    }
}

/// The plain-text form of what a path names.
pub open spec fn entry_view(entry: Result<(CrateId, String), IngestError>) -> Result<
    (CrateIdView, Seq<char>),
    IngestError,
> {
    match entry {
        Ok((id, toolchain)) => Ok((id@, toolchain@)),
        Err(error) => Err(error),
    }
}

/// Reads the crate and the label of the toolchain out of the segments of the
/// path of an entry of the log archive.
pub fn parse_entry_path(segments: &[String]) -> (entry: Result<(CrateId, String), IngestError>)
    ensures
        entry_view(entry) == entry_of(segments.deep_view()),
{
    if segments.len() < 5 {
        return Err(IngestError::MalformedPath);
    }
    let kind = segments[1].as_str();
    if text_eq(kind, REPOSITORY_KIND) {
        let id = CrateId::GitHub { user: segments[2].clone(), repository: segments[3].clone() };
        Ok((id, remove_all(segments[4].as_str(), LOG_SUFFIX)))
    } else if text_eq(kind, REGISTRY_KIND) {
        let id = CrateId::CratesIo { package: segments[2].clone(), version: segments[3].clone() };
        Ok((id, remove_all(segments[4].as_str(), LOG_SUFFIX)))
    } else {
        Err(IngestError::UnknownSourceKind)
    }
}

} // verus!
