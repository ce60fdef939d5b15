//! The run configuration: the two toolchains that were compared, and whom
//! the report is to mention.

use crate::text::text_eq;
use vstd::prelude::*;
use vstd::string::*;

verus! {

/// Which of the two toolchains a log belongs to.
#[derive(Copy, Clone, Debug, PartialEq, Eq, Structural)]
pub enum ToolchainType {
    Start,
    End,
}

/// Where a toolchain comes from.
#[derive(Debug)]
pub enum ToolchainSource {
    /// A build of one commit, of the `try` branch or of `master`.
    Ci { sha: String, try_: bool },
    /// A released toolchain.
    Dist { name: String },
}

/// One of the toolchains of a run.
#[derive(Debug)]
pub struct Toolchain {
    pub source: ToolchainSource,
}

/// A run: its name and its two toolchains, in their fixed order.
#[derive(Debug)]
pub struct Config {
    pub name: String,
    pub start: Toolchain,
    pub end: Toolchain,
}

/// Whose maintainers the report mentions.
#[derive(Copy, Clone, Debug, PartialEq, Eq, Structural)]
pub enum CcWho {
    All,
    Roots,
    Nobody,
}

impl Toolchain {
    /// The label under which the toolchain's logs are filed.
    pub open spec fn label(&self) -> Seq<char> {
        match self.source {
            ToolchainSource::Ci { sha, try_ } => (if try_ {
                "try"@
            } else {
                "master"@
            }) + "#"@ + sha@,
            ToolchainSource::Dist { name } => name@,
        }
    }

    /// The label under which the toolchain's logs are filed.
    pub fn name(&self) -> (label: String)
        ensures
            label@ == self.label(),
    {
        match &self.source {
            ToolchainSource::Ci { sha, try_ } => {
                let mut label = String::from_str(
                    if *try_ {
                        "try"
                    } else {
                        "master"
                    },
                );
                label.append("#");
                label.append(sha.as_str());
                label
            },
            ToolchainSource::Dist { name } => name.clone(),
        }
    }
}

impl Config {
    /// The toolchain that plays the given role.
    pub open spec fn toolchain(&self, ty: ToolchainType) -> Toolchain {
        match ty {
            ToolchainType::Start => self.start,
            ToolchainType::End => self.end,
        }
    }

    /// The role that a label names: the start toolchain's where it matches,
    /// else the end toolchain's, else none.
    pub open spec fn role_of(&self, label: Seq<char>) -> Option<ToolchainType> {
        if self.start.label() == label {
            Some(ToolchainType::Start)
        } else if self.end.label() == label {
            Some(ToolchainType::End)
        } else {
            None
        }
    }

    /// The label of the toolchain that plays the given role.
    pub fn toolchain_name(&self, ty: ToolchainType) -> (label: String)
        ensures
            label@ == self.toolchain(ty).label(),
    {
        match ty {
            ToolchainType::Start => self.start.name(),
            ToolchainType::End => self.end.name(),
        }
    }

    /// Resolves a label against the two toolchains of the run.
    pub fn role(&self, label: &str) -> (role: Option<ToolchainType>)
        ensures
            role == self.role_of(label@),
    {
        if text_eq(self.toolchain_name(ToolchainType::Start).as_str(), label) {
            Some(ToolchainType::Start)
        } else if text_eq(self.toolchain_name(ToolchainType::End).as_str(), label) {
            Some(ToolchainType::End)
        } else {
            None
        }
    }
}

impl CcWho {
    /// What a policy word means: `all`, `roots`, or `none` with its alias
    /// `print-list`; any other word means nothing.
    pub open spec fn parsed(word: Seq<char>) -> Option<CcWho> {
        if word == "all"@ {
            Some(CcWho::All)
        } else if word == "roots"@ {
            Some(CcWho::Roots)
        } else if word == "none"@ || word == "print-list"@ {
            Some(CcWho::Nobody)
        } else {
            None
        }
    }

    /// Reads a policy word.
    pub fn parse(word: &str) -> (policy: Option<CcWho>)
        ensures
            policy == CcWho::parsed(word@),
    {
        if text_eq(word, "all") {
            Some(CcWho::All)
        } else if text_eq(word, "roots") {
            Some(CcWho::Roots)
        } else if text_eq(word, "none") || text_eq(word, "print-list") {
            Some(CcWho::Nobody)
        } else {
            None
        }
    }

    /// Whether the crates listed under a shared cause get their own
    /// maintainers mentioned.
    pub open spec fn spec_causes(self) -> bool {
        self == CcWho::All
    }

    /// Whether root regressions, and the causes that several crates share,
    /// get maintainers mentioned.
    pub open spec fn spec_roots(self) -> bool {
        self == CcWho::All || self == CcWho::Roots
    }

    /// Whether the crates listed under a shared cause get their own
    /// maintainers mentioned.
    #[verifier::when_used_as_spec(spec_causes)]
    pub fn causes(self) -> (yes: bool)
        ensures
            yes == self.spec_causes(),
    {
        match self {
            CcWho::All => true,
            CcWho::Roots | CcWho::Nobody => false,
        }
    }

    /// Whether root regressions, and the causes that several crates share,
    /// get maintainers mentioned.
    #[verifier::when_used_as_spec(spec_roots)]
    pub fn roots(self) -> (yes: bool)
        ensures
            yes == self.spec_roots(),
    {
        match self {
            CcWho::All | CcWho::Roots => true,
            CcWho::Nobody => false,
        }
    }
}

} // verus!
