//! Crate identities: what a regression is keyed by, with its total order.

use crate::text::{
    lemma_text_lt_irreflexive, lemma_text_lt_total, lemma_text_lt_transitive, text_eq, text_lt,
    text_precedes,
};
use vstd::prelude::*;
use vstd::string::*;

verus! {

/// A crate under test: a package of the registry at one version, or a
/// repository of a source-hosting user.
#[derive(Debug, Hash, PartialOrd, Ord)]
pub enum CrateId {
    CratesIo { package: String, version: String },
    GitHub { user: String, repository: String },
}

/// What a [`CrateId`] holds, as plain text.
pub enum CrateIdView {
    CratesIo { package: Seq<char>, version: Seq<char> },
    GitHub { user: Seq<char>, repository: Seq<char> },
}

impl View for CrateId {
    type V = CrateIdView;

    open spec fn view(&self) -> CrateIdView {
        match self {
            CrateId::CratesIo { package, version } => CrateIdView::CratesIo {
                package: package@,
                version: version@,
            },
            CrateId::GitHub { user, repository } => CrateIdView::GitHub {
                user: user@,
                repository: repository@,
            },
        }
    }
}

impl DeepView for CrateId {
    type V = CrateIdView;

    open spec fn deep_view(&self) -> CrateIdView {
        self@
    }
}

impl CrateIdView {
    /// The identity as the report shows it: `package-version` or
    /// `user/repository`.
    pub open spec fn text(self) -> Seq<char> {
        match self {
            CrateIdView::CratesIo { package, version } => package + "-"@ + version,
            CrateIdView::GitHub { user, repository } => user + "/"@ + repository,
        }
    }

    /// The crate's own name, without a version: `package` or
    /// `user/repository`.
    pub open spec fn name(self) -> Seq<char> {
        match self {
            CrateIdView::CratesIo { package, version } => package,
            CrateIdView::GitHub { user, repository } => user + "/"@ + repository,
        }
    }

    /// The first and second field, whatever the variant.
    pub open spec fn fields(self) -> (Seq<char>, Seq<char>) {
        match self {
            CrateIdView::CratesIo { package, version } => (package, version),
            CrateIdView::GitHub { user, repository } => (user, repository),
        }
    }

    /// The identity order: registry packages before repositories, then by
    /// the first field, then by the second.
    pub open spec fn lt(self, other: CrateIdView) -> bool {
        if self is CratesIo && other is GitHub {
            true
        } else if self is GitHub && other is CratesIo {
            false
        } else {
            ||| text_lt(self.fields().0, other.fields().0)
            ||| self.fields().0 == other.fields().0 && text_lt(self.fields().1, other.fields().1)
        }
    }
}

/// No identity comes before itself.
pub proof fn lemma_id_lt_irreflexive(a: CrateIdView)
    ensures
        !a.lt(a),
{
    lemma_text_lt_irreflexive(a.fields().0);
    lemma_text_lt_irreflexive(a.fields().1);
}

/// The identity order is transitive.
pub proof fn lemma_id_lt_transitive(a: CrateIdView, b: CrateIdView, c: CrateIdView)
    requires
        a.lt(b),
        b.lt(c),
    ensures
        a.lt(c),
{
    let (a0, a1) = a.fields();
    let (b0, b1) = b.fields();
    let (c0, c1) = c.fields();
    if text_lt(a0, b0) && text_lt(b0, c0) {
        lemma_text_lt_transitive(a0, b0, c0);
    }
    if text_lt(a1, b1) && text_lt(b1, c1) {
        lemma_text_lt_transitive(a1, b1, c1);
    }
}

/// Of two identities one comes first, or they are the same identity.
pub proof fn lemma_id_lt_total(a: CrateIdView, b: CrateIdView)
    ensures
        a.lt(b) || b.lt(a) || a == b,
{
    lemma_text_lt_total(a.fields().0, b.fields().0);
    lemma_text_lt_total(a.fields().1, b.fields().1);
}

impl Clone for CrateId {
    fn clone(&self) -> (copy: Self)
        ensures
            copy@ == self@,
    {
        match self {
            CrateId::CratesIo { package, version } => CrateId::CratesIo {
                package: package.clone(),
                version: version.clone(),
            },
            CrateId::GitHub { user, repository } => CrateId::GitHub {
                user: user.clone(),
                repository: repository.clone(),
            },
        }
    }
}

impl PartialEq for CrateId {
    fn eq(&self, other: &Self) -> (same: bool) {
        match (self, other) {
            (
                CrateId::CratesIo { package: left_package, version: left_version },
                CrateId::CratesIo { package: right_package, version: right_version },
            ) => text_eq(left_package.as_str(), right_package.as_str()) && text_eq(left_version.as_str(), right_version.as_str()),
            (
                CrateId::GitHub { user: left_user, repository: left_repository },
                CrateId::GitHub { user: right_user, repository: right_repository },
            ) => text_eq(left_user.as_str(), right_user.as_str()) && text_eq(left_repository.as_str(), right_repository.as_str()),
            _ => false,
        }
    }
}

impl vstd::std_specs::cmp::PartialEqSpecImpl for CrateId {
    open spec fn obeys_eq_spec() -> bool {
        true
    }

    open spec fn eq_spec(&self, other: &Self) -> bool {
        self@ == other@
    }
}

impl Eq for CrateId {

}

impl CrateId {
    /// The identity as the report shows it.
    pub fn to_string(&self) -> (shown: String)
        ensures
            shown@ == self@.text(),
    {
        match self {
            CrateId::CratesIo { package, version } => {
                let mut shown = package.clone();
                shown.append("-");
                shown.append(version.as_str());
                shown
            },
            CrateId::GitHub { user, repository } => {
                let mut shown = user.clone();
                shown.append("/");
                shown.append(repository.as_str());
                shown
            },
        }
    }

    /// The crate's own name, without a version.
    pub fn name(&self) -> (name: String)
        ensures
            name@ == self@.name(),
    {
        match self {
            CrateId::CratesIo { package, version } => package.clone(),
            CrateId::GitHub { user, repository } => {
                let mut name = user.clone();
                name.append("/");
                name.append(repository.as_str());
                name
            },
        }
    }

    /// Whether `self` comes before `other` in the identity order.
    pub fn precedes(&self, other: &CrateId) -> (before: bool)
        ensures
            before == self@.lt(other@),
    {
        match (self, other) {
            (
                CrateId::CratesIo { package: left_package, version: left_version },
                CrateId::CratesIo { package: right_package, version: right_version },
            ) => text_precedes(left_package.as_str(), right_package.as_str()) || (text_eq(left_package.as_str(), right_package.as_str())
                && text_precedes(left_version.as_str(), right_version.as_str())),
            (
                CrateId::GitHub { user: left_user, repository: left_repository },
                CrateId::GitHub { user: right_user, repository: right_repository },
            ) => text_precedes(left_user.as_str(), right_user.as_str()) || (text_eq(left_user.as_str(), right_user.as_str())
                && text_precedes(left_repository.as_str(), right_repository.as_str())),
            (CrateId::CratesIo { .. }, CrateId::GitHub { .. }) => true,
            (CrateId::GitHub { .. }, CrateId::CratesIo { .. }) => false,
        }
    }
}

} // verus!
