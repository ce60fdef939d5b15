//! The report: the root-cause table as text, the list of the regressed
//! crates, and the names whose owners the report asks for.

use crate::aggregate::{Bucket, BucketView, CauseTable};
use crate::cause::{CauseView, SuspectedCause};
use crate::config::{CcWho, Config, ToolchainType};
use crate::identity::{CrateId, CrateIdView};
use crate::owners::{
    cc_list, format_owners_to_cc, looked_up, owners_of, LookupError, Outcome, OwnerDirectory,
};
use crate::regression::RegressionView;
use crate::store::RegressionStore;
use crate::text::{decimal, write_decimal};
use crate::url::log_link;
use vstd::prelude::*;
use vstd::string::*;

verus! {

/// The links to the two logs of a crate.
pub open spec fn links(cfg: &Config, id: CrateIdView) -> Seq<char> {
    "[start]("@ + log_link(cfg, id, ToolchainType::Start) + ") v. [end]("@ + log_link(
        cfg,
        id,
        ToolchainType::End,
    ) + ")"@
}

/// The mentions of the owners of a crate; a lookup that failed gives none.
pub open spec fn crate_mentions(id: CrateIdView, directory: Map<Seq<char>, Outcome>) -> Seq<char> {
    match owners_of(id, directory) {
        Ok(owners) => cc_list(owners),
        Err(_) => Seq::empty(),
    }
}

/// What the head of a shared cause says of the owners of the crate that the
/// cause names: their mentions or, where the lookup failed or the cause names
/// no crate, that there may be no owner.
pub open spec fn cause_mentions(cause: CauseView, directory: Map<Seq<char>, Outcome>) -> Seq<char> {
    match cause.name() {
        Some(name) => match looked_up(directory, name) {
            Ok(owners) => "; cc "@ + cc_list(owners),
            Err(_) => "no owner?"@,
        },
        None => "no owner?"@,
    }
}

/// The line of a crate that is alone with its cause.
pub open spec fn root_line(
    cfg: &Config,
    directory: Map<Seq<char>, Outcome>,
    policy: CcWho,
    id: CrateIdView,
) -> Seq<char> {
    " * root: "@ + id.text() + ": "@ + links(cfg, id) + (if policy.spec_roots() {
        "; cc "@ + crate_mentions(id, directory)
    } else {
        Seq::empty()
    }) + "\n"@
}

/// The head of a cause that `count` crates share.
pub open spec fn header(
    directory: Map<Seq<char>, Outcome>,
    policy: CcWho,
    cause: CauseView,
    count: nat,
) -> Seq<char> {
    "\nroot: "@ + cause.text() + " - "@ + decimal(count)
        + " detected crates which regressed due to this"@ + (if policy.spec_roots() {
        cause_mentions(cause, directory)
    } else {
        Seq::empty()
    }) + "\n"@
}

/// The line of a crate below the head of its cause. The mentions stand
/// between backticks, which keeps them from notifying anyone, unless the
/// cause is unknown.
pub open spec fn member_line(
    cfg: &Config,
    directory: Map<Seq<char>, Outcome>,
    policy: CcWho,
    cause: CauseView,
    id: CrateIdView,
) -> Seq<char> {
    " * "@ + id.text() + ": "@ + links(cfg, id) + (if policy.spec_causes() {
        "; cc "@ + (if cause is Unknown {
            crate_mentions(id, directory)
        } else {
            "`"@ + crate_mentions(id, directory) + "`"@
        })
    } else {
        Seq::empty()
    }) + "\n"@
}

/// The lines of the crates below the head of their cause.
pub open spec fn member_lines(
    cfg: &Config,
    directory: Map<Seq<char>, Outcome>,
    policy: CcWho,
    cause: CauseView,
    crates: Seq<CrateIdView>,
) -> Seq<char>
    decreases crates.len(),
{
    if crates.len() == 0 {
        Seq::empty()
    } else {
        member_lines(cfg, directory, policy, cause, crates.drop_last()) + member_line(
            cfg,
            directory,
            policy,
            cause,
            crates.last(),
        )
    }
}

/// What the report says of one bucket: a single line where one crate is
/// alone with its cause, else the head of the cause and, folded away, the
/// lines of its crates.
pub open spec fn bucket_text(
    cfg: &Config,
    directory: Map<Seq<char>, Outcome>,
    policy: CcWho,
    bucket: BucketView,
) -> Seq<char> {
    if bucket.is_root() {
        root_line(cfg, directory, policy, bucket.crates[0])
    } else {
        header(directory, policy, bucket.cause, bucket.crates.len()) + "<details>\n\n"@
            + member_lines(cfg, directory, policy, bucket.cause, bucket.crates)
            + "\n</details>\n\n"@
    }
}

/// The report: what it says of each bucket, in the order of the buckets.
pub open spec fn report_text(
    cfg: &Config,
    directory: Map<Seq<char>, Outcome>,
    policy: CcWho,
    buckets: Seq<BucketView>,
) -> Seq<char>
    decreases buckets.len(),
{
    if buckets.len() == 0 {
        Seq::empty()
    } else {
        report_text(cfg, directory, policy, buckets.drop_last()) + bucket_text(
            cfg,
            directory,
            policy,
            buckets.last(),
        )
    }
}

/// The list of the regressed crates: their names, one on each line, with
/// nothing behind the last.
pub open spec fn crate_list_text(records: Seq<RegressionView>) -> Seq<char>
    decreases records.len(),
{
    if records.len() == 0 {
        Seq::empty()
    } else if records.len() == 1 {
        records[0].id.name()
    } else {
        crate_list_text(records.drop_last()) + "\n"@ + records.last().id.name()
    }
}

/// The name under which the owners of a crate are looked up, where they
/// are: the package, for a crate of the registry.
pub open spec fn crate_target(id: CrateIdView) -> Seq<Seq<char>> {
    match id {
        CrateIdView::CratesIo { package, version } => seq![package],
        CrateIdView::GitHub { user, repository } => Seq::empty(),
    }
}

/// The names under which the owners of the crates are looked up.
pub open spec fn crate_targets(crates: Seq<CrateIdView>) -> Seq<Seq<char>>
    decreases crates.len(),
{
    if crates.len() == 0 {
        Seq::empty()
    } else {
        crate_targets(crates.drop_last()) + crate_target(crates.last())
    }
}

/// The names that the report asks the directory for when it comes to one
/// bucket.
pub open spec fn bucket_targets(policy: CcWho, bucket: BucketView) -> Seq<Seq<char>> {
    if bucket.is_root() {
        if policy.spec_roots() {
            crate_target(bucket.crates[0])
        } else {
            Seq::empty()
        }
    } else {
        (if policy.spec_roots() && bucket.cause.name() is Some {
            seq![bucket.cause.name()->0]
        } else {
            Seq::empty()
        }) + (if policy.spec_causes() {
            crate_targets(bucket.crates)
        } else {
            Seq::empty()
        })
    }
}

/// The names that the report asks the directory for, in the order in which
/// it asks.
pub open spec fn targets(policy: CcWho, buckets: Seq<BucketView>) -> Seq<Seq<char>>
    decreases buckets.len(),
{
    if buckets.len() == 0 {
        Seq::empty()
    } else {
        targets(policy, buckets.drop_last()) + bucket_targets(policy, buckets.last())
    }
}

/// Two directories say the same of every one of the names.
pub open spec fn agree_on(
    names: Seq<Seq<char>>,
    one: Map<Seq<char>, Outcome>,
    other: Map<Seq<char>, Outcome>,
) -> bool {
    forall|k: int|
        0 <= k < names.len() ==> looked_up(one, #[trigger] names[k]) == looked_up(other, names[k])
}

/// The lines of crates are the same under two directories that agree on the
/// names under which the owners of the crates are looked up.
proof fn lemma_member_lines_read_targets(
    cfg: &Config,
    one: Map<Seq<char>, Outcome>,
    other: Map<Seq<char>, Outcome>,
    policy: CcWho,
    cause: CauseView,
    crates: Seq<CrateIdView>,
)
    requires
        policy.spec_causes() ==> agree_on(crate_targets(crates), one, other),
    ensures
        member_lines(cfg, one, policy, cause, crates) == member_lines(
            cfg,
            other,
            policy,
            cause,
            crates,
        ),
    decreases crates.len(),
{
    if crates.len() > 0 {
        let earlier = crate_targets(crates.drop_last());
        let last = crate_target(crates.last());
        if policy.spec_causes() {
            assert forall|k: int| 0 <= k < earlier.len() implies looked_up(
                one,
                #[trigger] earlier[k],
            ) == looked_up(other, earlier[k]) by {
                assert(crate_targets(crates)[k] == earlier[k]);
            }
            if last.len() > 0 {
                assert(crate_targets(crates)[earlier.len() as int] == last[0]);
            }
        }
        lemma_member_lines_read_targets(cfg, one, other, policy, cause, crates.drop_last());
    }
}

/// What the report says of a bucket is the same under two directories that
/// agree on the names that the report asks for when it comes to the bucket.
proof fn lemma_bucket_reads_targets(
    cfg: &Config,
    one: Map<Seq<char>, Outcome>,
    other: Map<Seq<char>, Outcome>,
    policy: CcWho,
    bucket: BucketView,
)
    requires
        agree_on(bucket_targets(policy, bucket), one, other),
    ensures
        bucket_text(cfg, one, policy, bucket) == bucket_text(cfg, other, policy, bucket),
{
    let names = bucket_targets(policy, bucket);
    if bucket.crates.len() == 1 {
        if policy.spec_roots() && names.len() > 0 {
            assert(looked_up(one, names[0]) == looked_up(other, names[0]));
        }
    } else {
        let of_cause: Seq<Seq<char>> = if policy.spec_roots() && bucket.cause.name() is Some {
            seq![bucket.cause.name()->0]
        } else {
            Seq::empty()
        };
        if of_cause.len() > 0 {
            assert(names[0] == of_cause[0]);
            assert(looked_up(one, names[0]) == looked_up(other, names[0]));
        }
        if policy.spec_causes() {
            let of_crates = crate_targets(bucket.crates);
            assert forall|k: int| 0 <= k < of_crates.len() implies looked_up(
                one,
                #[trigger] of_crates[k],
            ) == looked_up(other, of_crates[k]) by {
                assert(names[of_cause.len() + k] == of_crates[k]);
            }
        }
        lemma_member_lines_read_targets(cfg, one, other, policy, bucket.cause, bucket.crates);
    }
}

/// The report reads nothing of the directory but what it says of the names
/// that [`lookup_targets`] lists: under two directories that agree on them
/// the report is the same.
pub proof fn lemma_report_reads_targets(
    cfg: &Config,
    one: Map<Seq<char>, Outcome>,
    other: Map<Seq<char>, Outcome>,
    policy: CcWho,
    buckets: Seq<BucketView>,
)
    requires
        agree_on(targets(policy, buckets), one, other),
    ensures
        report_text(cfg, one, policy, buckets) == report_text(cfg, other, policy, buckets),
    decreases buckets.len(),
{
    if buckets.len() > 0 {
        let earlier = targets(policy, buckets.drop_last());
        let last = bucket_targets(policy, buckets.last());
        assert forall|k: int| 0 <= k < earlier.len() implies looked_up(one, #[trigger] earlier[k])
            == looked_up(other, earlier[k]) by {
            assert(targets(policy, buckets)[k] == earlier[k]);
        }
        assert forall|k: int| 0 <= k < last.len() implies looked_up(one, #[trigger] last[k])
            == looked_up(other, last[k]) by {
            assert(targets(policy, buckets)[earlier.len() + k] == last[k]);
        }
        lemma_report_reads_targets(cfg, one, other, policy, buckets.drop_last());
        lemma_bucket_reads_targets(cfg, one, other, policy, buckets.last());
    }
}

/// Two runs of one name whose toolchains have the same labels.
pub open spec fn same_run(one: &Config, other: &Config) -> bool {
    &&& one.name@ == other.name@
    &&& one.start.label() == other.start.label()
    &&& one.end.label() == other.end.label()
}

/// The lines of crates are the same for two runs that say the same.
proof fn lemma_member_lines_are_fixed(
    one: &Config,
    other: &Config,
    directory: Map<Seq<char>, Outcome>,
    policy: CcWho,
    cause: CauseView,
    crates: Seq<CrateIdView>,
)
    requires
        same_run(one, other),
    ensures
        member_lines(one, directory, policy, cause, crates) == member_lines(
            other,
            directory,
            policy,
            cause,
            crates,
        ),
    decreases crates.len(),
{
    if crates.len() > 0 {
        lemma_member_lines_are_fixed(one, other, directory, policy, cause, crates.drop_last());
    }
}

/// Rendering is a function of what the table, the run, the directory and
/// the policy say: the report of one table under one directory and one
/// policy is the same text, character by character, for two runs of one
/// name whose toolchains have the same labels.
pub proof fn lemma_report_is_fixed_by_its_inputs(
    one: &Config,
    other: &Config,
    directory: Map<Seq<char>, Outcome>,
    policy: CcWho,
    buckets: Seq<BucketView>,
)
    requires
        same_run(one, other),
    ensures
        report_text(one, directory, policy, buckets) == report_text(
            other,
            directory,
            policy,
            buckets,
        ),
    decreases buckets.len(),
{
    if buckets.len() > 0 {
        let last = buckets.last();
        lemma_report_is_fixed_by_its_inputs(one, other, directory, policy, buckets.drop_last());
        lemma_member_lines_are_fixed(one, other, directory, policy, last.cause, last.crates);
    }
}

/// Appends the links to the two logs of a crate.
fn write_links(out: &mut String, cfg: &Config, id: &CrateId)
    ensures
        final(out)@ == old(out)@ + links(cfg, id@),
{
    out.append("[start](");
    out.append(id.log_url(cfg, ToolchainType::Start).as_str());
    out.append(") v. [end](");
    out.append(id.log_url(cfg, ToolchainType::End).as_str());
    out.append(")");
    assert(out@ =~= old(out)@ + links(cfg, id@));
}

/// Appends the mentions of the owners of a crate.
fn write_crate_mentions(out: &mut String, id: &CrateId, directory: &OwnerDirectory)
    ensures
        final(out)@ == old(out)@ + crate_mentions(id@, directory@),
{
    match id.owners(directory) {
        Ok(owners) => {
            out.append(format_owners_to_cc(owners.as_slice()).as_str());
        },
        Err(_) => {
            assert(out@ =~= old(out)@ + crate_mentions(id@, directory@));
        },
    }
}

/// Appends what the head of a shared cause says of the owners of the crate
/// that the cause names.
fn write_cause_mentions(out: &mut String, cause: &SuspectedCause, directory: &OwnerDirectory)
    ensures
        final(out)@ == old(out)@ + cause_mentions(cause@, directory@),
{
    let owners = match cause.crate_name() {
        Some(name) => directory.lookup(name),
        None => Err(LookupError::UnknownName),
    };
    match owners {
        Ok(owners) => {
            out.append("; cc ");
            out.append(format_owners_to_cc(owners.as_slice()).as_str());
            assert(out@ =~= old(out)@ + cause_mentions(cause@, directory@));
        },
        Err(_) => {
            out.append("no owner?");
        },
    }
}

/// Appends the line of a crate that is alone with its cause.
fn write_root_line(
    out: &mut String,
    cfg: &Config,
    directory: &OwnerDirectory,
    policy: CcWho,
    id: &CrateId,
)
    ensures
        final(out)@ == old(out)@ + root_line(cfg, directory@, policy, id@),
{
    out.append(" * root: ");
    out.append(id.to_string().as_str());
    out.append(": ");
    write_links(out, cfg, id);
    if policy.roots() {
        out.append("; cc ");
        write_crate_mentions(out, id, directory);
    }
    out.append("\n");
    assert(out@ =~= old(out)@ + root_line(cfg, directory@, policy, id@));
}

/// Appends the head of a cause that `count` crates share.
fn write_header(
    out: &mut String,
    directory: &OwnerDirectory,
    policy: CcWho,
    cause: &SuspectedCause,
    count: usize,
)
    ensures
        final(out)@ == old(out)@ + header(directory@, policy, cause@, count as nat),
{
    out.append("\nroot: ");
    out.append(cause.to_string().as_str());
    out.append(" - ");
    write_decimal(out, count);
    out.append(" detected crates which regressed due to this");
    if policy.roots() {
        write_cause_mentions(out, cause, directory);
    }
    out.append("\n");
    assert(out@ =~= old(out)@ + header(directory@, policy, cause@, count as nat));
}

/// Appends the line of a crate below the head of its cause.
fn write_member_line(
    out: &mut String,
    cfg: &Config,
    directory: &OwnerDirectory,
    policy: CcWho,
    cause: &SuspectedCause,
    id: &CrateId,
)
    ensures
        final(out)@ == old(out)@ + member_line(cfg, directory@, policy, cause@, id@),
{
    out.append(" * ");
    out.append(id.to_string().as_str());
    out.append(": ");
    write_links(out, cfg, id);
    if policy.causes() {
        out.append("; cc ");
        match cause {
            SuspectedCause::Unknown => {
                write_crate_mentions(out, id, directory);
            },
            _ => {
                out.append("`");
                write_crate_mentions(out, id, directory);
                out.append("`");
            },
        }
    }
    out.append("\n");
    assert(out@ =~= old(out)@ + member_line(cfg, directory@, policy, cause@, id@));
}

/// Appends what the report says of one bucket.
fn write_bucket(
    out: &mut String,
    cfg: &Config,
    directory: &OwnerDirectory,
    policy: CcWho,
    bucket: &Bucket,
)
    ensures
        final(out)@ == old(out)@ + bucket_text(cfg, directory@, policy, bucket@),
{
    let crates = bucket.crates();
    let cause = bucket.cause();
    if bucket.is_root() {
        write_root_line(out, cfg, directory, policy, &crates[0]);
        return ;
    }
    write_header(out, directory, policy, cause, crates.len());
    out.append("<details>\n\n");
    let ghost head = out@;
    let ghost ids = crates.deep_view();
    let mut i: usize = 0;
    while i < crates.len()
        invariant
            i <= crates.len(),
            ids == crates.deep_view(),
            out@ == head + member_lines(cfg, directory@, policy, cause@, ids.take(i as int)),
        decreases crates.len() - i,
    {
        proof {
            assert(ids.take(i + 1).drop_last() =~= ids.take(i as int));
            assert(ids.take(i + 1).last() == crates@[i as int]@);
        }
        write_member_line(out, cfg, directory, policy, cause, &crates[i]);
        assert(out@ =~= head + member_lines(cfg, directory@, policy, cause@, ids.take(i + 1)));
        i = i + 1;
    }
    out.append("\n</details>\n\n");
    proof {
        assert(ids.take(i as int) =~= ids);
        assert(out@ =~= old(out)@ + bucket_text(cfg, directory@, policy, bucket@));
    }
}

/// Renders the root-cause table. A crate that is alone with its cause gets
/// one line. A cause that several crates share gets a head with the number
/// of its crates, and below it, folded away, one line for each crate. With
/// the policy `Roots` or `All` the single lines mention the owners of their
/// crates and the heads those of the crate that the cause names; with `All`
/// the lines below a head mention the owners of their crates too. The owners
/// are read out of the directory, and a lookup that failed leaves a crate
/// without mentions and a head with a note.
pub fn render(table: &CauseTable, cfg: &Config, directory: &OwnerDirectory, policy: CcWho) -> (text:
    String)
    ensures
        text@ == report_text(cfg, directory@, policy, table@),
{
    let buckets = table.buckets();
    let mut text = String::new();
    let mut i: usize = 0;
    while i < buckets.len()
        invariant
            i <= buckets.len(),
            buckets.deep_view() == table@,
            text@ == report_text(cfg, directory@, policy, table@.take(i as int)),
        decreases buckets.len() - i,
    {
        proof {
            assert(table@.take(i + 1).drop_last() =~= table@.take(i as int));
            assert(table@.take(i + 1).last() == buckets@[i as int]@);
        }
        write_bucket(&mut text, cfg, directory, policy, &buckets[i]);
        i = i + 1;
    }
    assert(table@.take(i as int) =~= table@);
    text
}

/// Lists the regressed crates by their names, one on each line, in the
/// order of the store.
pub fn crate_list(store: &RegressionStore) -> (text: String)
    ensures
        text@ == crate_list_text(store@),
{
    let records = store.records();
    let mut text = String::new();
    let mut i: usize = 0;
    while i < records.len()
        invariant
            i <= records.len(),
            records.deep_view() == store@,
            text@ == crate_list_text(store@.take(i as int)),
        decreases records.len() - i,
    {
        proof {
            assert(store@.take(i + 1).drop_last() =~= store@.take(i as int));
            assert(store@.take(i + 1).last() == records@[i as int]@);
            if i == 0 {
                assert(text@ + records@[0]@.id.name() =~= records@[0]@.id.name());
            }
        }
        if i > 0 {
            text.append("\n");
        }
        text.append(records[i].id().name().as_str());
        i = i + 1;
    }
    assert(store@.take(i as int) =~= store@);
    text
}

/// Appends the name under which the owners of a crate are looked up, where
/// they are.
fn push_crate_target(names: &mut Vec<String>, id: &CrateId)
    ensures
        final(names).deep_view() == old(names).deep_view() + crate_target(id@),
{
    match id {
        CrateId::CratesIo { package, version } => {
            names.push(package.clone());
        },
        CrateId::GitHub { user, repository } => {},
    }
    assert(names.deep_view() =~= old(names).deep_view() + crate_target(id@));
}

/// Appends the names that the report asks the directory for when it comes
/// to one bucket.
fn push_bucket_targets(names: &mut Vec<String>, policy: CcWho, bucket: &Bucket)
    ensures
        final(names).deep_view() == old(names).deep_view() + bucket_targets(policy, bucket@),
{
    let crates = bucket.crates();
    if bucket.is_root() {
        if policy.roots() {
            push_crate_target(names, &crates[0]);
        }
        assert(names.deep_view() =~= old(names).deep_view() + bucket_targets(policy, bucket@));
        return ;
    }
    if policy.roots() {
        match bucket.cause().crate_name() {
            Some(name) => {
                names.push(String::from_str(name));
            },
            None => {},
        }
    }
    let ghost head = names.deep_view();
    let ghost of_cause: Seq<Seq<char>> = if policy.spec_roots() && bucket@.cause.name() is Some {
        seq![bucket@.cause.name()->0]
    } else {
        Seq::empty()
    };
    assert(head =~= old(names).deep_view() + of_cause);
    if policy.causes() {
        let ghost ids = crates.deep_view();
        let mut i: usize = 0;
        while i < crates.len()
            invariant
                i <= crates.len(),
                ids == crates.deep_view(),
                names.deep_view() == head + crate_targets(ids.take(i as int)),
            decreases crates.len() - i,
        {
            proof {
                assert(ids.take(i + 1).drop_last() =~= ids.take(i as int));
                assert(ids.take(i + 1).last() == crates@[i as int]@);
            }
            push_crate_target(names, &crates[i]);
            assert(names.deep_view() =~= head + crate_targets(ids.take(i + 1)));
            i = i + 1;
        }
        assert(ids.take(i as int) =~= ids);
    }
    assert(names.deep_view() =~= old(names).deep_view() + bucket_targets(policy, bucket@));
}

/// Lists the names that the report asks the directory for, in the order in
/// which it asks. With the policy `Roots` or `All` these are the packages of
/// the registry that are alone with their causes and the crates that shared
/// causes name; with `All`, the packages of the registry below shared causes
/// too. A name may stand in the list more than once.
pub fn lookup_targets(table: &CauseTable, policy: CcWho) -> (names: Vec<String>)
    ensures
        names.deep_view() == targets(policy, table@),
{
    let buckets = table.buckets();
    let mut names: Vec<String> = Vec::new();
    let mut i: usize = 0;
    assert(names.deep_view() =~= targets(policy, table@.take(0)));
    while i < buckets.len()
        invariant
            i <= buckets.len(),
            buckets.deep_view() == table@,
            names.deep_view() == targets(policy, table@.take(i as int)),
        decreases buckets.len() - i,
    {
        proof {
            assert(table@.take(i + 1).drop_last() =~= table@.take(i as int));
            assert(table@.take(i + 1).last() == buckets@[i as int]@);
        }
        push_bucket_targets(&mut names, policy, &buckets[i]);
        i = i + 1;
    }
    assert(table@.take(i as int) =~= table@);
    names
}

} // verus!
