//! The root-cause table: the regressed crates grouped by their causes.

use crate::cause::{
    lemma_cause_lt_irreflexive, lemma_cause_lt_total, lemma_cause_lt_transitive, CauseView,
    SuspectedCause,
};
use crate::identity::{lemma_id_lt_irreflexive, CrateId, CrateIdView};
use crate::regression::RegressionView;
use crate::store::{in_order, RegressionStore};
use vstd::prelude::*;
use vstd::seq_lib::{
    lemma_flatten_concat, lemma_multiset_commutative, to_multiset_build, to_multiset_contains,
    to_multiset_len,
};

verus! {

/// The crates that regressed for one cause.
#[derive(Debug)]
pub struct Bucket {
    cause: SuspectedCause,
    crates: Vec<CrateId>,
}

/// What a [`Bucket`] holds, as plain text.
pub struct BucketView {
    pub cause: CauseView,
    pub crates: Seq<CrateIdView>,
}

impl View for Bucket {
    type V = BucketView;

    closed spec fn view(&self) -> BucketView {
        BucketView { cause: self.cause@, crates: self.crates.deep_view() }
    }
}

impl BucketView {
    /// The bucket holds a root regression: one crate, alone with its cause.
    pub open spec fn is_root(self) -> bool {
        self.crates.len() == 1
    }
}

impl DeepView for Bucket {
    type V = BucketView;

    open spec fn deep_view(&self) -> BucketView {
        self@
    }
}

/// The causes with their crates, in the order of the causes.
#[derive(Debug)]
pub struct CauseTable {
    buckets: Vec<Bucket>,
}

impl View for CauseTable {
    type V = Seq<BucketView>;

    closed spec fn view(&self) -> Seq<BucketView> {
        self.buckets.deep_view()
    }
}

/// The identities of the records, in the order of the records.
pub open spec fn ids_of(records: Seq<RegressionView>) -> Seq<CrateIdView> {
    records.map_values(|record: RegressionView| record.id)
}

/// The crates that regressed for `cause`, in the order of the records.
pub open spec fn ids_with_cause(records: Seq<RegressionView>, cause: CauseView) -> Seq<CrateIdView> {
    ids_of(records.filter(|record: RegressionView| record.cause() == cause))
}

/// The crates of all the buckets, bucket after bucket.
pub open spec fn all_crates(buckets: Seq<BucketView>) -> Seq<CrateIdView> {
    buckets.map_values(|bucket: BucketView| bucket.crates).flatten()
}

/// The buckets stand in the order of their causes, so that no cause has two
/// buckets.
pub open spec fn causes_in_order(buckets: Seq<BucketView>) -> bool {
    forall|i: int, j: int|
        #![trigger buckets[i], buckets[j]]
        0 <= i < j < buckets.len() ==> buckets[i].cause.lt(buckets[j].cause)
}

/// The buckets group the records by their causes: they stand in the order of
/// the causes, each holds the crates that regressed for its cause, in the
/// order of the records and at least one, and the cause of every record has
/// its bucket.
pub open spec fn grouped(records: Seq<RegressionView>, buckets: Seq<BucketView>) -> bool {
    &&& causes_in_order(buckets)
    &&& forall|b: int|
        0 <= b < buckets.len() ==> (#[trigger] buckets[b]).crates.len() > 0 && buckets[b].crates
            == ids_with_cause(records, buckets[b].cause)
    &&& forall|r: int|
        0 <= r < records.len() ==> exists|b: int|
            0 <= b < buckets.len() && (#[trigger] buckets[b]).cause == (
            #[trigger] records[r]).cause()
}

/// The buckets part the records: taken together they hold every crate of the
/// records as often as the records do, which is once where no crate has two
/// records.
pub open spec fn parted(records: Seq<RegressionView>, buckets: Seq<BucketView>) -> bool {
    all_crates(buckets).to_multiset() == ids_of(records).to_multiset()
}

/// One more record adds its crate to the crates of its own cause and to no
/// others.
proof fn lemma_ids_with_cause_push(
    records: Seq<RegressionView>,
    record: RegressionView,
    cause: CauseView,
)
    ensures
        ids_with_cause(records.push(record), cause) == if record.cause() == cause {
            ids_with_cause(records, cause).push(record.id)
        } else {
            ids_with_cause(records, cause)
        },
{
    let of_cause = |record: RegressionView| record.cause() == cause;
    records.lemma_filter_push(record, of_cause);
    if record.cause() == cause {
        assert(ids_of(records.filter(of_cause).push(record)) =~= ids_of(
            records.filter(of_cause),
        ).push(record.id));
    }
}

/// Records of which none has the cause give no crates for it.
proof fn lemma_ids_with_cause_none(records: Seq<RegressionView>, cause: CauseView)
    requires
        forall|r: int| 0 <= r < records.len() ==> (#[trigger] records[r]).cause() != cause,
    ensures
        ids_with_cause(records, cause) == Seq::<CrateIdView>::empty(),
{
    let of_cause = |record: RegressionView| record.cause() == cause;
    assert(records.all(|record: RegressionView| !of_cause(record)));
    records.lemma_all_neg_filter_empty(of_cause);
    assert(ids_with_cause(records, cause) =~= Seq::<CrateIdView>::empty());
}

/// The crates of two runs of buckets, one behind the other.
proof fn lemma_all_crates_concat(front: Seq<BucketView>, back: Seq<BucketView>)
    ensures
        all_crates(front + back) == all_crates(front) + all_crates(back),
{
    let crates = |bucket: BucketView| bucket.crates;
    assert((front + back).map_values(crates) =~= front.map_values(crates) + back.map_values(
        crates,
    ));
    lemma_flatten_concat(front.map_values(crates), back.map_values(crates));
}

/// The crates of a single bucket.
proof fn lemma_all_crates_single(bucket: BucketView)
    ensures
        all_crates(seq![bucket]) == bucket.crates,
{
    let crates = |bucket: BucketView| bucket.crates;
    assert(seq![bucket].map_values(crates) =~= seq![bucket.crates]);
    seq![bucket.crates].lemma_flatten_one_element();
}

/// The crates of all the buckets, with those of the bucket at `at` set
/// apart.
proof fn lemma_all_crates_around(buckets: Seq<BucketView>, at: int)
    requires
        0 <= at < buckets.len(),
    ensures
        all_crates(buckets) == all_crates(buckets.take(at)) + buckets[at].crates + all_crates(
            buckets.skip(at + 1),
        ),
{
    assert(buckets =~= buckets.take(at) + seq![buckets[at]] + buckets.skip(at + 1));
    lemma_all_crates_concat(buckets.take(at) + seq![buckets[at]], buckets.skip(at + 1));
    lemma_all_crates_concat(buckets.take(at), seq![buckets[at]]);
    lemma_all_crates_single(buckets[at]);
}

/// A record whose cause has a bucket goes to the end of that bucket, and
/// the buckets group and part the records as before.
proof fn lemma_group_existing(
    records: Seq<RegressionView>,
    record: RegressionView,
    buckets: Seq<BucketView>,
    at: int,
)
    requires
        grouped(records, buckets),
        parted(records, buckets),
        0 <= at < buckets.len(),
        buckets[at].cause == record.cause(),
    ensures
        grouped(
            records.push(record),
            buckets.update(
                at,
                BucketView { cause: buckets[at].cause, crates: buckets[at].crates.push(record.id) },
            ),
        ),
        parted(
            records.push(record),
            buckets.update(
                at,
                BucketView { cause: buckets[at].cause, crates: buckets[at].crates.push(record.id) },
            ),
        ),
{
    let grown = BucketView { cause: buckets[at].cause, crates: buckets[at].crates.push(record.id) };
    let after = buckets.update(at, grown);
    let more = records.push(record);
    assert forall|i: int, j: int| 0 <= i < j < after.len() implies after[i].cause.lt(
        after[j].cause,
    ) by {
        assert(after[i].cause == buckets[i].cause && after[j].cause == buckets[j].cause);
    }
    assert forall|b: int| 0 <= b < after.len() implies (#[trigger] after[b]).crates.len() > 0
        && after[b].crates == ids_with_cause(more, after[b].cause) by {
        lemma_ids_with_cause_push(records, record, after[b].cause);
        if b != at {
            assert(after[b] == buckets[b]);
            lemma_cause_lt_irreflexive(record.cause());
            if b < at {
                assert(buckets[b].cause.lt(buckets[at].cause));
            } else {
                assert(buckets[at].cause.lt(buckets[b].cause));
            }
        }
    }
    assert forall|r: int| 0 <= r < more.len() implies exists|b: int|
        0 <= b < after.len() && (#[trigger] after[b]).cause == (#[trigger] more[r]).cause() by {
        if r < records.len() {
            assert(more[r] == records[r]);
            let b = choose|b: int|
                0 <= b < buckets.len() && (#[trigger] buckets[b]).cause == records[r].cause();
            assert(after[b].cause == more[r].cause());
        } else {
            assert(after[at].cause == more[r].cause());
        }
    }
    assert(parted(more, after)) by {
        lemma_all_crates_around(buckets, at);
        lemma_all_crates_around(after, at);
        assert(after.take(at) =~= buckets.take(at));
        assert(after.skip(at + 1) =~= buckets.skip(at + 1));
        let front = all_crates(buckets.take(at));
        let back = all_crates(buckets.skip(at + 1));
        let held = buckets[at].crates;
        lemma_multiset_commutative(front + held, back);
        lemma_multiset_commutative(front, held);
        lemma_multiset_commutative(front + held.push(record.id), back);
        lemma_multiset_commutative(front, held.push(record.id));
        to_multiset_build(held, record.id);
        assert(ids_of(more) =~= ids_of(records).push(record.id));
        to_multiset_build(ids_of(records), record.id);
        assert(all_crates(after).to_multiset() =~= all_crates(buckets).to_multiset().insert(
            record.id,
        ));
    }
}

/// A record whose cause has no bucket gets one at the place of its cause,
/// and the buckets group and part the records as before.
proof fn lemma_group_new(
    records: Seq<RegressionView>,
    record: RegressionView,
    buckets: Seq<BucketView>,
    at: int,
)
    requires
        grouped(records, buckets),
        parted(records, buckets),
        0 <= at <= buckets.len(),
        forall|k: int| 0 <= k < at ==> (#[trigger] buckets[k]).cause.lt(record.cause()),
        forall|k: int| at <= k < buckets.len() ==> record.cause().lt((#[trigger] buckets[k]).cause),
    ensures
        grouped(
            records.push(record),
            buckets.insert(at, BucketView { cause: record.cause(), crates: seq![record.id] }),
        ),
        parted(
            records.push(record),
            buckets.insert(at, BucketView { cause: record.cause(), crates: seq![record.id] }),
        ),
{
    let added = BucketView { cause: record.cause(), crates: seq![record.id] };
    let after = buckets.insert(at, added);
    let more = records.push(record);
    lemma_cause_lt_irreflexive(record.cause());
    assert forall|i: int, j: int| 0 <= i < j < after.len() implies after[i].cause.lt(
        after[j].cause,
    ) by {
        let a = if i < at {
            buckets[i]
        } else if i == at {
            added
        } else {
            buckets[i - 1]
        };
        let b = if j < at {
            buckets[j]
        } else if j == at {
            added
        } else {
            buckets[j - 1]
        };
        assert(after[i] == a && after[j] == b);
    }
    assert forall|r: int| 0 <= r < records.len() implies (#[trigger] records[r]).cause()
        != record.cause() by {
        let b = choose|b: int|
            0 <= b < buckets.len() && (#[trigger] buckets[b]).cause == records[r].cause();
    }
    lemma_ids_with_cause_none(records, record.cause());
    assert forall|b: int| 0 <= b < after.len() implies (#[trigger] after[b]).crates.len() > 0
        && after[b].crates == ids_with_cause(more, after[b].cause) by {
        lemma_ids_with_cause_push(records, record, after[b].cause);
        if b < at {
            assert(after[b] == buckets[b]);
        } else if b > at {
            assert(after[b] == buckets[b - 1]);
        } else {
            assert(Seq::<CrateIdView>::empty().push(record.id) =~= seq![record.id]);
        }
    }
    assert forall|r: int| 0 <= r < more.len() implies exists|b: int|
        0 <= b < after.len() && (#[trigger] after[b]).cause == (#[trigger] more[r]).cause() by {
        if r < records.len() {
            assert(more[r] == records[r]);
            let b = choose|b: int|
                0 <= b < buckets.len() && (#[trigger] buckets[b]).cause == records[r].cause();
            if b < at {
                assert(after[b].cause == more[r].cause());
            } else {
                assert(after[b + 1].cause == more[r].cause());
            }
        } else {
            assert(after[at].cause == more[r].cause());
        }
    }
    assert(parted(more, after)) by {
        assert(buckets =~= buckets.take(at) + buckets.skip(at));
        assert(after =~= buckets.take(at) + seq![added] + buckets.skip(at));
        lemma_all_crates_concat(buckets.take(at), buckets.skip(at));
        lemma_all_crates_concat(buckets.take(at) + seq![added], buckets.skip(at));
        lemma_all_crates_concat(buckets.take(at), seq![added]);
        lemma_all_crates_single(added);
        let front = all_crates(buckets.take(at));
        let back = all_crates(buckets.skip(at));
        lemma_multiset_commutative(front, back);
        lemma_multiset_commutative(front + seq![record.id], back);
        assert(front + seq![record.id] =~= front.push(record.id));
        to_multiset_build(front, record.id);
        assert(ids_of(more) =~= ids_of(records).push(record.id));
        to_multiset_build(ids_of(records), record.id);
        assert(all_crates(after).to_multiset() =~= all_crates(buckets).to_multiset().insert(
            record.id,
        ));
    }
}

/// Every crate of a cause is the crate of a record with that cause.
pub proof fn lemma_crate_of_cause_has_record(
    records: Seq<RegressionView>,
    cause: CauseView,
    k: int,
)
    requires
        0 <= k < ids_with_cause(records, cause).len(),
    ensures
        exists|r: int|
            0 <= r < records.len() && (#[trigger] records[r]).id == ids_with_cause(records, cause)[k]
                && records[r].cause() == cause,
    decreases records.len(),
{
    if records.len() == 0 {
        lemma_ids_with_cause_none(records, cause);
    } else {
        let earlier = records.drop_last();
        let last = records.last();
        assert(records =~= earlier.push(last));
        lemma_ids_with_cause_push(earlier, last, cause);
        if k < ids_with_cause(earlier, cause).len() {
            lemma_crate_of_cause_has_record(earlier, cause, k);
            let r = choose|r: int|
                0 <= r < earlier.len() && (#[trigger] earlier[r]).id == ids_with_cause(
                    earlier,
                    cause,
                )[k] && earlier[r].cause() == cause;
            assert(records[r] == earlier[r]);
        } else {
            assert(records[records.len() - 1] == last);
        }
    }
}

/// The crates of a cause stand in the order of the identities, as the records
/// of an ordered store do.
pub proof fn lemma_crates_of_cause_in_order(records: Seq<RegressionView>, cause: CauseView)
    requires
        in_order(records),
    ensures
        forall|i: int, j: int|
            #![trigger ids_with_cause(records, cause)[i], ids_with_cause(records, cause)[j]]
            0 <= i < j < ids_with_cause(records, cause).len() ==> ids_with_cause(records, cause)[i].lt(
                ids_with_cause(records, cause)[j],
            ),
    decreases records.len(),
{
    if records.len() == 0 {
        lemma_ids_with_cause_none(records, cause);
    } else {
        let earlier = records.drop_last();
        let last = records.last();
        assert(records =~= earlier.push(last));
        lemma_ids_with_cause_push(earlier, last, cause);
        assert forall|a: int, b: int| 0 <= a < b < earlier.len() implies earlier[a].id.lt(
            earlier[b].id,
        ) by {
            assert(earlier[a] == records[a] && earlier[b] == records[b]);
        }
        lemma_crates_of_cause_in_order(earlier, cause);
        let crates = ids_with_cause(records, cause);
        assert forall|i: int, j: int| 0 <= i < j < crates.len() implies crates[i].lt(crates[j]) by {
            if j == ids_with_cause(earlier, cause).len() {
                lemma_crate_of_cause_has_record(earlier, cause, i);
                let r = choose|r: int|
                    0 <= r < earlier.len() && (#[trigger] earlier[r]).id == ids_with_cause(
                        earlier,
                        cause,
                    )[i] && earlier[r].cause() == cause;
                assert(records[r] == earlier[r]);
                assert(records[records.len() - 1] == last);
            }
        }
    }
}

/// Buckets that part the records of an ordered store hold as many crates as
/// there are records, and no crate twice, be it in one bucket or in two.
pub proof fn lemma_each_crate_once(records: Seq<RegressionView>, buckets: Seq<BucketView>)
    requires
        in_order(records),
        parted(records, buckets),
    ensures
        all_crates(buckets).len() == records.len(),
        all_crates(buckets).no_duplicates(),
        forall|r: int|
            0 <= r < records.len() ==> all_crates(buckets).contains((#[trigger] records[r]).id),
{
    let ids = ids_of(records);
    let crates = all_crates(buckets);
    to_multiset_len(ids);
    to_multiset_len(crates);
    assert forall|i: int, j: int| 0 <= i < ids.len() && 0 <= j < ids.len() && i != j implies ids[i]
        != ids[j] by {
        lemma_id_lt_irreflexive(ids[i]);
        if i < j {
            assert(records[i].id.lt(records[j].id));
        } else {
            assert(records[j].id.lt(records[i].id));
        }
    }
    ids.lemma_multiset_has_no_duplicates();
    crates.lemma_multiset_has_no_duplicates_conv();
    assert forall|r: int| 0 <= r < records.len() implies crates.contains(
        (#[trigger] records[r]).id,
    ) by {
        assert(ids[r] == records[r].id);
        assert(ids.contains(records[r].id));
        to_multiset_contains(ids, records[r].id);
        to_multiset_contains(crates, records[r].id);
    }
}

impl Bucket {
    /// The cause that the crates of the bucket share.
    pub fn cause(&self) -> (cause: &SuspectedCause)
        ensures
            cause@ == self@.cause,
    {
        &self.cause
    }

    /// Whether the bucket holds a root regression: one crate, alone with
    /// its cause.
    pub fn is_root(&self) -> (yes: bool)
        ensures
            yes == self@.is_root(),
    {
        self.crates.len() == 1
    }

    /// The crates of the bucket.
    pub fn crates(&self) -> (crates: &[CrateId])
        ensures
            crates.deep_view() == self@.crates,
    {
        let crates = self.crates.as_slice();
        assert(crates.deep_view() =~= self@.crates);
        crates
    }
}

impl CauseTable {
    /// The buckets, in the order of their causes.
    pub fn buckets(&self) -> (buckets: &[Bucket])
        ensures
            buckets.deep_view() == self@,
    {
        let buckets = self.buckets.as_slice();
        assert(buckets.deep_view() =~= self@);
        buckets
    }

    /// How many causes the table holds.
    pub fn len(&self) -> (count: usize)
        ensures
            count == self@.len(),
    {
        self.buckets.len()
    }
}

/// Where the bucket of `cause` stands or, where there is none, would go in:
/// before the first bucket whose cause does not come before `cause`.
fn place(buckets: &Vec<Bucket>, cause: &SuspectedCause) -> (at: usize)
    requires
        causes_in_order(buckets.deep_view()),
    ensures
        at <= buckets.len(),
        forall|k: int| 0 <= k < at ==> (#[trigger] buckets.deep_view()[k]).cause.lt(cause@),
        at < buckets.len() ==> !buckets.deep_view()[at as int].cause.lt(cause@),
        at < buckets.len() && buckets.deep_view()[at as int].cause != cause@ ==> forall|k: int|
            at <= k < buckets.len() ==> cause@.lt((#[trigger] buckets.deep_view()[k]).cause),
{
    let ghost views = buckets.deep_view();
    let mut at: usize = 0;
    while at < buckets.len() && buckets[at].cause.precedes(cause)
        invariant
            at <= buckets.len(),
            views == buckets.deep_view(),
            forall|k: int| 0 <= k < at ==> (#[trigger] views[k]).cause.lt(cause@),
        decreases buckets.len() - at,
    {
        at = at + 1;
    }
    proof {
        if at < buckets.len() && views[at as int].cause != cause@ {
            let first = views[at as int].cause;
            lemma_cause_lt_total(first, cause@);
            assert forall|k: int| at <= k < buckets.len() implies cause@.lt(
                (#[trigger] views[k]).cause,
            ) by {
                if k > at {
                    assert(views[at as int].cause.lt(views[k].cause));
                    lemma_cause_lt_transitive(cause@, first, views[k].cause);
                }
            }
        }
    }
    at
}

/// Groups the crates of the store by the causes that their end logs give.
/// Every record has both its logs. The table that comes back holds a bucket
/// for each cause that occurs, the buckets in the order of the causes, and
/// in each bucket the crates of that cause in the order of the store; so each
/// crate stands in one bucket and there once.
pub fn aggregate(store: &RegressionStore) -> (table: CauseTable)
    requires
        store.wf(),
        store.complete(),
    ensures
        grouped(store@, table@),
        parted(store@, table@),
{
    let records = store.records();
    let mut buckets: Vec<Bucket> = Vec::new();
    let mut i: usize = 0;
    proof {
        assert(store@.take(0) =~= Seq::<RegressionView>::empty());
        assert(buckets.deep_view() =~= Seq::<BucketView>::empty());
        assert(all_crates(buckets.deep_view()) =~= Seq::<CrateIdView>::empty());
        assert(ids_of(store@.take(0)) =~= Seq::<CrateIdView>::empty());
    }
    while i < records.len()
        invariant
            i <= records.len(),
            records.deep_view() == store@,
            store.complete(),
            grouped(store@.take(i as int), buckets.deep_view()),
            parted(store@.take(i as int), buckets.deep_view()),
        decreases records.len() - i,
    {
        let record = &records[i];
        let ghost seen = store@.take(i as int);
        let ghost before = buckets.deep_view();
        proof {
            assert(record@ == store@[i as int]);
            assert(store@[i as int].complete());
            assert(store@.take(i + 1) =~= seen.push(record@));
        }
        let cause = record.suspected_cause();
        let at = place(&buckets, &cause);
        if at < buckets.len() && buckets[at].cause == cause {
            proof {
                lemma_group_existing(seen, record@, before, at as int);
            }
            buckets[at].crates.push(record.id().clone());
            proof {
                let grown = buckets@[at as int]@;
                assert(grown.cause == before[at as int].cause);
                assert(grown.crates =~= before[at as int].crates.push(record@.id));
                assert(buckets.deep_view() =~= before.update(at as int, grown));
            }
        } else {
            proof {
                lemma_group_new(seen, record@, before, at as int);
            }
            let mut crates: Vec<CrateId> = Vec::new();
            crates.push(record.id().clone());
            let bucket = Bucket { cause, crates };
            proof {
                assert(bucket@.crates =~= seq![record@.id]);
            }
            buckets.insert(at, bucket);
            assert(buckets.deep_view() =~= before.insert(at as int, bucket@));
        }
        i = i + 1;
    }
    proof {
        assert(store@.take(i as int) =~= store@);
    }
    let table = CauseTable { buckets };
    table
}

} // verus!
