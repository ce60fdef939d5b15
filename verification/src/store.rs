//! The record store: one record for each regressed crate, kept in the order
//! of the identities and filled as the logs arrive.

use crate::config::{Config, ToolchainType};
use crate::identity::{
    lemma_id_lt_irreflexive, lemma_id_lt_total, lemma_id_lt_transitive, CrateId, CrateIdView,
};
use crate::regression::{entry_of, parse_entry_path, IngestError, Regression, RegressionView};
use vstd::prelude::*;

verus! {

/// The records stand in the order of their identities, so that no identity
/// has two records.
pub open spec fn in_order(records: Seq<RegressionView>) -> bool {
    forall|i: int, j: int|
        #![trigger records[i], records[j]]
        0 <= i < j < records.len() ==> records[i].id.lt(records[j].id)
}

/// One of the records is that of `id`.
pub open spec fn holds(records: Seq<RegressionView>, id: CrateIdView) -> bool {
    exists|i: int| 0 <= i < records.len() && (#[trigger] records[i]).id == id
}

/// The records by their identities.
pub open spec fn index_of(records: Seq<RegressionView>) -> Map<CrateIdView, RegressionView> {
    Map::new(
        |id: CrateIdView| holds(records, id),
        |id: CrateIdView|
            records[choose|i: int| 0 <= i < records.len() && (#[trigger] records[i]).id == id],
    )
}

/// What becomes of the records when a log of `id` arrives for the toolchain
/// of the given role: the log goes into the record of `id`, which is made
/// where there was none, and every other record stays. A slot that is taken
/// refuses the log.
pub open spec fn filed(
    index: Map<CrateIdView, RegressionView>,
    id: CrateIdView,
    ty: ToolchainType,
    text: Seq<char>,
) -> Result<Map<CrateIdView, RegressionView>, IngestError> {
    let record = if index.dom().contains(id) {
        index[id]
    } else {
        RegressionView::fresh(id)
    };
    match record.put(ty, text) {
        Ok(record) => Ok(index.insert(id, record)),
        Err(error) => Err(error),
    }
}

/// What becomes of the records when a log of `id` arrives under the label of
/// a toolchain. A label that is none of the run's is refused.
pub open spec fn inserted(
    index: Map<CrateIdView, RegressionView>,
    cfg: &Config,
    id: CrateIdView,
    toolchain: Seq<char>,
    text: Seq<char>,
) -> Result<Map<CrateIdView, RegressionView>, IngestError> {
    match cfg.role_of(toolchain) {
        Some(ty) => filed(index, id, ty, text),
        None => Err(IngestError::UnknownToolchain),
    }
}

/// What becomes of the records when an entry of the log archive arrives: its
/// path names the crate and the toolchain, and its content is the log.
pub open spec fn ingested(
    index: Map<CrateIdView, RegressionView>,
    cfg: &Config,
    segments: Seq<Seq<char>>,
    text: Seq<char>,
) -> Result<Map<CrateIdView, RegressionView>, IngestError> {
    match entry_of(segments) {
        Ok((id, toolchain)) => inserted(index, cfg, id, toolchain, text),
        Err(error) => Err(error),
    }
}

/// In ordered records each identity stands at one place only.
pub proof fn lemma_one_place(records: Seq<RegressionView>, i: int, j: int)
    requires
        in_order(records),
        0 <= i < records.len(),
        0 <= j < records.len(),
        records[i].id == records[j].id,
    ensures
        i == j,
{
    lemma_id_lt_irreflexive(records[i].id);
}

/// In ordered records the index gives, for the identity of each record, that
/// record.
pub proof fn lemma_index_at(records: Seq<RegressionView>, i: int)
    requires
        in_order(records),
        0 <= i < records.len(),
    ensures
        index_of(records).dom().contains(records[i].id),
        index_of(records)[records[i].id] == records[i],
{
    let id = records[i].id;
    let chosen = choose|k: int| 0 <= k < records.len() && (#[trigger] records[k]).id == id;
    lemma_one_place(records, i, chosen);
}

/// A record whose identity lies between its neighbours' goes in without
/// disturbing the order, and the index gains it.
proof fn lemma_insert_new(records: Seq<RegressionView>, at: int, record: RegressionView)
    requires
        in_order(records),
        0 <= at <= records.len(),
        forall|k: int| 0 <= k < at ==> (#[trigger] records[k]).id.lt(record.id),
        forall|k: int| at <= k < records.len() ==> record.id.lt((#[trigger] records[k]).id),
    ensures
        in_order(records.insert(at, record)),
        !holds(records, record.id),
        index_of(records.insert(at, record)) == index_of(records).insert(record.id, record),
{
    let after = records.insert(at, record);
    assert forall|i: int, j: int| 0 <= i < j < after.len() implies after[i].id.lt(
        after[j].id,
    ) by {
        let a = if i < at {
            records[i]
        } else if i == at {
            record
        } else {
            records[i - 1]
        };
        let b = if j < at {
            records[j]
        } else if j == at {
            record
        } else {
            records[j - 1]
        };
        assert(after[i] == a && after[j] == b);
    }
    assert(!holds(records, record.id)) by {
        if holds(records, record.id) {
            let k = choose|k: int| 0 <= k < records.len() && (#[trigger] records[k]).id == record.id;
            lemma_id_lt_irreflexive(record.id);
        }
    }
    assert(after[at] == record);
    lemma_index_at(after, at);
    assert forall|id: CrateIdView| index_of(after).dom().contains(id) <==> index_of(
        records,
    ).insert(record.id, record).dom().contains(id) by {
        if holds(after, id) {
            let k = choose|k: int| 0 <= k < after.len() && (#[trigger] after[k]).id == id;
            if k < at {
                assert(records[k].id == id);
            } else if k > at {
                assert(records[k - 1].id == id);
            }
        }
        if holds(records, id) {
            let k = choose|k: int| 0 <= k < records.len() && (#[trigger] records[k]).id == id;
            if k < at {
                assert(after[k].id == id);
            } else {
                assert(after[k + 1].id == id);
            }
        }
    }
    assert forall|id: CrateIdView| #[trigger] index_of(after).dom().contains(id) implies index_of(
        after,
    )[id] == index_of(records).insert(record.id, record)[id] by {
        if id != record.id {
            let k = choose|k: int| 0 <= k < records.len() && (#[trigger] records[k]).id == id;
            lemma_index_at(records, k);
            if k < at {
                assert(after[k] == records[k]);
                lemma_index_at(after, k);
            } else {
                assert(after[k + 1] == records[k]);
                lemma_index_at(after, k + 1);
            }
        }
    }
    assert(index_of(after) =~= index_of(records).insert(record.id, record));
}

/// A record that takes the place of the one of the same identity leaves the
/// order as it was, and the index gives it from then on.
proof fn lemma_replace(records: Seq<RegressionView>, at: int, record: RegressionView)
    requires
        in_order(records),
        0 <= at < records.len(),
        records[at].id == record.id,
    ensures
        in_order(records.update(at, record)),
        index_of(records.update(at, record)) == index_of(records).insert(record.id, record),
{
    let after = records.update(at, record);
    assert forall|i: int, j: int| 0 <= i < j < after.len() implies after[i].id.lt(
        after[j].id,
    ) by {
        assert(after[i].id == records[i].id && after[j].id == records[j].id);
    }
    lemma_index_at(after, at);
    assert forall|id: CrateIdView| index_of(after).dom().contains(id) <==> index_of(
        records,
    ).insert(record.id, record).dom().contains(id) by {
        if holds(after, id) {
            let k = choose|k: int| 0 <= k < after.len() && (#[trigger] after[k]).id == id;
            assert(records[k].id == id);
        }
        if holds(records, id) {
            let k = choose|k: int| 0 <= k < records.len() && (#[trigger] records[k]).id == id;
            assert(after[k].id == id);
        }
        if id == record.id {
            assert(after[at].id == id);
        }
    }
    assert forall|id: CrateIdView| #[trigger] index_of(after).dom().contains(id) implies index_of(
        after,
    )[id] == index_of(records).insert(record.id, record)[id] by {
        if id != record.id {
            let k = choose|k: int| 0 <= k < records.len() && (#[trigger] records[k]).id == id;
            lemma_index_at(records, k);
            assert(after[k] == records[k]);
            lemma_index_at(after, k);
        }
    }
    assert(index_of(after) =~= index_of(records).insert(record.id, record));
}

/// Ordered records without the last are the index without the identity of
/// the last.
proof fn lemma_index_drop_last(records: Seq<RegressionView>)
    requires
        in_order(records),
        records.len() > 0,
    ensures
        in_order(records.drop_last()),
        index_of(records.drop_last()) == index_of(records).remove(records.last().id),
{
    let earlier = records.drop_last();
    let last = records.last();
    assert forall|i: int, j: int| 0 <= i < j < earlier.len() implies earlier[i].id.lt(
        earlier[j].id,
    ) by {
        assert(earlier[i] == records[i] && earlier[j] == records[j]);
    }
    assert forall|id: CrateIdView| index_of(earlier).dom().contains(id) <==> index_of(
        records,
    ).remove(last.id).dom().contains(id) by {
        if holds(earlier, id) {
            let k = choose|k: int| 0 <= k < earlier.len() && (#[trigger] earlier[k]).id == id;
            assert(records[k].id == id);
            assert(records[k].id.lt(records[records.len() - 1].id));
            lemma_id_lt_irreflexive(id);
        }
        if holds(records, id) && id != last.id {
            let k = choose|k: int| 0 <= k < records.len() && (#[trigger] records[k]).id == id;
            assert(earlier[k].id == id);
        }
    }
    assert forall|id: CrateIdView| #[trigger] index_of(earlier).dom().contains(id) implies index_of(
        earlier,
    )[id] == index_of(records).remove(last.id)[id] by {
        let k = choose|k: int| 0 <= k < earlier.len() && (#[trigger] earlier[k]).id == id;
        lemma_index_at(earlier, k);
        assert(records[k] == earlier[k]);
        lemma_index_at(records, k);
    }
    assert(index_of(earlier) =~= index_of(records).remove(last.id));
}

/// The order and the index fix the records: two ordered lists of records
/// with one index are the same list.
pub proof fn lemma_order_and_index_fix_records(
    one: Seq<RegressionView>,
    other: Seq<RegressionView>,
)
    requires
        in_order(one),
        in_order(other),
        index_of(one) == index_of(other),
    ensures
        one == other,
    decreases one.len(),
{
    if one.len() == 0 || other.len() == 0 {
        if one.len() > 0 {
            lemma_index_at(one, 0);
            assert(holds(other, one[0].id));
        }
        if other.len() > 0 {
            lemma_index_at(other, 0);
            assert(holds(one, other[0].id));
        }
        assert(one =~= other);
    } else {
        let a = one.last();
        let b = other.last();
        lemma_index_at(one, one.len() - 1);
        lemma_index_at(other, other.len() - 1);
        assert(holds(other, a.id));
        assert(holds(one, b.id));
        let i = choose|i: int| 0 <= i < other.len() && (#[trigger] other[i]).id == a.id;
        let j = choose|j: int| 0 <= j < one.len() && (#[trigger] one[j]).id == b.id;
        assert(a.id == b.id) by {
            if a.id != b.id {
                assert(other[i].id.lt(other[other.len() - 1].id));
                assert(one[j].id.lt(one[one.len() - 1].id));
                lemma_id_lt_transitive(a.id, b.id, a.id);
                lemma_id_lt_irreflexive(a.id);
            }
        }
        lemma_index_drop_last(one);
        lemma_index_drop_last(other);
        lemma_order_and_index_fix_records(one.drop_last(), other.drop_last());
        assert(one =~= one.drop_last().push(a));
        assert(other =~= other.drop_last().push(b));
    }
}

/// A log that arrives: whose it is, for which toolchain, and what it says.
pub struct Arrival {
    pub id: CrateIdView,
    pub ty: ToolchainType,
    pub text: Seq<char>,
}

/// What becomes of the records when the logs arrive one after the other; the
/// first log that is refused ends it.
pub open spec fn filed_all(index: Map<CrateIdView, RegressionView>, arrivals: Seq<Arrival>) -> Result<
    Map<CrateIdView, RegressionView>,
    IngestError,
>
    decreases arrivals.len(),
{
    if arrivals.len() == 0 {
        Ok(index)
    } else {
        match filed_all(index, arrivals.drop_last()) {
            Ok(index) => filed(index, arrivals.last().id, arrivals.last().ty, arrivals.last().text),
            Err(error) => Err(error),
        }
    }
}

/// A log of `id` for the toolchain of the given role is among the arrivals.
pub open spec fn arrived(arrivals: Seq<Arrival>, id: CrateIdView, ty: ToolchainType) -> bool {
    exists|k: int|
        0 <= k < arrivals.len() && (#[trigger] arrivals[k]).id == id && arrivals[k].ty == ty
}

/// No crate has two logs of one toolchain among the arrivals.
pub open spec fn once_each(arrivals: Seq<Arrival>) -> bool {
    forall|i: int, j: int|
        #![trigger arrivals[i], arrivals[j]]
        0 <= i < j < arrivals.len() ==> !(arrivals[i].id == arrivals[j].id && arrivals[i].ty
            == arrivals[j].ty)
}

/// Logs that arrive once for each crate and toolchain are all filed, into an
/// empty store: each record is kept under its own identity, each log stands
/// in the slot it arrived for, and a slot is taken only where a log arrived
/// for it. So a crate of which both logs arrived has a complete record.
pub proof fn lemma_logs_filed_once_are_kept(arrivals: Seq<Arrival>)
    requires
        once_each(arrivals),
    ensures
        filed_all(Map::empty(), arrivals) is Ok,
        ({
            let index = filed_all(Map::empty(), arrivals)->Ok_0;
            &&& forall|k: int|
                0 <= k < arrivals.len() ==> index.dom().contains((#[trigger] arrivals[k]).id)
                    && index[arrivals[k].id].log(arrivals[k].ty) == Some(arrivals[k].text)
            &&& forall|id: CrateIdView| #[trigger]
                index.dom().contains(id) ==> index[id].id == id && forall|ty: ToolchainType|
                    index[id].log(ty) is Some ==> #[trigger] arrived(arrivals, id, ty)
            &&& forall|id: CrateIdView|
                arrived(arrivals, id, ToolchainType::Start) && arrived(
                    arrivals,
                    id,
                    ToolchainType::End,
                ) ==> index.dom().contains(id) && (#[trigger] index[id]).complete()
        }),
    decreases arrivals.len(),
{
    if arrivals.len() > 0 {
        let earlier = arrivals.drop_last();
        let last = arrivals.last();
        assert forall|i: int, j: int| 0 <= i < j < earlier.len() implies !(earlier[i].id
            == earlier[j].id && earlier[i].ty == earlier[j].ty) by {
            assert(earlier[i] == arrivals[i] && earlier[j] == arrivals[j]);
        }
        lemma_logs_filed_once_are_kept(earlier);
        let mid = filed_all(Map::empty(), earlier)->Ok_0;
        let record = if mid.dom().contains(last.id) {
            mid[last.id]
        } else {
            RegressionView::fresh(last.id)
        };
        assert(record.log(last.ty) is None) by {
            if record.log(last.ty) is Some {
                assert(arrived(earlier, last.id, last.ty));
                let k = choose|k: int|
                    0 <= k < earlier.len() && (#[trigger] earlier[k]).id == last.id && earlier[k].ty
                        == last.ty;
                assert(arrivals[k] == earlier[k]);
                assert(arrivals[arrivals.len() - 1] == last);
            }
        }
        let index = filed_all(Map::empty(), arrivals)->Ok_0;
        assert(index == mid.insert(last.id, record.with_log(last.ty, last.text)));
        assert forall|k: int| 0 <= k < arrivals.len() implies index.dom().contains(
            (#[trigger] arrivals[k]).id,
        ) && index[arrivals[k].id].log(arrivals[k].ty) == Some(arrivals[k].text) by {
            if k < earlier.len() {
                assert(arrivals[k] == earlier[k]);
                assert(arrivals[arrivals.len() - 1] == last);
            }
        }
        assert forall|id: CrateIdView| #[trigger] index.dom().contains(id) implies index[id].id
            == id && forall|ty: ToolchainType|
            index[id].log(ty) is Some ==> #[trigger] arrived(arrivals, id, ty) by {
            assert forall|ty: ToolchainType| index[id].log(ty) is Some implies #[trigger] arrived(
                arrivals,
                id,
                ty,
            ) by {
                if id == last.id && ty == last.ty {
                    assert(arrivals[arrivals.len() - 1] == last);
                } else {
                    assert(mid.dom().contains(id) && mid[id].log(ty) is Some);
                    assert(arrived(earlier, id, ty));
                    let k = choose|k: int|
                        0 <= k < earlier.len() && (#[trigger] earlier[k]).id == id && earlier[k].ty
                            == ty;
                    assert(arrivals[k] == earlier[k]);
                }
            }
        }
        assert forall|id: CrateIdView|
            arrived(arrivals, id, ToolchainType::Start) && arrived(
                arrivals,
                id,
                ToolchainType::End,
            ) implies index.dom().contains(id) && (#[trigger] index[id]).complete() by {
            let a = choose|k: int|
                0 <= k < arrivals.len() && (#[trigger] arrivals[k]).id == id && arrivals[k].ty
                    == ToolchainType::Start;
            let b = choose|k: int|
                0 <= k < arrivals.len() && (#[trigger] arrivals[k]).id == id && arrivals[k].ty
                    == ToolchainType::End;
            assert(index[arrivals[a].id].log(arrivals[a].ty) is Some);
            assert(index[arrivals[b].id].log(arrivals[b].ty) is Some);
        }
    }
}

/// A second log of a crate for a toolchain of which it has a log is refused
/// as a duplicate, whatever it says.
pub proof fn lemma_second_log_refused(
    index: Map<CrateIdView, RegressionView>,
    id: CrateIdView,
    ty: ToolchainType,
    first: Seq<char>,
    second: Seq<char>,
)
    requires
        filed(index, id, ty, first) is Ok,
    ensures
        filed(filed(index, id, ty, first)->Ok_0, id, ty, second) == Err::<
            Map<CrateIdView, RegressionView>,
            IngestError,
        >(IngestError::DuplicateLog),
{
}

/// The records of the regressed crates, in the order of their identities.
#[derive(Debug)]
pub struct RegressionStore {
    records: Vec<Regression>,
}

impl View for RegressionStore {
    type V = Seq<RegressionView>;

    closed spec fn view(&self) -> Seq<RegressionView> {
        self.records.deep_view()
    }
}

impl RegressionStore {
    /// The records stand in the order of their identities.
    pub open spec fn wf(&self) -> bool {
        in_order(self@)
    }

    /// The records by their identities.
    pub open spec fn index(&self) -> Map<CrateIdView, RegressionView> {
        index_of(self@)
    }

    /// Every record has both its logs.
    pub open spec fn complete(&self) -> bool {
        forall|i: int| 0 <= i < self@.len() ==> (#[trigger] self@[i]).complete()
    }

    /// A store without records.
    pub fn new() -> (store: RegressionStore)
        ensures
            store@ == Seq::<RegressionView>::empty(),
            store.wf(),
    {
        let store = RegressionStore { records: Vec::new() };
        assert(store@ =~= Seq::<RegressionView>::empty());
        store
    }

    /// How many crates have a record.
    pub fn len(&self) -> (count: usize)
        ensures
            count == self@.len(),
    {
        self.records.len()
    }

    /// The records, in the order of their identities.
    pub fn records(&self) -> (records: &[Regression])
        ensures
            records.deep_view() == self@,
    {
        let records = self.records.as_slice();
        assert(records.deep_view() =~= self@);
        records
    }

    /// Whether every record has both its logs.
    pub fn is_complete(&self) -> (yes: bool)
        ensures
            yes == self.complete(),
    {
        let mut i: usize = 0;
        while i < self.records.len()
            invariant
                i <= self.records.len(),
                forall|k: int| 0 <= k < i ==> (#[trigger] self@[k]).complete(),
            decreases self.records.len() - i,
        {
            if !self.records[i].is_complete() {
                assert(!self@[i as int].complete());
                return false;
            }
            i = i + 1;
        }
        true
    }

    /// Where the record of `id` stands or, where there is none, would go in:
    /// behind the last record whose identity does not come after `id`.
    fn place(&self, id: &CrateId) -> (at: usize)
        requires
            self.wf(),
        ensures
            at <= self@.len(),
            forall|k: int| at <= k < self@.len() ==> id@.lt((#[trigger] self@[k]).id),
            at > 0 ==> !id@.lt(self@[at - 1].id),
            at > 0 && self@[at - 1].id != id@ ==> forall|k: int|
                0 <= k < at ==> (#[trigger] self@[k]).id.lt(id@),
    {
        let mut at: usize = self.records.len();
        while at > 0 && id.precedes(self.records[at - 1].id())
            invariant
                at <= self.records.len(),
                self@.len() == self.records.len(),
                forall|k: int| 0 <= k < self@.len() ==> self@[k] == (#[trigger] self.records@[k])@,
                forall|k: int| at <= k < self@.len() ==> id@.lt((#[trigger] self@[k]).id),
            decreases at,
        {
            at = at - 1;
        }
        proof {
            if at > 0 && self@[at - 1].id != id@ {
                let last = self@[at - 1].id;
                lemma_id_lt_total(last, id@);
                assert forall|k: int| 0 <= k < at implies (#[trigger] self@[k]).id.lt(id@) by {
                    if k < at - 1 {
                        assert(self@[k].id.lt(self@[at - 1].id));
                        lemma_id_lt_transitive(self@[k].id, last, id@);
                    }
                }
            }
        }
        at
    }

    /// The record of `id`, if there is one.
    pub fn get(&self, id: &CrateId) -> (found: Option<&Regression>)
        requires
            self.wf(),
        ensures
            match found {
                Some(record) => self.index().dom().contains(id@) && record@ == self.index()[id@],
                None => !self.index().dom().contains(id@),
            },
    {
        let at = self.place(id);
        if at > 0 && *self.records[at - 1].id() == *id {
            proof {
                lemma_index_at(self@, at - 1);
            }
            Some(&self.records[at - 1])
        } else {
            proof {
                if holds(self@, id@) {
                    let k = choose|k: int| 0 <= k < self@.len() && (#[trigger] self@[k]).id == id@;
                    lemma_id_lt_irreflexive(id@);
                }
            }
            None
        }
    }

    /// Files a log of `id` for the toolchain of the given role. The log goes
    /// into the record of `id`, which is made where there was none. A slot
    /// that is taken refuses the log, and the store then stays as it was.
    pub fn put(&mut self, id: CrateId, ty: ToolchainType, log: String) -> (done: Result<
        (),
        IngestError,
    >)
        requires
            old(self).wf(),
        ensures
            final(self).wf(),
            match filed(old(self).index(), id@, ty, log@) {
                Ok(index) => done == Ok::<(), IngestError>(()) && final(self).index() == index,
                Err(error) => done == Err::<(), IngestError>(error) && final(self)@ == old(self)@,
            },
    {
        let at = self.place(&id);
        let ghost before = self@;
        if at > 0 && *self.records[at - 1].id() == id {
            proof {
                lemma_index_at(before, at - 1);
            }
            let done = self.records[at - 1].put(ty, log);
            proof {
                if done is Ok {
                    lemma_replace(before, at - 1, self.records@[at - 1]@);
                }
            }
            assert(self@ =~= before.update(at - 1, self.records@[at - 1]@));
            done
        } else {
            proof {
                if at > 0 {
                    assert(before[at - 1].id != id@);
                }
                lemma_insert_new(before, at as int, RegressionView::fresh(id@).with_log(ty, log@));
            }
            let mut record = Regression::new(id);
            let done = record.put(ty, log);
            self.records.insert(at, record);
            assert(self@ =~= before.insert(at as int, record@));
            done
        }
    }

    /// Files a log of `id` that arrived under the label of a toolchain, as
    /// [`RegressionStore::put`] does for the role that the label names. A
    /// label that is none of the run's is refused, and the store then stays
    /// as it was.
    pub fn insert(&mut self, cfg: &Config, id: CrateId, toolchain: &str, log: String) -> (done:
        Result<(), IngestError>)
        requires
            old(self).wf(),
        ensures
            final(self).wf(),
            match inserted(old(self).index(), cfg, id@, toolchain@, log@) {
                Ok(index) => done == Ok::<(), IngestError>(()) && final(self).index() == index,
                Err(error) => done == Err::<(), IngestError>(error) && final(self)@ == old(self)@,
            },
    {
        match cfg.role(toolchain) {
            Some(ty) => self.put(id, ty, log),
            None => Err(IngestError::UnknownToolchain),
        }
    }

    /// Files an entry of the log archive: the segments of its path name the
    /// crate and the toolchain, and `log` is its content. A path that names
    /// no crate is refused, and so is all that [`RegressionStore::insert`]
    /// refuses; the store then stays as it was.
    pub fn ingest(&mut self, cfg: &Config, segments: &[String], log: String) -> (done: Result<
        (),
        IngestError,
    >)
        requires
            old(self).wf(),
        ensures
            final(self).wf(),
            match ingested(old(self).index(), cfg, segments.deep_view(), log@) {
                Ok(index) => done == Ok::<(), IngestError>(()) && final(self).index() == index,
                Err(error) => done == Err::<(), IngestError>(error) && final(self)@ == old(self)@,
            },
    {
        match parse_entry_path(segments) {
            Ok((id, toolchain)) => self.insert(cfg, id, toolchain.as_str(), log),
            Err(error) => Err(error),
        }
    }
}

} // verus!
