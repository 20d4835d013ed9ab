//! What a run does with the records of its listings: it keeps those that are
//! recent and new to the ledger, puts them in the order of their titles, and
//! leaves the ledger ready to be stored.

use crate::date::{CalendarDate, Civil};
use crate::history::{admitted, entry_views, fingerprint_of, lists, retained, Entry, History};
use crate::magnet::{views, Magnet, MagnetView};
use crate::text::{line, lines_of};
use vstd::prelude::*;
use vstd::seq_lib::to_multiset_remove;

verus! {

/// Whether a record passes on the way into the listing, and the ledger
/// afterwards. A record older than `after` does not pass and leaves the
/// ledger alone. A record with a fingerprint passes if the fingerprint is new,
/// and is entered then. For a record without one, `admit_unkeyed` decides.
pub open spec fn passes(
    record: MagnetView,
    after: Civil,
    ledger: Map<Seq<char>, Civil>,
    admit_unkeyed: bool,
) -> (bool, Map<Seq<char>, Civil>) {
    if record.date.before(after) {
        (false, ledger)
    } else {
        match fingerprint_of(record.link) {
            Some(fingerprint) => admitted(ledger, fingerprint, record.date),
            None => (admit_unkeyed, ledger),
        }
    }
}

/// The records that pass, in their order, and the ledger after all of them
/// were looked at, one after the other.
pub open spec fn survivors(
    records: Seq<MagnetView>,
    after: Civil,
    ledger: Map<Seq<char>, Civil>,
    admit_unkeyed: bool,
) -> (Seq<MagnetView>, Map<Seq<char>, Civil>)
    decreases records.len(),
{
    if records.len() == 0 {
        (Seq::empty(), ledger)
    } else {
        let (kept, ledger) = survivors(records.drop_last(), after, ledger, admit_unkeyed);
        let (passed, ledger) = passes(records.last(), after, ledger, admit_unkeyed);
        if passed {
            (kept.push(records.last()), ledger)
        } else {
            (kept, ledger)
        }
    }
}

/// Keeps the records that are not older than `after` and that the ledger
/// lets pass. The ledger is asked only about records that are recent enough.
pub fn keep_recent(recent: Vec<Magnet>, after: CalendarDate, history: &mut History) -> (kept: Vec<
    Magnet,
>)
    ensures
        (views(kept@), final(history)@) == survivors(
            views(recent@),
            after@,
            old(history)@,
            old(history).admits_unkeyed(),
        ),
        final(history).slack() == old(history).slack(),
        final(history).admits_unkeyed() == old(history).admits_unkeyed(),
{
    let mut kept: Vec<Magnet> = Vec::new();
    let mut i: usize = 0;
    let ghost all = views(recent@);
    assert(all.take(0) =~= Seq::<MagnetView>::empty());
    while i < recent.len()
        invariant
            i <= recent.len(),
            all == views(recent@),
            (views(kept@), history@) == survivors(
                all.take(i as int),
                after@,
                old(history)@,
                old(history).admits_unkeyed(),
            ),
            history.slack() == old(history).slack(),
            history.admits_unkeyed() == old(history).admits_unkeyed(),
        decreases recent.len() - i,
    {
        let ghost upto = all.take(i + 1);
        assert(upto.drop_last() =~= all.take(i as int));
        assert(upto.last() == recent@[i as int]@);
        if recent[i].date.on_or_after(&after) && history.filter(&recent[i]) {
            let ghost before = views(kept@);
            kept.push(recent[i].clone());
            assert(views(kept@) =~= before.push(recent@[i as int]@));
        }
        i += 1;
    }
    assert(all.take(all.len() as int) =~= all);
    kept
}

/// Whether the title `a` sorts before the title `b` when the case of letters
/// is left aside, by the order of the `unicase` crate.
pub uninterp spec fn caseless_before(a: Seq<char>, b: Seq<char>) -> bool;

/// Compares two titles as `unicase::UniCase` values, with `<`.
///
/// The crate compares the case-folded characters of the two strings from
/// left to right. The contract gives the result its name and adds the one
/// fact that follows for every pair of strings: of two titles at most one
/// sorts before the other.
#[verifier::external_body]
fn title_before(a: &str, b: &str) -> (before: bool)
    ensures
        before == caseless_before(a@, b@),
        before ==> !caseless_before(b@, a@),
{
    unicase::UniCase::new(a) < unicase::UniCase::new(b)
}

/// No record sorts before the one in front of it.
pub open spec fn in_title_order(records: Seq<MagnetView>) -> bool {
    forall|i: int, j: int|
        0 <= i && j == i + 1 && j < records.len() ==> !caseless_before(
            (#[trigger] records[j]).text,
            (#[trigger] records[i]).text,
        )
}

/// Putting an element into a sequence adds it to what the sequence holds.
pub proof fn lemma_insert_to_multiset<A>(s: Seq<A>, at: int, a: A)
    requires
        0 <= at <= s.len(),
    ensures
        s.insert(at, a).to_multiset() == s.to_multiset().insert(a),
{
    let longer = s.insert(at, a);
    assert(longer[at] == a);
    assert(longer.remove(at) =~= s);
    to_multiset_remove(longer, at);
    assert(longer.to_multiset().count(a) > 0) by {
        broadcast use vstd::seq_lib::group_to_multiset_ensures;

        assert(longer.contains(a));
    }
    assert(longer.to_multiset() =~= s.to_multiset().insert(a));
}

/// The records of `sorted` with `record` put behind the last of them that it
/// does not sort before.
pub open spec fn with_record(sorted: Seq<MagnetView>, record: MagnetView) -> Seq<MagnetView>
    decreases sorted.len(),
{
    if sorted.len() > 0 && caseless_before(record.text, sorted.last().text) {
        with_record(sorted.drop_last(), record).push(sorted.last())
    } else {
        sorted.push(record)
    }
}

/// The records in the order of their titles: each record in turn is put
/// behind the last of the records before it that it does not sort before. So
/// records whose titles sort alike stay in the order they came in.
pub open spec fn title_sorted(records: Seq<MagnetView>) -> Seq<MagnetView>
    decreases records.len(),
{
    if records.len() == 0 {
        Seq::empty()
    } else {
        with_record(title_sorted(records.drop_last()), records.last())
    }
}

/// Where [`with_record`] puts a record: in front of the run of records at
/// the end that it sorts before.
pub proof fn lemma_with_record_at(sorted: Seq<MagnetView>, record: MagnetView, at: int)
    requires
        0 <= at <= sorted.len(),
        forall|k: int|
            at <= k < sorted.len() ==> caseless_before(record.text, (#[trigger] sorted[k]).text),
        at > 0 ==> !caseless_before(record.text, sorted[at - 1].text),
    ensures
        with_record(sorted, record) == sorted.insert(at, record),
    decreases sorted.len() - at,
{
    if at < sorted.len() {
        let front = sorted.drop_last();
        assert(caseless_before(record.text, sorted[sorted.len() - 1].text));
        assert forall|k: int| at <= k < front.len() implies caseless_before(
            record.text,
            (#[trigger] front[k]).text,
        ) by {
            assert(front[k] == sorted[k]);
        }
        lemma_with_record_at(front, record, at);
        assert(front.insert(at, record).push(sorted.last()) =~= sorted.insert(at, record));
    } else {
        assert(sorted.insert(at, record) =~= sorted.push(record));
    }
}

/// What [`with_record`] does to the records that are there: it moves none of
/// them, and puts the new record in front of those only that it sorts
/// before. The result is the place of the new record.
pub proof fn lemma_with_record_is_stable(sorted: Seq<MagnetView>, record: MagnetView) -> (at: int)
    ensures
        0 <= at <= sorted.len(),
        with_record(sorted, record) == sorted.insert(at, record),
        forall|k: int|
            at <= k < sorted.len() ==> caseless_before(record.text, (#[trigger] sorted[k]).text),
    decreases sorted.len(),
{
    if sorted.len() > 0 && caseless_before(record.text, sorted.last().text) {
        let front = sorted.drop_last();
        let at = lemma_with_record_is_stable(front, record);
        assert forall|k: int| at <= k < sorted.len() implies caseless_before(
            record.text,
            (#[trigger] sorted[k]).text,
        ) by {
            if k < front.len() {
                assert(sorted[k] == front[k]);
            }
        }
        assert(front.insert(at, record).push(sorted.last()) =~= sorted.insert(at, record));
        at
    } else {
        assert(sorted.insert(sorted.len() as int, record) =~= sorted.push(record));
        sorted.len() as int
    }
}

/// Sorting loses no record: each record stands somewhere in the result, and
/// the result has as many records as came in.
pub proof fn lemma_title_sorted_holds_all(records: Seq<MagnetView>, i: int)
    requires
        0 <= i < records.len(),
    ensures
        title_sorted(records).len() == records.len(),
        exists|p: int|
            0 <= p < title_sorted(records).len() && #[trigger] title_sorted(records)[p]
                == records[i],
    decreases records.len(),
{
    let front = records.drop_last();
    let before = title_sorted(front);
    let out = title_sorted(records);
    let at = lemma_with_record_is_stable(before, records.last());
    before.insert_ensures(at, records.last());
    if front.len() > 0 {
        lemma_title_sorted_holds_all(front, 0);
    }
    if i < front.len() {
        lemma_title_sorted_holds_all(front, i);
        let p = choose|p: int| 0 <= p < before.len() && #[trigger] before[p] == front[i];
        if p < at {
            assert(out[p] == records[i]);
        } else {
            assert(out[p + 1] == records[i]);
        }
    } else {
        assert(out[at] == records[i]);
    }
}

/// The order of titles is a stable one: of two records, the one that came in
/// later stands behind the other in the result, unless it sorts before it.
/// So records whose titles sort alike stay in the order they came in.
pub proof fn lemma_title_sorted_is_stable(records: Seq<MagnetView>, i: int, j: int)
    requires
        0 <= i < j < records.len(),
        !caseless_before(records[j].text, records[i].text),
    ensures
        exists|p: int, q: int|
            0 <= p < q < title_sorted(records).len() && #[trigger] title_sorted(records)[p]
                == records[i] && #[trigger] title_sorted(records)[q] == records[j],
    decreases records.len(),
{
    let front = records.drop_last();
    let before = title_sorted(front);
    let out = title_sorted(records);
    let at = lemma_with_record_is_stable(before, records.last());
    before.insert_ensures(at, records.last());
    lemma_title_sorted_holds_all(records, i);
    if j < front.len() {
        lemma_title_sorted_is_stable(front, i, j);
        let (p, q) = choose|p: int, q: int|
            0 <= p < q < before.len() && #[trigger] before[p] == front[i] && #[trigger] before[q]
                == front[j];
        let p_after = if p < at {
            p
        } else {
            p + 1
        };
        let q_after = if q < at {
            q
        } else {
            q + 1
        };
        assert(out[p_after] == records[i] && out[q_after] == records[j]);
    } else {
        lemma_title_sorted_holds_all(front, i);
        let p = choose|p: int| 0 <= p < before.len() && #[trigger] before[p] == front[i];
        assert(p < at);
        assert(out[p] == records[i] && out[at] == records[j]);
    }
}

/// Puts the records in the order of their titles, the case of letters left
/// aside. The result holds the same records, and none of them sorts before
/// the one in front of it.
pub fn sort_by_title(magnets: Vec<Magnet>) -> (sorted: Vec<Magnet>)
    ensures
        views(sorted@) == title_sorted(views(magnets@)),
        views(sorted@).to_multiset() == views(magnets@).to_multiset(),
        in_title_order(views(sorted@)),
{
    let mut sorted: Vec<Magnet> = Vec::new();
    let mut i: usize = 0;
    let ghost all = views(magnets@);
    assert(all.take(0) =~= views(sorted@));
    while i < magnets.len()
        invariant
            i <= magnets.len(),
            all == views(magnets@),
            views(sorted@) == title_sorted(all.take(i as int)),
            views(sorted@).to_multiset() == all.take(i as int).to_multiset(),
            in_title_order(views(sorted@)),
        decreases magnets.len() - i,
    {
        let record = magnets[i].clone();
        let mut at: usize = sorted.len();
        while at > 0
            invariant
                at <= sorted.len(),
                forall|k: int|
                    at <= k < sorted.len() ==> caseless_before(
                        record.text@,
                        (#[trigger] sorted@[k]).text@,
                    ),
                at < sorted.len() ==> !caseless_before(sorted@[at as int].text@, record.text@),
            ensures
                at > 0 ==> !caseless_before(record.text@, sorted@[at - 1].text@),
            decreases at,
        {
            if !title_before(record.text.as_str(), sorted[at - 1].text.as_str()) {
                break;
            }
            at -= 1;
        }
        let ghost before = views(sorted@);
        proof {
            assert forall|k: int| at <= k < before.len() implies caseless_before(
                record@.text,
                (#[trigger] before[k]).text,
            ) by {
                assert(before[k] == sorted@[k]@);
            }
            lemma_with_record_at(before, record@, at as int);
        }
        sorted.insert(at, record);
        proof {
            let after = views(sorted@);
            assert(after =~= before.insert(at as int, record@));
            lemma_insert_to_multiset(before, at as int, record@);
            let upto = all.take(i + 1);
            assert(upto.drop_last() =~= all.take(i as int));
            assert(upto.last() == record@);
            assert(upto =~= all.take(i as int).push(record@));
            broadcast use vstd::seq_lib::group_to_multiset_ensures;

            assert(upto.to_multiset() =~= all.take(i as int).to_multiset().insert(record@));
            assert forall|k: int, l: int|
                0 <= k && l == k + 1 && l < after.len() implies !caseless_before(
                (#[trigger] after[l]).text,
                (#[trigger] after[k]).text,
            ) by {
                if l < at {
                    assert(after[k] == before[k] && after[l] == before[l]);
                } else if l == at {
                    assert(after[k] == before[k]);
                } else if k == at {
                    assert(after[l] == before[at as int]);
                } else {
                    assert(after[k] == before[k - 1] && after[l] == before[l - 1]);
                }
            }
        }
        i += 1;
    }
    assert(all.take(all.len() as int) =~= all);
    sorted
}

/// The URLs that an input file lists: one to a line, in the order of the
/// file. Every line counts, an empty one too.
pub fn input_urls(text: &str) -> (urls: Vec<String>)
    ensures
        forall|n: nat| n < urls@.len() ==> line(text@, n) == Some(#[trigger] urls@[n as int]@),
        forall|n: nat| n >= urls@.len() ==> #[trigger] line(text@, n) is None,
{
    lines_of(text)
}

/// A run over some listings: the day from which on uploads count, the ledger
/// of earlier runs, and the records kept so far.
///
/// The one day serves twice. Records older than it are left out, and when
/// the run is done the ledger lets go of the entries older than it, its slack
/// aside. So what counted in this run is still in the ledger for the next.
pub struct Run {
    after: CalendarDate,
    history: History,
    magnets: Vec<Magnet>,
}

impl Run {
    /// The day from which on uploads count.
    pub closed spec fn after(self) -> Civil {
        self.after@
    }

    /// The ledger as the run has left it so far.
    pub closed spec fn history(self) -> History {
        self.history
    }

    /// The records kept so far, in the order they came in.
    pub closed spec fn kept(self) -> Seq<MagnetView> {
        views(self.magnets@)
    }

    /// Begins a run that looks at uploads from `after` on.
    pub fn new(after: CalendarDate, history: History) -> (run: Run)
        ensures
            run.after() == after@,
            run.history() == history,
            run.kept().len() == 0,
    {
        Run { after, history, magnets: Vec::new() }
    }

    /// Takes in the records of one listing: those that are recent and new to
    /// the ledger are kept, behind the ones kept before.
    pub fn take(&mut self, recent: Vec<Magnet>)
        ensures
            final(self).after() == old(self).after(),
            final(self).history().slack() == old(self).history().slack(),
            final(self).history().admits_unkeyed() == old(self).history().admits_unkeyed(),
            (final(self).kept(), final(self).history()@) == ({
                let (more, ledger) = survivors(
                    views(recent@),
                    old(self).after(),
                    old(self).history()@,
                    old(self).history().admits_unkeyed(),
                );
                (old(self).kept() + more, ledger)
            }),
    {
        let ghost before = views(self.magnets@);
        let mut more = keep_recent(recent, self.after, &mut self.history);
        let ghost added = views(more@);
        self.magnets.append(&mut more);
        assert(views(self.magnets@) =~= before + added);
    }

    /// Ends the run: hands out the records kept, in the order of their
    /// titles, and the entries of the ledger to store for the next run.
    pub fn finish(self) -> (done: (Vec<Magnet>, Vec<Entry>))
        ensures
            views(done.0@) == title_sorted(self.kept()),
            views(done.0@).to_multiset() == self.kept().to_multiset(),
            in_title_order(views(done.0@)),
            lists(
                entry_views(done.1@),
                retained(self.history()@, self.history().cutoff(self.after())),
            ),
    {
        let stored = self.history.write(self.after);
        (sort_by_title(self.magnets), stored)
    }
}

} // verus!
