//! The ledger of records seen in earlier runs.
//!
//! The ledger maps the fingerprint of a record, a token inside its link, to
//! the upload date of the record that brought it in. A fingerprint is entered
//! once and never changed. When the ledger is written out, entries older than
//! a cutoff are left behind.
//!
//! Two matters of policy are set when a ledger is made. A record whose link
//! holds no fingerprint cannot be entered; `admit_unkeyed` says whether such a
//! record passes the filter all the same. And `slack_days` moves the cutoff of
//! a write back by that many days, to keep entries near the boundary a little
//! longer.

use crate::date::{day_before, days_back, lemma_days_back_valid, CalendarDate, Civil};
use crate::magnet::Magnet;
use crate::pattern::{captures, captures_view, group, group_text, regex_captures};
use vstd::prelude::*;

verus! {

/// The pattern of the fingerprint in a link; its group is the fingerprint.
pub const FINGERPRINT_PATTERN: &'static str = "btih:([^&]+)";

/// The fingerprint of a link, if it has one.
pub open spec fn fingerprint_of(link: Seq<char>) -> Option<Seq<char>> {
    group(regex_captures(FINGERPRINT_PATTERN@, link), 1)
}

/// The mathematical model of a ledger entry.
pub struct EntryView {
    pub magnet: Seq<char>,
    pub date: Civil,
}

/// An entry of the ledger, as it is stored: a fingerprint and the date of the
/// record that brought it in.
#[derive(Debug)]
pub struct Entry {
    pub magnet: String,
    pub date: CalendarDate,
}

impl View for Entry {
    type V = EntryView;

    open spec fn view(&self) -> EntryView {
        EntryView { magnet: self.magnet@, date: self.date@ }
    }
}

impl Clone for Entry {
    fn clone(&self) -> (copy: Entry)
        ensures
            copy == *self,
    {
        Entry { magnet: self.magnet.clone(), date: self.date }
    }
}

/// The views of a list of entries.
pub open spec fn entry_views(entries: Seq<Entry>) -> Seq<EntryView> {
    Seq::new(entries.len(), |i: int| entries[i]@)
}

/// The fingerprints and dates of a ledger, kept in a hash map of the
/// `hashbrown` crate.
///
/// The verifier does not look into the struct: the type of the hash map
/// cannot be spelled out in full from outside its crate, which keeps the
/// trait of its allocator parameter to itself. What the map holds is known by
/// the name [`ledger_holds`] alone.
#[verifier::external_body]
pub struct Ledger {
    dates: hashbrown::HashMap<String, CalendarDate>,
}

/// What a ledger holds: the date entered for each fingerprint.
pub uninterp spec fn ledger_holds(ledger: Ledger) -> Map<Seq<char>, Civil>;

/// The ledger without entries.
pub open spec fn no_entries() -> Map<Seq<char>, Civil> {
    Map::empty()
}

/// Makes an empty map, with `hashbrown::HashMap::new`.
#[verifier::external_body]
fn hash_map_new() -> (empty: Ledger)
    ensures
        ledger_holds(empty) == no_entries(),
{
    Ledger { dates: hashbrown::HashMap::new() }
}

/// Enters a date for a fingerprint with `hashbrown::HashMap::try_insert`,
/// which changes nothing and fails where the key is present: strings are
/// hashed and compared by their characters.
#[verifier::external_body]
fn hash_map_try_insert(
    ledger: &mut Ledger,
    fingerprint: String,
    date: CalendarDate,
) -> (fresh: bool)
    ensures
        fresh == !ledger_holds(*old(ledger)).contains_key(fingerprint@),
        ledger_holds(*final(ledger)) == if fresh {
            ledger_holds(*old(ledger)).insert(fingerprint@, date@)
        } else {
            ledger_holds(*old(ledger))
        },
{
    ledger.dates.try_insert(fingerprint, date).is_ok()
}

/// Looks a fingerprint up with `hashbrown::HashMap::get`.
#[verifier::external_body]
fn hash_map_get(ledger: &Ledger, fingerprint: &str) -> (date: Option<CalendarDate>)
    ensures
        match date {
            Some(date) => ledger_holds(*ledger).contains_key(fingerprint@) && ledger_holds(
                *ledger,
            )[fingerprint@] == date@,
            None => !ledger_holds(*ledger).contains_key(fingerprint@),
        },
{
    ledger.dates.get(fingerprint).copied()
}

/// `count` is the number of entries of `ledger`, of which there are
/// finitely many.
pub open spec fn has_count(ledger: Map<Seq<char>, Civil>, count: nat) -> bool {
    ledger.dom().finite() && ledger.len() == count
}

/// The number of entries, by `hashbrown::HashMap::len`. A hash map holds
/// finitely many entries, and the contract says so of what the ledger holds.
#[verifier::external_body]
fn hash_map_len(ledger: &Ledger) -> (count: usize)
    ensures
        has_count(ledger_holds(*ledger), count as nat),
{
    ledger.dates.len()
}

/// Lists the entries with `hashbrown::HashMap::iter`, which visits each entry
/// once, in an order of its own choosing.
#[verifier::external_body]
fn hash_map_entries(ledger: &Ledger) -> (entries: Vec<Entry>)
    ensures
        lists(entry_views(entries@), ledger_holds(*ledger)),
{
    ledger.dates.iter().map(|(magnet, date)| Entry { magnet: magnet.clone(), date: *date }).collect()
}

/// `entries` lists what `ledger` holds: every entry of the ledger once, and
/// nothing else. The order is open.
pub open spec fn lists(entries: Seq<EntryView>, ledger: Map<Seq<char>, Civil>) -> bool {
    &&& forall|i: int|
        0 <= i < entries.len() ==> ledger.contains_key((#[trigger] entries[i]).magnet)
            && ledger[entries[i].magnet] == entries[i].date
    &&& keys_distinct(entries)
    &&& forall|magnet: Seq<char>| #[trigger]
        ledger.contains_key(magnet) ==> exists|i: int|
            0 <= i < entries.len() && (#[trigger] entries[i]).magnet == magnet
}

/// No two entries of the list have one fingerprint.
pub open spec fn keys_distinct(entries: Seq<EntryView>) -> bool {
    forall|i: int, j: int|
        0 <= i < j < entries.len() ==> (#[trigger] entries[i]).magnet != (
        #[trigger] entries[j]).magnet
}

/// What offering a fingerprint with a date does to a ledger: whether the
/// fingerprint is new, and the ledger afterwards. A fingerprint that is
/// present keeps its date.
pub open spec fn admitted(ledger: Map<Seq<char>, Civil>, fingerprint: Seq<char>, date: Civil) -> (
    bool,
    Map<Seq<char>, Civil>,
) {
    if ledger.contains_key(fingerprint) {
        (false, ledger)
    } else {
        (true, ledger.insert(fingerprint, date))
    }
}

/// The ledger after a list of stored entries was offered to it, one after
/// the other.
pub open spec fn merged(ledger: Map<Seq<char>, Civil>, entries: Seq<EntryView>) -> Map<
    Seq<char>,
    Civil,
>
    decreases entries.len(),
{
    if entries.len() == 0 {
        ledger
    } else {
        admitted(merged(ledger, entries.drop_last()), entries.last().magnet, entries.last().date).1
    }
}

/// Offering entries to a ledger with finitely many entries leaves it with
/// finitely many.
pub proof fn lemma_merged_is_finite(ledger: Map<Seq<char>, Civil>, entries: Seq<EntryView>)
    requires
        ledger.dom().finite(),
    ensures
        merged(ledger, entries).dom().finite(),
    decreases entries.len(),
{
    if entries.len() > 0 {
        lemma_merged_is_finite(ledger, entries.drop_last());
    }
}

/// The ledger that a list of stored entries makes: of two entries with one
/// fingerprint the earlier in the list counts.
pub open spec fn ledger_of(entries: Seq<EntryView>) -> Map<Seq<char>, Civil> {
    merged(no_entries(), entries)
}

/// The entries of a ledger that are not older than `cutoff`.
pub open spec fn retained(ledger: Map<Seq<char>, Civil>, cutoff: Civil) -> Map<Seq<char>, Civil> {
    Map::new(
        |magnet: Seq<char>| ledger.contains_key(magnet) && ledger[magnet].on_or_after(cutoff),
        |magnet: Seq<char>| ledger[magnet],
    )
}

/// The ledger of records seen in earlier runs, with its policy.
pub struct History {
    entries: Ledger,
    slack_days: u32,
    admit_unkeyed: bool,
}

impl View for History {
    type V = Map<Seq<char>, Civil>;

    closed spec fn view(&self) -> Map<Seq<char>, Civil> {
        ledger_holds(self.entries)
    }
}

impl Default for History {
    fn default() -> (history: History)
        ensures
            history@ == no_entries(),
            history.slack() == 0,
            !history.admits_unkeyed(),
    {
        History::new()
    }
}

impl History {
    /// How many days before the limit of a write an entry may lie and still
    /// be kept.
    pub closed spec fn slack(self) -> nat {
        self.slack_days as nat
    }

    /// Whether a record without a fingerprint passes the filter.
    pub closed spec fn admits_unkeyed(self) -> bool {
        self.admit_unkeyed
    }

    /// An empty ledger. Entries are kept up to the limit of a write and no
    /// longer, and a record without a fingerprint does not pass the filter.
    pub fn new() -> (history: History)
        ensures
            history@ == no_entries(),
            history.slack() == 0,
            !history.admits_unkeyed(),
    {
        History { entries: hash_map_new(), slack_days: 0, admit_unkeyed: false }
    }

    /// An empty ledger with a policy of the caller's choice.
    pub fn with_policy(slack_days: u32, admit_unkeyed: bool) -> (history: History)
        ensures
            history@ == no_entries(),
            history.slack() == slack_days,
            history.admits_unkeyed() == admit_unkeyed,
    {
        History { entries: hash_map_new(), slack_days, admit_unkeyed }
    }

    /// How many days of slack the ledger keeps.
    pub fn slack_days(&self) -> (days: u32)
        ensures
            days == self.slack(),
    {
        self.slack_days
    }

    /// Whether a record without a fingerprint passes the filter.
    pub fn admit_unkeyed(&self) -> (admits: bool)
        ensures
            admits == self.admits_unkeyed(),
    {
        self.admit_unkeyed
    }

    /// Enters the stored entries into the ledger, in their order: of two
    /// entries with one fingerprint the earlier counts, and an entry whose
    /// fingerprint the ledger holds changes nothing.
    pub fn merge(&mut self, entries: Vec<Entry>)
        ensures
            final(self)@ == merged(old(self)@, entry_views(entries@)),
            final(self).slack() == old(self).slack(),
            final(self).admits_unkeyed() == old(self).admits_unkeyed(),
    {
        let mut i: usize = 0;
        assert(entry_views(entries@).take(0) =~= Seq::<EntryView>::empty());
        while i < entries.len()
            invariant
                i <= entries.len(),
                self@ == merged(old(self)@, entry_views(entries@).take(i as int)),
                self.slack() == old(self).slack(),
                self.admits_unkeyed() == old(self).admits_unkeyed(),
            decreases entries.len() - i,
        {
            let ghost upto = entry_views(entries@).take(i + 1);
            assert(upto.drop_last() =~= entry_views(entries@).take(i as int));
            assert(upto.last() == entries@[i as int]@);
            let _ = self.offer(Some(entries[i].clone()));
            i += 1;
        }
        assert(entry_views(entries@).take(entries@.len() as int) =~= entry_views(entries@));
    }

    /// The ledger that stored entries make, with the policy of
    /// [`History::new`].
    pub fn load(entries: Vec<Entry>) -> (history: History)
        ensures
            history@ == ledger_of(entry_views(entries@)),
            history@.dom().finite(),
            history.slack() == 0,
            !history.admits_unkeyed(),
    {
        let mut history = History::new();
        proof {
            lemma_merged_is_finite(no_entries(), entry_views(entries@));
        }
        history.merge(entries);
        history
    }

    /// The number of entries, of which there are finitely many.
    pub fn len(&self) -> (len: usize)
        ensures
            self@.dom().finite(),
            len == self@.len(),
    {
        hash_map_len(&self.entries)
    }

    /// The date entered for a fingerprint, if it is in the ledger.
    pub fn get(&self, fingerprint: &str) -> (date: Option<CalendarDate>)
        ensures
            match date {
                Some(date) => self@.contains_key(fingerprint@) && self@[fingerprint@] == date@,
                None => !self@.contains_key(fingerprint@),
            },
    {
        hash_map_get(&self.entries, fingerprint)
    }

    /// Picks the fingerprint out of what the fingerprint pattern found in a
    /// link.
    pub fn fingerprint_from(found: &Option<Vec<Option<String>>>) -> (fingerprint: Option<String>)
        ensures
            match fingerprint {
                Some(text) => group(captures_view(*found), 1) == Some(text@),
                None => group(captures_view(*found), 1) is None,
            },
    {
        group_text(found, 1)
    }

    /// The entry that a record would bring into the ledger, if its link has a
    /// fingerprint.
    pub fn create_entry(magnet: &Magnet) -> (entry: Option<Entry>)
        ensures
            match entry {
                Some(entry) => fingerprint_of(magnet.link@) == Some(entry.magnet@) && entry.date
                    == magnet.date,
                None => fingerprint_of(magnet.link@) is None,
            },
    {
        let found = captures(FINGERPRINT_PATTERN, magnet.link.as_str());
        match History::fingerprint_from(&found) {
            Some(fingerprint) => Some(Entry { magnet: fingerprint, date: magnet.date }),
            None => None,
        }
    }

    /// Offers an entry to the ledger, or none for a record without a
    /// fingerprint, and says whether the record passes: an entry passes if
    /// its fingerprint is new, and is entered then; without an entry the
    /// policy decides.
    pub fn offer(&mut self, entry: Option<Entry>) -> (kept: bool)
        ensures
            final(self).slack() == old(self).slack(),
            final(self).admits_unkeyed() == old(self).admits_unkeyed(),
            match entry {
                Some(entry) => (kept, final(self)@) == admitted(
                    old(self)@,
                    entry.magnet@,
                    entry.date@,
                ),
                None => kept == old(self).admits_unkeyed() && final(self)@ == old(self)@,
            },
    {
        match entry {
            Some(entry) => hash_map_try_insert(&mut self.entries, entry.magnet, entry.date),
            None => self.admit_unkeyed,
        }
    }

    /// Says whether a record is new to the ledger, and enters it if so. A
    /// record with a fingerprint passes once; for a record without one the
    /// policy decides, and the ledger stays as it is.
    pub fn filter(&mut self, magnet: &Magnet) -> (kept: bool)
        ensures
            final(self).slack() == old(self).slack(),
            final(self).admits_unkeyed() == old(self).admits_unkeyed(),
            match fingerprint_of(magnet.link@) {
                Some(fingerprint) => (kept, final(self)@) == admitted(
                    old(self)@,
                    fingerprint,
                    magnet.date@,
                ),
                None => kept == old(self).admits_unkeyed() && final(self)@ == old(self)@,
            },
    {
        let entry = History::create_entry(magnet);
        self.offer(entry)
    }

    /// The first day whose entries a write with the limit `limit` keeps.
    pub open spec fn cutoff(self, limit: Civil) -> Civil {
        days_back(limit, self.slack())
    }

    /// The first day whose entries a write with the limit `limit` keeps: the
    /// limit, moved back by one day for each day of slack.
    pub fn cutoff_date(&self, limit: CalendarDate) -> (cutoff: CalendarDate)
        ensures
            cutoff@ == self.cutoff(limit@),
    {
        let mut cutoff: CalendarDate = limit;
        let mut left: u32 = self.slack_days;
        while left > 0
            invariant
                days_back(cutoff@, left as nat) == days_back(limit@, self.slack()),
            decreases left,
        {
            proof {
                lemma_one_day_more(cutoff@, (left - 1) as nat);
            }
            cutoff = safe_decrement_limit(cutoff);
            left = left - 1;
        }
        cutoff
    }

    /// The entries to store for the next run: those not older than the
    /// cutoff, each once, in no particular order. The ledger itself stays as
    /// it is.
    pub fn write(&self, limit: CalendarDate) -> (stored: Vec<Entry>)
        ensures
            lists(entry_views(stored@), retained(self@, self.cutoff(limit@))),
    {
        let cutoff = self.cutoff_date(limit);
        let all = hash_map_entries(&self.entries);
        let mut stored: Vec<Entry> = Vec::new();
        let mut i: usize = 0;
        let ghost listed = entry_views(all@);
        assert(listed.take(0) =~= Seq::<EntryView>::empty());
        while i < all.len()
            invariant
                i <= all.len(),
                listed == entry_views(all@),
                entry_views(stored@) == not_older(listed.take(i as int), cutoff@),
            decreases all.len() - i,
        {
            let ghost upto = listed.take(i + 1);
            assert(upto.drop_last() =~= listed.take(i as int));
            assert(upto.last() == all@[i as int]@);
            if all[i].date.on_or_after(&cutoff) {
                let ghost before = entry_views(stored@);
                stored.push(all[i].clone());
                assert(entry_views(stored@) =~= before.push(all@[i as int]@));
            }
            i += 1;
        }
        proof {
            assert(listed.take(listed.len() as int) =~= listed);
            lemma_not_older_lists(listed, self@, cutoff@);
        }
        stored
    }
}

/// The entries of a list that are not older than `cutoff`, in their order.
pub open spec fn not_older(entries: Seq<EntryView>, cutoff: Civil) -> Seq<EntryView>
    decreases entries.len(),
{
    if entries.len() == 0 {
        Seq::empty()
    } else {
        let rest = not_older(entries.drop_last(), cutoff);
        if entries.last().date.on_or_after(cutoff) {
            rest.push(entries.last())
        } else {
            rest
        }
    }
}

/// What [`not_older`] keeps: entries of the list, all of them not older than
/// the cutoff, none of these missing, and no fingerprint twice if the list
/// has none twice.
pub proof fn lemma_not_older(entries: Seq<EntryView>, cutoff: Civil)
    ensures
        forall|k: int|
            0 <= k < not_older(entries, cutoff).len() ==> entries.contains(
                #[trigger] not_older(entries, cutoff)[k],
            ) && not_older(entries, cutoff)[k].date.on_or_after(cutoff),
        forall|j: int|
            0 <= j < entries.len() && (#[trigger] entries[j]).date.on_or_after(cutoff)
                ==> not_older(entries, cutoff).contains(entries[j]),
        keys_distinct(entries) ==> keys_distinct(not_older(entries, cutoff)),
    decreases entries.len(),
{
    let out = not_older(entries, cutoff);
    if entries.len() > 0 {
        let front = entries.drop_last();
        let rest = not_older(front, cutoff);
        let last = entries.last();
        lemma_not_older(front, cutoff);
        assert forall|k: int| 0 <= k < out.len() implies entries.contains(#[trigger] out[k])
            && out[k].date.on_or_after(cutoff) by {
            if k < rest.len() {
                assert(out[k] == rest[k]);
                let j = choose|j: int| 0 <= j < front.len() && front[j] == rest[k];
                assert(entries[j] == out[k]);
            } else {
                assert(entries[entries.len() - 1] == out[k]);
            }
        }
        assert forall|j: int|
            0 <= j < entries.len() && (#[trigger] entries[j]).date.on_or_after(
                cutoff,
            ) implies out.contains(entries[j]) by {
            if j < front.len() {
                assert(front[j] == entries[j]);
                let k = choose|k: int| 0 <= k < rest.len() && rest[k] == front[j];
                assert(out[k] == entries[j]);
            } else {
                assert(out[out.len() - 1] == entries[j]);
            }
        }
        if keys_distinct(entries) {
            assert(keys_distinct(front)) by {
                assert forall|i: int, j: int| 0 <= i < j < front.len() implies (
                #[trigger] front[i]).magnet != (#[trigger] front[j]).magnet by {
                    assert(entries[i].magnet != entries[j].magnet);
                }
            }
            assert forall|k: int, l: int| 0 <= k < l < out.len() implies (
            #[trigger] out[k]).magnet != (#[trigger] out[l]).magnet by {
                if l < rest.len() {
                    assert(out[k] == rest[k] && out[l] == rest[l]);
                } else {
                    assert(out[k] == rest[k]);
                    let j = choose|j: int| 0 <= j < front.len() && front[j] == rest[k];
                    assert(entries[j].magnet != entries[entries.len() - 1].magnet);
                }
            }
        }
    }
}

/// Leaving the older entries out of a listing of a ledger lists what the
/// ledger retains.
pub proof fn lemma_not_older_lists(
    entries: Seq<EntryView>,
    ledger: Map<Seq<char>, Civil>,
    cutoff: Civil,
)
    requires
        lists(entries, ledger),
    ensures
        lists(not_older(entries, cutoff), retained(ledger, cutoff)),
{
    let out = not_older(entries, cutoff);
    let kept = retained(ledger, cutoff);
    lemma_not_older(entries, cutoff);
    assert forall|k: int| 0 <= k < out.len() implies kept.contains_key(
        (#[trigger] out[k]).magnet,
    ) && kept[out[k].magnet] == out[k].date by {
        let j = choose|j: int| 0 <= j < entries.len() && entries[j] == out[k];
        assert(ledger.contains_key(entries[j].magnet));
    }
    assert forall|magnet: Seq<char>| #[trigger] kept.contains_key(magnet) implies exists|k: int|
        0 <= k < out.len() && (#[trigger] out[k]).magnet == magnet by {
        assert(ledger.contains_key(magnet));
        let j = choose|j: int| 0 <= j < entries.len() && (#[trigger] entries[j]).magnet == magnet;
        assert(entries[j].date.on_or_after(cutoff));
        let k = choose|k: int| 0 <= k < out.len() && out[k] == entries[j];
        assert(out[k].magnet == magnet);
    }
}

/// The day before the limit of a write, or the limit itself where it is the
/// first supported day: the cutoff of a ledger that keeps its entries one day
/// longer.
pub fn safe_decrement_limit(limit: CalendarDate) -> (cutoff: CalendarDate)
    ensures
        cutoff@ == days_back(limit@, 1),
{
    assert(days_back(day_before(limit@), 0) == day_before(limit@));
    match limit.pred() {
        Some(eve) => eve,
        None => limit,
    }
}

/// Going back one day and then `n` days is going back `n + 1` days.
pub proof fn lemma_one_day_more(c: Civil, n: nat)
    ensures
        days_back(days_back(c, 1), n) == days_back(c, n + 1),
    decreases n,
{
    if c.is_first_day() {
        assert(days_back(c, 1) == c);
        if n > 0 {
            lemma_one_day_more(c, (n - 1) as nat);
        }
    } else {
        assert(days_back(day_before(c), 0) == day_before(c));
        assert(days_back(c, 1) == day_before(c));
    }
}

/// After a write no stored entry is older than the cutoff, and every entry of
/// the ledger that is not older than the cutoff is stored, with its date.
pub proof fn lemma_retention(ledger: Map<Seq<char>, Civil>, cutoff: Civil)
    ensures
        forall|magnet: Seq<char>| #[trigger]
            retained(ledger, cutoff).contains_key(magnet) ==> !retained(
                ledger,
                cutoff,
            )[magnet].before(cutoff),
        forall|magnet: Seq<char>|
            ledger.contains_key(magnet) && ledger[magnet].on_or_after(cutoff) ==> #[trigger]
                retained(ledger, cutoff).contains_key(magnet) && retained(ledger, cutoff)[magnet]
                == ledger[magnet],
{
}

/// Slack only keeps more: whatever the slack of a ledger, every entry that is
/// not older than the limit of a write is stored.
pub proof fn lemma_retention_with_slack(
    ledger: Map<Seq<char>, Civil>,
    limit: Civil,
    slack: nat,
    magnet: Seq<char>,
)
    requires
        limit.is_valid(),
        ledger.contains_key(magnet),
        ledger[magnet].on_or_after(limit),
    ensures
        retained(ledger, days_back(limit, slack)).contains_key(magnet),
        retained(ledger, days_back(limit, slack))[magnet] == ledger[magnet],
{
    lemma_days_back_valid(limit, slack);
}

/// A fingerprint that is offered twice passes the first time and not the
/// second, and the ledger grows by this one entry.
pub proof fn lemma_admitted_once(
    ledger: Map<Seq<char>, Civil>,
    fingerprint: Seq<char>,
    first: Civil,
    second: Civil,
)
    requires
        ledger.dom().finite(),
        !ledger.contains_key(fingerprint),
    ensures
        admitted(ledger, fingerprint, first).0,
        !admitted(admitted(ledger, fingerprint, first).1, fingerprint, second).0,
        admitted(admitted(ledger, fingerprint, first).1, fingerprint, second).1 == admitted(
            ledger,
            fingerprint,
            first,
        ).1,
        admitted(ledger, fingerprint, first).1.len() == ledger.len() + 1,
        admitted(ledger, fingerprint, first).1[fingerprint] == first,
{
}

/// Loading what lists a ledger gives that ledger back: the stored form loses
/// nothing, in whatever order the entries were written.
pub proof fn lemma_listing_restores(entries: Seq<EntryView>, ledger: Map<Seq<char>, Civil>)
    requires
        lists(entries, ledger),
    ensures
        ledger_of(entries) == ledger,
    decreases entries.len(),
{
    if entries.len() == 0 {
        assert(ledger =~= no_entries());
    } else {
        let front = entries.drop_last();
        let last = entries.last();
        let smaller = ledger.remove(last.magnet);
        assert(lists(front, smaller)) by {
            assert forall|i: int| 0 <= i < front.len() implies smaller.contains_key(
                (#[trigger] front[i]).magnet,
            ) && smaller[front[i].magnet] == front[i].date by {
                assert(front[i] == entries[i]);
                assert(entries[i].magnet != entries[entries.len() - 1].magnet);
            }
            assert forall|i: int, j: int| 0 <= i < j < front.len() implies (
            #[trigger] front[i]).magnet != (#[trigger] front[j]).magnet by {
                assert(front[i] == entries[i] && front[j] == entries[j]);
            }
            assert forall|magnet: Seq<char>| #[trigger] smaller.contains_key(magnet) implies exists|
                i: int,
            |
                0 <= i < front.len() && (#[trigger] front[i]).magnet == magnet by {
                assert(ledger.contains_key(magnet));
                let i = choose|i: int|
                    0 <= i < entries.len() && (#[trigger] entries[i]).magnet == magnet;
                assert(front[i].magnet == magnet);
            }
        }
        lemma_listing_restores(front, smaller);
        assert(ledger.contains_key(entries[entries.len() - 1].magnet));
        assert(smaller.insert(last.magnet, last.date) =~= ledger);
    }
}

/// What a write stores, loaded again, is the ledger without the entries
/// older than the cutoff.
pub proof fn lemma_write_then_load(
    stored: Seq<EntryView>,
    ledger: Map<Seq<char>, Civil>,
    cutoff: Civil,
)
    requires
        lists(stored, retained(ledger, cutoff)),
    ensures
        ledger_of(stored) == retained(ledger, cutoff),
        forall|magnet: Seq<char>|
            ledger.contains_key(magnet) && ledger[magnet].on_or_after(cutoff) ==> #[trigger]
                ledger_of(stored).contains_key(magnet) && ledger_of(stored)[magnet]
                == ledger[magnet],
{
    lemma_listing_restores(stored, retained(ledger, cutoff));
    lemma_retention(ledger, cutoff);
}

} // verus!
