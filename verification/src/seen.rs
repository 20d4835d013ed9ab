//! The set of links seen in one run.
//!
//! Listings overlap from page to page, so a run remembers every link it has
//! come across and keeps a record only at the first sight of its link.

use crate::magnet::{views, Magnet, MagnetView};
use vstd::prelude::*;

verus! {

/// A set of links, kept in a hash set of the `hashbrown` crate.
///
/// The verifier does not look into the struct: the type of the hash set
/// cannot be spelled out in full from outside its crate, which keeps the
/// trait of its allocator parameter to itself. What the set holds is known by
/// the name [`links_held`] alone.
#[verifier::external_body]
pub struct LinkSet {
    links: hashbrown::HashSet<String>,
}

/// The links that a set holds.
pub uninterp spec fn links_held(set: LinkSet) -> Set<Seq<char>>;

impl View for LinkSet {
    type V = Set<Seq<char>>;

    open spec fn view(&self) -> Set<Seq<char>> {
        links_held(*self)
    }
}

/// Makes an empty set, with `hashbrown::HashSet::new`.
#[verifier::external_body]
fn hash_set_new() -> (set: LinkSet)
    ensures
        links_held(set) == Set::<Seq<char>>::empty(),
{
    LinkSet { links: hashbrown::HashSet::new() }
}

/// Adds a link with `hashbrown::HashSet::insert`, which says whether the set
/// lacked it: strings are hashed and compared by their characters.
#[verifier::external_body]
fn hash_set_insert(set: &mut LinkSet, link: String) -> (fresh: bool)
    ensures
        fresh == !links_held(*old(set)).contains(link@),
        links_held(*final(set)) == links_held(*old(set)).insert(link@),
{
    set.links.insert(link)
}

/// Looks a link up with `hashbrown::HashSet::contains`.
#[verifier::external_body]
fn hash_set_contains(set: &LinkSet, link: &str) -> (found: bool)
    ensures
        found == links_held(*set).contains(link@),
{
    set.links.contains(link)
}

/// The records of `page` that a run keeps when it has seen the links `seen`:
/// those whose link is new at the point where they stand.
pub open spec fn fresh_records(page: Seq<MagnetView>, seen: Set<Seq<char>>) -> Seq<MagnetView>
    decreases page.len(),
{
    if page.len() == 0 {
        Seq::empty()
    } else {
        let rest = fresh_records(page.drop_last(), seen);
        let last = page.last();
        if seen.contains(last.link) || links_of(page.drop_last()).contains(last.link) {
            rest
        } else {
            rest.push(last)
        }
    }
}

/// The links of the records of a page.
pub open spec fn links_of(page: Seq<MagnetView>) -> Set<Seq<char>> {
    Set::new(|link: Seq<char>| exists|i: int| 0 <= i < page.len() && #[trigger] page[i].link == link)
}

impl LinkSet {
    /// The empty set.
    pub fn new() -> (set: LinkSet)
        ensures
            set@ == Set::<Seq<char>>::empty(),
    {
        hash_set_new()
    }

    /// Adds `link`, and says whether it was new.
    pub fn insert(&mut self, link: String) -> (fresh: bool)
        ensures
            fresh == !old(self)@.contains(link@),
            final(self)@ == old(self)@.insert(link@),
    {
        hash_set_insert(self, link)
    }

    /// Whether the set holds `link`.
    pub fn contains(&self, link: &str) -> (found: bool)
        ensures
            found == self@.contains(link@),
    {
        hash_set_contains(self, link)
    }

    /// Keeps the records of `page` whose link is new, in their order, and
    /// remembers the links of all of them.
    pub fn keep_fresh(&mut self, page: Vec<Magnet>) -> (kept: Vec<Magnet>)
        ensures
            views(kept@) == fresh_records(views(page@), old(self)@),
            final(self)@ == old(self)@.union(links_of(views(page@))),
    {
        let mut kept: Vec<Magnet> = Vec::new();
        let mut i: usize = 0;
        let ghost seen = self@;
        assert(views(page@).take(0) =~= Seq::<MagnetView>::empty());
        assert(links_of(Seq::<MagnetView>::empty()) =~= Set::<Seq<char>>::empty());
        assert(seen.union(Set::<Seq<char>>::empty()) =~= seen);
        while i < page.len()
            invariant
                i <= page.len(),
                views(kept@) == fresh_records(views(page@).take(i as int), seen),
                self@ == seen.union(links_of(views(page@).take(i as int))),
            decreases page.len() - i,
        {
            let record = page[i].clone();
            let ghost before = views(page@).take(i as int);
            let ghost after = views(page@).take(i + 1);
            proof {
                assert(after.drop_last() =~= before);
                assert(after.last() == record@);
                lemma_links_of_push(before, record@);
                assert(after =~= before.push(record@));
            }
            let fresh = self.insert(record.link.clone());
            if fresh {
                let ghost old_kept = views(kept@);
                kept.push(record);
                assert(views(kept@) =~= old_kept.push(record@));
            }
            assert(self@ =~= seen.union(links_of(after)));
            i += 1;
        }
        assert(views(page@).take(page@.len() as int) =~= views(page@));
        kept
    }
}

/// The links of a page with one more record are those of the page and the
/// link of that record.
pub proof fn lemma_links_of_push(page: Seq<MagnetView>, record: MagnetView)
    ensures
        links_of(page.push(record)) == links_of(page).insert(record.link),
{
    let longer = page.push(record);
    assert forall|link: Seq<char>| links_of(longer).contains(link) <==> links_of(page).insert(
        record.link,
    ).contains(link) by {
        if links_of(longer).contains(link) {
            let i = choose|i: int| 0 <= i < longer.len() && #[trigger] longer[i].link == link;
            if i < page.len() {
                assert(page[i].link == link);
            }
        }
        if links_of(page).contains(link) {
            let i = choose|i: int| 0 <= i < page.len() && #[trigger] page[i].link == link;
            assert(longer[i].link == link);
        }
        if link == record.link {
            assert(longer[page.len() as int].link == link);
        }
    }
    assert(links_of(longer) =~= links_of(page).insert(record.link));
}

/// No two records of the list have one link.
pub open spec fn links_distinct(records: Seq<MagnetView>) -> bool {
    forall|i: int, j: int|
        0 <= i < j < records.len() ==> (#[trigger] records[i]).link != (#[trigger] records[j]).link
}

/// What a run keeps of a page: no link twice, no link that it had seen, and
/// every other link of the page.
pub proof fn lemma_fresh_records(page: Seq<MagnetView>, seen: Set<Seq<char>>)
    ensures
        links_distinct(fresh_records(page, seen)),
        links_of(fresh_records(page, seen)) == links_of(page).difference(seen),
    decreases page.len(),
{
    let kept = fresh_records(page, seen);
    if page.len() == 0 {
        assert(links_of(kept) =~= links_of(page).difference(seen));
    } else {
        let front = page.drop_last();
        let last = page.last();
        let rest = fresh_records(front, seen);
        lemma_fresh_records(front, seen);
        assert(page =~= front.push(last));
        lemma_links_of_push(front, last);
        if seen.contains(last.link) || links_of(front).contains(last.link) {
            assert(links_of(kept) =~= links_of(page).difference(seen));
        } else {
            lemma_links_of_push(rest, last);
            assert(links_of(kept) =~= links_of(page).difference(seen));
            assert forall|i: int, j: int| 0 <= i < j < kept.len() implies (#[trigger] kept[i]).link
                != (#[trigger] kept[j]).link by {
                if j < rest.len() {
                    assert(kept[i] == rest[i] && kept[j] == rest[j]);
                } else {
                    assert(kept[i] == rest[i]);
                    assert(links_of(rest).contains(rest[i].link));
                }
            }
        }
    }
}

/// Two pages taken in one after the other are kept as one long page is.
pub proof fn lemma_fresh_records_of_two_pages(
    first: Seq<MagnetView>,
    second: Seq<MagnetView>,
    seen: Set<Seq<char>>,
)
    ensures
        fresh_records(first + second, seen) == fresh_records(first, seen) + fresh_records(
            second,
            seen.union(links_of(first)),
        ),
    decreases second.len(),
{
    let both = first + second;
    let later = seen.union(links_of(first));
    if second.len() == 0 {
        assert(both =~= first);
        assert(fresh_records(first, seen) + fresh_records(second, later) =~= fresh_records(
            first,
            seen,
        ));
    } else {
        let front = second.drop_last();
        let last = second.last();
        lemma_fresh_records_of_two_pages(first, front, seen);
        assert(both.drop_last() =~= first + front);
        assert(both.last() == last);
        lemma_links_of_concat(first, front);
        let kept_front = fresh_records(first, seen) + fresh_records(front, later);
        if seen.contains(last.link) || links_of(first + front).contains(last.link) {
            assert(later.contains(last.link) || links_of(front).contains(last.link));
        } else {
            assert(!(later.contains(last.link) || links_of(front).contains(last.link)));
            assert(kept_front.push(last) =~= fresh_records(first, seen) + fresh_records(
                front,
                later,
            ).push(last));
        }
    }
}

/// The links of two pages are the links of the one and of the other.
pub proof fn lemma_links_of_concat(first: Seq<MagnetView>, second: Seq<MagnetView>)
    ensures
        links_of(first + second) == links_of(first).union(links_of(second)),
{
    let both = first + second;
    assert forall|link: Seq<char>| links_of(both).contains(link) <==> links_of(first).union(
        links_of(second),
    ).contains(link) by {
        if links_of(both).contains(link) {
            let i = choose|i: int| 0 <= i < both.len() && #[trigger] both[i].link == link;
            if i < first.len() {
                assert(first[i].link == link);
            } else {
                assert(second[i - first.len()].link == link);
            }
        }
        if links_of(first).contains(link) {
            let i = choose|i: int| 0 <= i < first.len() && #[trigger] first[i].link == link;
            assert(both[i].link == link);
        }
        if links_of(second).contains(link) {
            let i = choose|i: int| 0 <= i < second.len() && #[trigger] second[i].link == link;
            assert(both[i + first.len()].link == link);
        }
    }
    assert(links_of(both) =~= links_of(first).union(links_of(second)));
}

/// A link that stands on two pages of one run is kept once: what the run
/// keeps of the two pages has no link twice, and has every link of either
/// page that the run had not seen.
pub proof fn lemma_link_kept_once(
    first: Seq<MagnetView>,
    second: Seq<MagnetView>,
    seen: Set<Seq<char>>,
)
    ensures
        links_distinct(
            fresh_records(first, seen) + fresh_records(second, seen.union(links_of(first))),
        ),
        links_of(fresh_records(first, seen) + fresh_records(second, seen.union(links_of(first))))
            == links_of(first).union(links_of(second)).difference(seen),
{
    lemma_fresh_records_of_two_pages(first, second, seen);
    lemma_fresh_records(first + second, seen);
    lemma_links_of_concat(first, second);
}

} // verus!
