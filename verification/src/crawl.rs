//! The walk through the pages of one listing.
//!
//! Fetching a page is not the library's work. A [`Crawl`] says which page is
//! due, takes what was fetched, and keeps the records whose link the run has
//! not seen before. Pages are numbered from 1, and a walk of `limit` pages
//! asks for the pages 1 to `limit`, in this order.
//!
//! A page is taken in entry by entry: the record of an entry is made, then
//! its link is looked up among the links seen and remembered. The first
//! entry that gives no record ends the walk with its error; the links of the
//! records made before it stay remembered.

use crate::context::{
    entries_before_failure, extract_entry, first_failure, is_builder_for, is_page_of,
    lemma_extraction_is_record_or_error, lemma_first_failure_stays, link_builder, listing_views,
    page_entries, page_records, size_found, Context,
    ExtractError, LinkBuilder, ListingEntryView, SelectorTexts, SEARCH_PATTERN, USER_PATTERN,
};
use crate::date::{CalendarDate, Civil};
use crate::magnet::{views, Magnet, MagnetView};
use crate::pattern::regex_captures;
use crate::seen::{
    fresh_records, lemma_fresh_records, lemma_links_of_push, links_distinct, links_of, LinkSet,
};
use vstd::prelude::*;

verus! {

/// The state of a walk: how the pages are addressed, how many there are to
/// fetch, how many have been taken in, and the records kept so far.
pub struct Crawl {
    pub builder: LinkBuilder,
    pub limit: usize,
    pub fetched: usize,
    pub magnets: Vec<Magnet>,
}

impl Crawl {
    /// A page is due.
    pub open spec fn is_due(self) -> bool {
        self.fetched < self.limit
    }

    /// Begins a walk of `limit` pages through the listing of `url`. A URL
    /// that is neither a search URL nor a user URL is refused, before any
    /// page is asked for.
    pub fn start(url: &str, limit: usize) -> (begun: Result<Crawl, ExtractError>)
        ensures
            match begun {
                Ok(crawl) => is_builder_for(
                    Some(crawl.builder),
                    regex_captures(SEARCH_PATTERN@, url@),
                    regex_captures(USER_PATTERN@, url@),
                ) && crawl.limit == limit && crawl.fetched == 0 && crawl.magnets@.len() == 0,
                Err(e) => {
                    &&& is_builder_for(
                        None,
                        regex_captures(SEARCH_PATTERN@, url@),
                        regex_captures(USER_PATTERN@, url@),
                    )
                    &&& e matches ExtractError::UnsupportedUrl(refused)
                    &&& refused@ == url@
                },
            },
    {
        match link_builder(url) {
            Some(builder) => Ok(Crawl { builder, limit, fetched: 0, magnets: Vec::new() }),
            None => Err(ExtractError::UnsupportedUrl(url.to_owned())),
        }
    }

    /// The URL of the page that is due, or `None` when the walk is done.
    pub fn next_url(&self) -> (url: Option<String>)
        ensures
            match url {
                Some(url) => self.is_due() && url@ == self.builder.page_link(
                    (self.fetched + 1) as nat,
                ),
                None => !self.is_due(),
            },
    {
        if self.fetched < self.limit {
            Some(self.builder.link(self.fetched + 1))
        } else {
            None
        }
    }

    /// The walk `after` is what this walk becomes by taking in the records
    /// `page`, and the links seen become `seen_after`. Where a page was due,
    /// the records whose link is new are kept, in their order, and every link
    /// of the page is remembered; where none was due, nothing changes.
    pub open spec fn takes_in(
        self,
        after: Crawl,
        page: Seq<MagnetView>,
        seen: Set<Seq<char>>,
        seen_after: Set<Seq<char>>,
    ) -> bool {
        &&& after.builder == self.builder
        &&& after.limit == self.limit
        &&& if self.is_due() {
            &&& after.fetched == self.fetched + 1
            &&& views(after.magnets@) == views(self.magnets@) + fresh_records(page, seen)
            &&& seen_after == seen.union(links_of(page))
        } else {
            &&& after.fetched == self.fetched
            &&& after.magnets == self.magnets
            &&& seen_after == seen
        }
    }

    /// Takes in the records of the page that was due.
    pub fn accept(&mut self, page: Vec<Magnet>, filter: &mut LinkSet)
        ensures
            old(self).takes_in(*final(self), views(page@), old(filter)@, final(filter)@),
    {
        if self.fetched < self.limit {
            let ghost before = views(self.magnets@);
            let mut kept = filter.keep_fresh(page);
            let ghost added = views(kept@);
            self.magnets.append(&mut kept);
            self.fetched = self.fetched + 1;
            assert(views(self.magnets@) =~= before + added);
        }
    }

    /// The walk `after` is what this walk becomes by taking in the records
    /// `records` of a page that an entry without a record cut short, and the
    /// links seen become `seen_after`. The records are kept and their links
    /// remembered as [`Crawl::takes_in`] says, but the page stays due.
    pub open spec fn takes_part(
        self,
        after: Crawl,
        records: Seq<MagnetView>,
        seen: Set<Seq<char>>,
        seen_after: Set<Seq<char>>,
    ) -> bool {
        &&& after.builder == self.builder
        &&& after.limit == self.limit
        &&& after.fetched == self.fetched
        &&& if self.is_due() {
            &&& views(after.magnets@) == views(self.magnets@) + fresh_records(records, seen)
            &&& seen_after == seen.union(links_of(records))
        } else {
            &&& after.magnets == self.magnets
            &&& seen_after == seen
        }
    }

    /// `taken` and the walk `after` are what feeding a page with the entries
    /// `entries` gives. The entries are taken one by one: the record of an
    /// entry is made, then its link is looked up and remembered. Where every
    /// entry gives a record, this takes the whole page in, as
    /// [`Crawl::takes_in`] says. Else the error of the first entry without a
    /// record is the result; the records of the entries before it are taken
    /// in all the same, and their links stay remembered.
    pub open spec fn is_fed(
        self,
        after: Crawl,
        taken: Result<(), ExtractError>,
        entries: Seq<ListingEntryView>,
        seen: Set<Seq<char>>,
        seen_after: Set<Seq<char>>,
        today: Civil,
    ) -> bool {
        match taken {
            Ok(_) => first_failure(entries, today) is None && self.takes_in(
                after,
                page_records(entries, today),
                seen,
                seen_after,
            ),
            Err(e) => is_page_of(Err(e), entries, today) && self.takes_part(
                after,
                page_records(entries_before_failure(entries, today), today),
                seen,
                seen_after,
            ),
        }
    }

    /// Takes in the page that was due, as it was fetched, entry by entry: the
    /// record of an entry is made on the day `today`, then its link is looked
    /// up in the links seen and remembered, and the record is kept if the
    /// link was new. The first entry that gives no record ends the work with
    /// its error. The outcome is what [`Crawl::is_fed`] says of the entries of
    /// the page.
    pub fn feed(
        &mut self,
        context: &Context,
        page: &str,
        filter: &mut LinkSet,
        today: CalendarDate,
    ) -> (taken: Result<(), ExtractError>)
        ensures
            old(self).is_fed(
                *final(self),
                taken,
                page_entries(context.selectors(), page@),
                old(filter)@,
                final(filter)@,
                today@,
            ),
    {
        let entries = context.entries(page);
        let due = self.fetched < self.limit;
        let ghost all = listing_views(entries@);
        let ghost seen = filter@;
        let ghost kept = views(self.magnets@);
        let mut i: usize = 0;
        proof {
            assert(all.take(0) =~= Seq::<ListingEntryView>::empty());
            assert(page_records(all.take(0), today@) =~= Seq::<MagnetView>::empty());
            assert(links_of(Seq::<MagnetView>::empty()) =~= Set::<Seq<char>>::empty());
            assert(seen.union(Set::<Seq<char>>::empty()) =~= seen);
            assert(kept + Seq::<MagnetView>::empty() =~= kept);
        }
        while i < entries.len()
            invariant
                i <= entries.len(),
                all == listing_views(entries@),
                all == page_entries(context.selectors(), page@),
                due == old(self).is_due(),
                self.builder == old(self).builder,
                self.limit == old(self).limit,
                self.fetched == old(self).fetched,
                kept == views(old(self).magnets@),
                seen == old(filter)@,
                first_failure(all.take(i as int), today@) is None,
                old(self).takes_part(
                    *self,
                    page_records(all.take(i as int), today@),
                    seen,
                    filter@,
                ),
            decreases entries.len() - i,
        {
            let ghost upto = all.take(i + 1);
            let ghost records = page_records(all.take(i as int), today@);
            proof {
                assert(upto.drop_last() =~= all.take(i as int));
                assert(upto.last() == entries@[i as int]@);
            }
            match extract_entry(&entries[i], today) {
                Ok(magnet) => {
                    let ghost record = magnet@;
                    proof {
                        assert(page_records(upto, today@) =~= records.push(record));
                        assert(records.push(record).drop_last() =~= records);
                        lemma_links_of_push(records, record);
                    }
                    if due {
                        let ghost held = views(self.magnets@);
                        let fresh = filter.insert(magnet.link.clone());
                        if fresh {
                            self.magnets.push(magnet);
                            assert(views(self.magnets@) =~= held.push(record));
                            assert(kept + fresh_records(records, seen).push(record) =~= (kept
                                + fresh_records(records, seen)).push(record));
                        }
                        assert(filter@ =~= seen.union(links_of(records.push(record))));
                    }
                },
                Err(e) => {
                    proof {
                        lemma_extraction_is_record_or_error(
                            Err(e),
                            upto.last(),
                            size_found(upto.last()),
                            today@,
                        );
                        assert(first_failure(upto, today@) == Some(i as int));
                        lemma_first_failure_stays(all, i + 1, today@);
                        assert(entries_before_failure(all, today@) == all.take(i as int));
                        assert(all[i as int] == upto.last());
                    }
                    return Err(e);
                },
            }
            i += 1;
        }
        proof {
            assert(all.take(all.len() as int) =~= all);
        }
        if due {
            self.fetched = self.fetched + 1;
        }
        Ok(())
    }

    /// Ends the walk and hands out the records it kept.
    pub fn finish(self) -> (magnets: Vec<Magnet>)
        ensures
            magnets == self.magnets,
    {
        self.magnets
    }
}

/// `kept` is what a run may have kept since it had seen the links `before`,
/// when it has seen the links `now`: no link twice, no link that it had seen
/// before, and every link among those it has seen now.
pub open spec fn kept_since(
    kept: Seq<MagnetView>,
    before: Set<Seq<char>>,
    now: Set<Seq<char>>,
) -> bool {
    &&& links_distinct(kept)
    &&& before.subset_of(now)
    &&& forall|i: int|
        0 <= i < kept.len() ==> !before.contains((#[trigger] kept[i]).link) && now.contains(
            kept[i].link,
        )
}

/// Taking in one more page keeps what a run has kept in order: still no
/// link twice, and none that the run had seen at its start.
pub proof fn lemma_kept_since_grows(
    kept: Seq<MagnetView>,
    page: Seq<MagnetView>,
    before: Set<Seq<char>>,
    now: Set<Seq<char>>,
)
    requires
        kept_since(kept, before, now),
    ensures
        kept_since(kept + fresh_records(page, now), before, now.union(links_of(page))),
{
    let fresh = fresh_records(page, now);
    let all = kept + fresh;
    let later = now.union(links_of(page));
    lemma_fresh_records(page, now);
    assert forall|i: int| 0 <= i < fresh.len() implies !now.contains((#[trigger] fresh[i]).link)
        && links_of(page).contains(fresh[i].link) by {
        assert(links_of(fresh).contains(fresh[i].link));
    }
    assert forall|i: int| 0 <= i < all.len() implies !before.contains((#[trigger] all[i]).link)
        && later.contains(all[i].link) by {
        if i < kept.len() {
            assert(all[i] == kept[i]);
        } else {
            assert(all[i] == fresh[i - kept.len()]);
        }
    }
    assert forall|i: int, j: int| 0 <= i < j < all.len() implies (#[trigger] all[i]).link != (
    #[trigger] all[j]).link by {
        if j < kept.len() {
            assert(all[i] == kept[i] && all[j] == kept[j]);
        } else if i < kept.len() {
            assert(all[i] == kept[i] && all[j] == fresh[j - kept.len()]);
        } else {
            assert(all[i] == fresh[i - kept.len()] && all[j] == fresh[j - kept.len()]);
        }
    }
}

/// Every entry of every page gives a record.
pub open spec fn all_pages_give(pages: Seq<Seq<ListingEntryView>>, today: Civil) -> bool {
    forall|i: int| 0 <= i < pages.len() ==> first_failure(#[trigger] pages[i], today) is None
}

/// What a walk through pages keeps, and the links seen afterwards, for pages
/// whose entries all give a record and a run that had seen the links `seen`:
/// page after page, the records whose link is new are kept.
pub open spec fn walked(
    pages: Seq<Seq<ListingEntryView>>,
    seen: Set<Seq<char>>,
    today: Civil,
) -> (
    Seq<MagnetView>,
    Set<Seq<char>>,
)
    decreases pages.len(),
{
    if pages.len() == 0 {
        (Seq::empty(), seen)
    } else {
        let (kept, seen) = walked(pages.drop_last(), seen, today);
        let records = page_records(pages.last(), today);
        (kept + fresh_records(records, seen), seen.union(links_of(records)))
    }
}

/// What a walk keeps has no link twice and no link that the run had seen,
/// and the run has seen all its links afterwards.
pub proof fn lemma_walked_keeps_links_once(
    pages: Seq<Seq<ListingEntryView>>,
    seen: Set<Seq<char>>,
    today: Civil,
)
    ensures
        kept_since(walked(pages, seen, today).0, seen, walked(pages, seen, today).1),
    decreases pages.len(),
{
    if pages.len() > 0 {
        let (kept, now) = walked(pages.drop_last(), seen, today);
        lemma_walked_keeps_links_once(pages.drop_last(), seen, today);
        lemma_kept_since_grows(kept, page_records(pages.last(), today), seen, now);
    }
}

/// `made` is what a walk gives whose pages had the entries `read`, for a run
/// that had seen the links `seen` and has seen the links `seen_after`
/// afterwards. Where every entry gives a record, the walk gives what
/// [`walked`] says. Else `read` ends with the first page that has an entry
/// without a record, and the error of that entry is the result. The run has
/// then seen the links of the records of the pages before, and of the
/// records of the entries that stand before that entry on its page.
pub open spec fn is_walk_of(
    made: Result<Vec<Magnet>, ExtractError>,
    read: Seq<Seq<ListingEntryView>>,
    seen: Set<Seq<char>>,
    seen_after: Set<Seq<char>>,
    today: Civil,
) -> bool {
    match made {
        Ok(magnets) => all_pages_give(read, today) && (views(magnets@), seen_after) == walked(
            read,
            seen,
            today,
        ),
        Err(e) => {
            &&& read.len() > 0
            &&& all_pages_give(read.drop_last(), today)
            &&& is_page_of(Err(e), read.last(), today)
            &&& seen_after == walked(
                read.drop_last().push(entries_before_failure(read.last(), today)),
                seen,
                today,
            ).1
        },
    }
}

/// The entries of each of the pages, as the selectors `selectors` find them.
pub open spec fn pages_read(
    selectors: SelectorTexts,
    pages: Seq<String>,
) -> Seq<Seq<ListingEntryView>> {
    Seq::new(pages.len(), |i: int| page_entries(selectors, pages[i]@))
}

impl Context {
    /// Walks through the listing of `url`, given its pages as they were
    /// fetched, page 1 first, and hands out the records that are new to the
    /// run. A URL that is neither a search URL nor a user URL is refused.
    /// Else the outcome is what [`is_walk_of`] says of the entries of the
    /// pages: of all pages if every entry gives a record, else of the pages
    /// up to the first that has an entry without one.
    pub fn extract_recent(
        &self,
        url: &str,
        pages: &Vec<String>,
        filter: &mut LinkSet,
        today: CalendarDate,
    ) -> (made: Result<Vec<Magnet>, ExtractError>)
        ensures
            if is_builder_for(
                None,
                regex_captures(SEARCH_PATTERN@, url@),
                regex_captures(USER_PATTERN@, url@),
            ) {
                &&& made matches Err(ExtractError::UnsupportedUrl(refused))
                &&& refused@ == url@
                &&& final(filter)@ == old(filter)@
            } else {
                exists|upto: int|
                    #![trigger pages_read(self.selectors(), pages@).take(upto)]
                    {
                        &&& 0 <= upto <= pages@.len()
                        &&& made is Ok ==> upto == pages@.len()
                        &&& is_walk_of(
                            made,
                            pages_read(self.selectors(), pages@).take(upto),
                            old(filter)@,
                            final(filter)@,
                            today@,
                        )
                    }
            },
            made matches Ok(magnets) ==> kept_since(views(magnets@), old(filter)@, final(filter)@),
    {
        let mut crawl = match Crawl::start(url, pages.len()) {
            Ok(crawl) => crawl,
            Err(e) => {
                return Err(e);
            },
        };
        let mut i: usize = 0;
        let ghost all = pages_read(self.selectors(), pages@);
        assert(all.take(0) =~= Seq::<Seq<ListingEntryView>>::empty());
        while i < pages.len()
            invariant
                i <= pages.len(),
                crawl.limit == pages.len(),
                crawl.fetched == i,
                all == pages_read(self.selectors(), pages@),
                all_pages_give(all.take(i as int), today@),
                (views(crawl.magnets@), filter@) == walked(
                    all.take(i as int),
                    old(filter)@,
                    today@,
                ),
                !is_builder_for(
                    None,
                    regex_captures(SEARCH_PATTERN@, url@),
                    regex_captures(USER_PATTERN@, url@),
                ),
            decreases pages.len() - i,
        {
            let ghost read = all.take(i as int);
            let ghost longer = all.take(i + 1);
            proof {
                assert(longer.drop_last() =~= read);
                assert(longer.last() == page_entries(self.selectors(), pages@[i as int]@));
            }
            match crawl.feed(self, pages[i].as_str(), filter, today) {
                Ok(_) => {
                    proof {
                        assert forall|k: int| 0 <= k < longer.len() implies first_failure(
                            #[trigger] longer[k],
                            today@,
                        ) is None by {
                            if k < read.len() {
                                assert(longer[k] == read[k]);
                            }
                        }
                    }
                },
                Err(e) => {
                    proof {
                        let cut = read.push(entries_before_failure(longer.last(), today@));
                        assert(cut.drop_last() =~= read);
                        assert(cut.last() == entries_before_failure(longer.last(), today@));
                        assert(is_walk_of(Err(e), longer, old(filter)@, filter@, today@));
                    }
                    return Err(e);
                },
            }
            i += 1;
        }
        proof {
            assert(all.take(all.len() as int) =~= all);
            lemma_walked_keeps_links_once(all, old(filter)@, today@);
        }
        let made = Ok(crawl.finish());
        assert(is_walk_of(made, all.take(pages@.len() as int), old(filter)@, filter@, today@));
        made
    }
}

} // verus!
