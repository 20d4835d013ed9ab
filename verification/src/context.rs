//! Finding records in the pages of a listing, page by page.
//!
//! A listing is addressed by a search URL or by a user URL; either gives the
//! URL of each of its pages. A fetched page is parsed, each of its entries is
//! read into a [`ListingEntry`], and each entry gives a record or the reason
//! why it gives none.

use crate::date::{CalendarDate, Civil};
use crate::dom::{
    attribute, attribute_of, first_below, inner_html, inner_markup, is_selector, outer_html,
    outer_markup, parent_element, parent_of, parse_fragment, parse_selector, select_all,
    select_first, selected, text_view, CssSelector, Element, ElementView,
};
use crate::magnet::{
    read_date, reports, views, DateReading, ExtractMagnetContextErr, Magnet, MagnetContext,
    MagnetView, ParseMagnetDateErr,
};
use crate::number::{decimal_digits, decimal_string};
use crate::pattern::{captures, captures_view, group, group_text, regex_captures};
use vstd::prelude::*;
use vstd::string::StringExecFns;

verus! {

/// The pattern that a search URL matches; its group is the query.
pub const SEARCH_PATTERN: &'static str = "/search/([^/]+)/";

/// The pattern that a user URL matches; its group is the user.
pub const USER_PATTERN: &'static str = "/user/([^/]+)/";

/// The pattern of the size in an info text; its groups are number and unit.
pub const SIZE_PATTERN: &'static str = "Size ([\\d.]+)&nbsp;([^,]+)";

/// How the pages of a listing are addressed.
#[derive(Debug)]
pub enum LinkBuilder {
    /// The results of a search, newest first, in every category.
    Search { query: String },
    /// The uploads of a user, newest first.
    User { user: String },
}

impl LinkBuilder {
    /// The URL of page `page` of the listing.
    pub open spec fn page_link(self, page: nat) -> Seq<char> {
        match self {
            LinkBuilder::Search { query } => "https://thepiratebay10.org/search/"@ + query@ + "/"@
                + decimal_digits(page) + "/3/0"@,
            LinkBuilder::User { user } => "https://thepiratebay10.org/user/"@ + user@ + "/"@
                + decimal_digits(page) + "/3"@,
        }
    }

    /// The URL of page `page` of the listing.
    pub fn link(&self, page: usize) -> (url: String)
        ensures
            url@ == self.page_link(page as nat),
    {
        match self {
            LinkBuilder::Search { query } => {
                let url = "https://thepiratebay10.org/search/".to_owned();
                let url = url.concat(query.as_str());
                let url = url.concat("/");
                let url = url.concat(decimal_string(page).as_str());
                url.concat("/3/0")
            },
            LinkBuilder::User { user } => {
                let url = "https://thepiratebay10.org/user/".to_owned();
                let url = url.concat(user.as_str());
                let url = url.concat("/");
                let url = url.concat(decimal_string(page).as_str());
                url.concat("/3")
            },
        }
    }
}

/// `built` is the way to address the listing of a URL, given what the search
/// pattern and the user pattern find in the URL. The search pattern comes
/// first; a URL that matches neither has no listing.
pub open spec fn is_builder_for(
    built: Option<LinkBuilder>,
    search: Option<Seq<Option<Seq<char>>>>,
    user: Option<Seq<Option<Seq<char>>>>,
) -> bool {
    if search is Some {
        match group(search, 1) {
            Some(text) => built matches Some(LinkBuilder::Search { query }) && query@ == text,
            None => built is None,
        }
    } else {
        match group(user, 1) {
            Some(text) => built matches Some(LinkBuilder::User { user: name }) && name@ == text,
            None => built is None,
        }
    }
}

/// Chooses the way to address a listing from what the two URL patterns found.
pub fn link_builder_from(
    search: &Option<Vec<Option<String>>>,
    user: &Option<Vec<Option<String>>>,
) -> (built: Option<LinkBuilder>)
    ensures
        is_builder_for(built, captures_view(*search), captures_view(*user)),
{
    if search.is_some() {
        match group_text(search, 1) {
            Some(query) => Some(LinkBuilder::Search { query }),
            None => None,
        }
    } else {
        match group_text(user, 1) {
            Some(user) => Some(LinkBuilder::User { user }),
            None => None,
        }
    }
}

/// Tells a search URL from a user URL and gives the way to address the pages
/// of its listing; `None` for any other URL.
pub fn link_builder(url: &str) -> (built: Option<LinkBuilder>)
    ensures
        is_builder_for(
            built,
            regex_captures(SEARCH_PATTERN@, url@),
            regex_captures(USER_PATTERN@, url@),
        ),
{
    let search = captures(SEARCH_PATTERN, url);
    let user = if search.is_some() {
        None
    } else {
        captures(USER_PATTERN, url)
    };
    link_builder_from(&search, &user)
}

/// What the extractor reads off one entry of a listing: the markup of the
/// entry, and the three parts of it that make a record, as far as the entry
/// has them.
#[derive(Debug)]
pub struct ListingEntry {
    /// The markup of the whole entry, for diagnostics.
    pub html: String,
    /// The markup inside the link to the entry's page: the title.
    pub title: Option<String>,
    /// The target of the magnet link.
    pub link: Option<String>,
    /// The markup inside the info block, which names upload date and size.
    pub info: Option<String>,
}

/// Why a run found no records.
#[derive(Debug)]
pub enum ExtractError {
    /// The URL is neither a search URL nor a user URL. Holds the URL.
    UnsupportedUrl(String),
    /// An entry lacks a part of a record.
    Context(ExtractMagnetContextErr),
    /// The upload date of an entry could not be read.
    Date(ParseMagnetDateErr),
}

impl ExtractError {
    /// `text` is the text of the error.
    pub open spec fn is_message(self, text: Seq<char>) -> bool {
        match self {
            ExtractError::UnsupportedUrl(url) => text == "unsupported url: "@ + url@,
            ExtractError::Context(e) => text == e.message_text(),
            ExtractError::Date(e) => e.is_message(text),
        }
    }

    /// The text of the error, for a person to read.
    pub fn message(&self) -> (text: String)
        ensures
            self.is_message(text@),
    {
        match self {
            ExtractError::UnsupportedUrl(url) => "unsupported url: ".to_owned().concat(
                url.as_str(),
            ),
            ExtractError::Context(e) => e.message(),
            ExtractError::Date(e) => e.message(),
        }
    }
}

/// The size that the size pattern found: number and unit with a space in
/// between.
pub open spec fn size_text(found: Option<Seq<Option<Seq<char>>>>) -> Option<Seq<char>> {
    match (group(found, 1), group(found, 2)) {
        (Some(number), Some(unit)) => Some(number + " "@ + unit),
        _ => None,
    }
}

/// `made` is the context of the record of `entry`, given what the size
/// pattern found in its info text. The parts are asked for in the order
/// title, link, info, size; the first that is missing is the error.
pub open spec fn is_context_of(
    made: Result<MagnetContext<'_>, ExtractMagnetContextErr>,
    entry: ListingEntryView,
    size: Option<Seq<Option<Seq<char>>>>,
) -> bool {
    match (entry.title, entry.link, entry.info) {
        (None, _, _) => made matches Err(ExtractMagnetContextErr::PageLink(html)) && html@
            == entry.html,
        (Some(_), None, _) => made matches Err(ExtractMagnetContextErr::MagnetLink(html)) && html@
            == entry.html,
        (Some(_), Some(_), None) => made matches Err(ExtractMagnetContextErr::Info(html)) && html@
            == entry.html,
        (Some(title), Some(link), Some(info)) => match size_text(size) {
            None => made matches Err(ExtractMagnetContextErr::Size(text)) && text@ == info,
            Some(size) => made matches Ok(context) && context.text@ == title && context.link@
                == link && context.size@ == size && context.info@ == info,
        },
    }
}

/// Gathers the parts of a record from an entry and from what the size pattern
/// found in its info text.
pub fn magnet_context<'a>(entry: &'a ListingEntry, size: &Option<Vec<Option<String>>>) -> (made:
    Result<MagnetContext<'a>, ExtractMagnetContextErr>)
    ensures
        is_context_of(made, entry@, captures_view(*size)),
{
    let title = match &entry.title {
        Some(title) => title,
        None => {
            return Err(ExtractMagnetContextErr::PageLink(entry.html.clone()));
        },
    };
    let link = match &entry.link {
        Some(link) => link,
        None => {
            return Err(ExtractMagnetContextErr::MagnetLink(entry.html.clone()));
        },
    };
    let info = match &entry.info {
        Some(info) => info,
        None => {
            return Err(ExtractMagnetContextErr::Info(entry.html.clone()));
        },
    };
    let number = group_text(size, 1);
    let unit = group_text(size, 2);
    match (number, unit) {
        (Some(number), Some(unit)) => Ok(
            MagnetContext {
                text: title.clone(),
                link: link.as_str(),
                size: number.concat(" ").concat(unit.as_str()),
                info: info.clone(),
            },
        ),
        _ => Err(ExtractMagnetContextErr::Size(info.clone())),
    }
}

/// `made` is what `entry` gives on the day `today`, given what the size
/// pattern found in its info text: its record, or the first reason why it
/// gives none. The parts are asked for in the order title, link, info, size,
/// date.
pub open spec fn is_extraction_of(
    made: Result<Magnet, ExtractError>,
    entry: ListingEntryView,
    size: Option<Seq<Option<Seq<char>>>>,
    today: Civil,
) -> bool {
    match (entry.title, entry.link, entry.info) {
        (None, _, _) => made matches Err(
            ExtractError::Context(ExtractMagnetContextErr::PageLink(html)),
        ) && html@ == entry.html,
        (Some(_), None, _) => made matches Err(
            ExtractError::Context(ExtractMagnetContextErr::MagnetLink(html)),
        ) && html@ == entry.html,
        (Some(_), Some(_), None) => made matches Err(
            ExtractError::Context(ExtractMagnetContextErr::Info(html)),
        ) && html@ == entry.html,
        (Some(title), Some(link), Some(info)) => match size_text(size) {
            None => made matches Err(ExtractError::Context(ExtractMagnetContextErr::Size(text)))
                && text@ == info,
            Some(size) => match read_date(info, today) {
                DateReading::Date(date) => made matches Ok(magnet) && magnet@ == (MagnetView {
                    text: title,
                    link,
                    size,
                    date,
                }),
                reading => made matches Err(ExtractError::Date(e)) && reports(e, reading, info),
            },
        },
    }
}

/// An entry whose info text names no size gives no record: where title, link
/// and info text are there and the size pattern finds no size, the entry
/// fails with the error for the size, which holds the info text.
pub proof fn lemma_no_size_is_an_error(
    made: Result<Magnet, ExtractError>,
    entry: ListingEntryView,
    today: Civil,
)
    requires
        entry.title is Some,
        entry.link is Some,
        entry.info is Some,
        size_text(size_found(entry)) is None,
        is_extraction_of(made, entry, size_found(entry), today),
    ensures
        ({
            &&& made matches Err(ExtractError::Context(ExtractMagnetContextErr::Size(text)))
            &&& entry.info matches Some(info)
            &&& text@ == info
        }),
{
}

/// What the size pattern finds in the info text of an entry.
pub open spec fn size_found(entry: ListingEntryView) -> Option<Seq<Option<Seq<char>>>> {
    match entry.info {
        Some(info) => regex_captures(SIZE_PATTERN@, info),
        None => None,
    }
}

/// Makes the record of an entry from what the size pattern found in its info
/// text, on the day `today`.
pub fn extract_with(entry: &ListingEntry, size: &Option<Vec<Option<String>>>, today: CalendarDate)
    -> (made: Result<Magnet, ExtractError>)
    ensures
        is_extraction_of(made, entry@, captures_view(*size), today@),
{
    match magnet_context(entry, size) {
        Err(e) => Err(ExtractError::Context(e)),
        Ok(context) => match Magnet::from_context(context, today) {
            Ok(magnet) => Ok(magnet),
            Err(e) => Err(ExtractError::Date(e)),
        },
    }
}

/// Makes the record of an entry, on the day `today`.
pub fn extract_entry(entry: &ListingEntry, today: CalendarDate) -> (made: Result<
    Magnet,
    ExtractError,
>)
    ensures
        is_extraction_of(made, entry@, size_found(entry@), today@),
{
    let size = match &entry.info {
        Some(info) => captures(SIZE_PATTERN, info.as_str()),
        None => None,
    };
    extract_with(entry, &size, today)
}

/// `entry` has all it takes to give a record on the day `today`, given what
/// the size pattern found in its info text.
pub open spec fn gives_record(
    entry: ListingEntryView,
    size: Option<Seq<Option<Seq<char>>>>,
    today: Civil,
) -> bool {
    &&& entry.title is Some
    &&& entry.link is Some
    &&& entry.info matches Some(info)
    &&& size_text(size) is Some
    &&& read_date(info, today) is Date
}

/// The record of an entry that gives one.
pub open spec fn record_given(
    entry: ListingEntryView,
    size: Option<Seq<Option<Seq<char>>>>,
    today: Civil,
) -> MagnetView
    recommends
        gives_record(entry, size, today),
{
    MagnetView {
        text: entry.title->0,
        link: entry.link->0,
        size: size_text(size)->0,
        date: read_date(entry.info->0, today)->Date_0,
    }
}

/// An entry gives a record or an error, never both; and the record it gives
/// is [`record_given`].
pub proof fn lemma_extraction_is_record_or_error(
    made: Result<Magnet, ExtractError>,
    entry: ListingEntryView,
    size: Option<Seq<Option<Seq<char>>>>,
    today: Civil,
)
    requires
        is_extraction_of(made, entry, size, today),
    ensures
        made is Ok <==> gives_record(entry, size, today),
        made matches Ok(magnet) ==> magnet@ == record_given(entry, size, today),
{
}

/// The position of the first entry that gives no record, if there is one.
pub open spec fn first_failure(entries: Seq<ListingEntryView>, today: Civil) -> Option<int>
    decreases entries.len(),
{
    if entries.len() == 0 {
        None
    } else {
        match first_failure(entries.drop_last(), today) {
            Some(at) => Some(at),
            None => if gives_record(entries.last(), size_found(entries.last()), today) {
                None
            } else {
                Some(entries.len() - 1)
            },
        }
    }
}

/// The entries of a page that stand before the first one without a record;
/// all of them, where every entry gives a record.
pub open spec fn entries_before_failure(
    entries: Seq<ListingEntryView>,
    today: Civil,
) -> Seq<ListingEntryView> {
    match first_failure(entries, today) {
        Some(at) => entries.take(at),
        None => entries,
    }
}

/// The records of the entries of a page, for a page whose entries all give
/// one.
pub open spec fn page_records(entries: Seq<ListingEntryView>, today: Civil) -> Seq<MagnetView> {
    Seq::new(entries.len(), |i: int| record_given(entries[i], size_found(entries[i]), today))
}

/// `made` is what a page with the entries `entries` gives on the day `today`:
/// the records of all its entries in their order, or what the first entry
/// without a record gives instead.
pub open spec fn is_page_of(
    made: Result<Vec<Magnet>, ExtractError>,
    entries: Seq<ListingEntryView>,
    today: Civil,
) -> bool {
    match first_failure(entries, today) {
        None => made matches Ok(magnets) && views(magnets@) == page_records(entries, today),
        Some(at) => made matches Err(e) && 0 <= at < entries.len() && is_extraction_of(
            Err(e),
            entries[at],
            size_found(entries[at]),
            today,
        ),
    }
}

/// Makes the record of each entry on its own: what one entry lacks does not
/// touch the others.
pub fn extract_each(entries: &Vec<ListingEntry>, today: CalendarDate) -> (made: Vec<
    Result<Magnet, ExtractError>,
>)
    ensures
        made@.len() == entries@.len(),
        forall|i: int|
            0 <= i < entries@.len() ==> is_extraction_of(
                #[trigger] made@[i],
                entries@[i]@,
                size_found(entries@[i]@),
                today@,
            ),
{
    let mut made: Vec<Result<Magnet, ExtractError>> = Vec::new();
    let mut i: usize = 0;
    while i < entries.len()
        invariant
            i <= entries.len(),
            made@.len() == i,
            forall|k: int|
                0 <= k < i ==> is_extraction_of(
                    #[trigger] made@[k],
                    entries@[k]@,
                    size_found(entries@[k]@),
                    today@,
                ),
        decreases entries.len() - i,
    {
        made.push(extract_entry(&entries[i], today));
        i += 1;
    }
    made
}

/// Makes the records of the entries of a page. The first entry that gives
/// none ends the work, and its error is the result.
pub fn extract_entries(entries: &Vec<ListingEntry>, today: CalendarDate) -> (made: Result<
    Vec<Magnet>,
    ExtractError,
>)
    ensures
        is_page_of(made, listing_views(entries@), today@),
{
    let mut magnets: Vec<Magnet> = Vec::new();
    let mut i: usize = 0;
    let ghost all = listing_views(entries@);
    assert(all.take(0) =~= Seq::<ListingEntryView>::empty());
    while i < entries.len()
        invariant
            i <= entries.len(),
            all == listing_views(entries@),
            first_failure(all.take(i as int), today@) is None,
            views(magnets@) == page_records(all.take(i as int), today@),
        decreases entries.len() - i,
    {
        let ghost upto = all.take(i + 1);
        assert(upto.drop_last() =~= all.take(i as int));
        assert(upto.last() == entries@[i as int]@);
        match extract_entry(&entries[i], today) {
            Ok(magnet) => {
                let ghost before = views(magnets@);
                let ghost record = magnet@;
                magnets.push(magnet);
                assert(views(magnets@) =~= before.push(record));
                assert(page_records(upto, today@) =~= page_records(
                    all.take(i as int),
                    today@,
                ).push(record));
            },
            Err(e) => {
                proof {
                    lemma_first_failure_stays(all, i + 1, today@);
                }
                return Err(e);
            },
        }
        i += 1;
    }
    assert(all.take(all.len() as int) =~= all);
    Ok(magnets)
}

/// A failure among the first `upto` entries is the first failure of the
/// whole page.
pub proof fn lemma_first_failure_stays(entries: Seq<ListingEntryView>, upto: int, today: Civil)
    requires
        0 <= upto <= entries.len(),
        first_failure(entries.take(upto), today) is Some,
    ensures
        first_failure(entries, today) == first_failure(entries.take(upto), today),
    decreases entries.len() - upto,
{
    if upto < entries.len() {
        let longer = entries.take(upto + 1);
        assert(longer.drop_last() =~= entries.take(upto));
        lemma_first_failure_stays(entries, upto + 1, today);
    } else {
        assert(entries.take(upto) =~= entries);
    }
}

/// The mathematical model of a listing entry.
pub struct ListingEntryView {
    pub html: Seq<char>,
    pub title: Option<Seq<char>>,
    pub link: Option<Seq<char>>,
    pub info: Option<Seq<char>>,
}

impl View for ListingEntry {
    type V = ListingEntryView;

    open spec fn view(&self) -> ListingEntryView {
        ListingEntryView {
            html: self.html@,
            title: text_view(self.title),
            link: text_view(self.link),
            info: text_view(self.info),
        }
    }
}

/// The views of a list of entries.
pub open spec fn listing_views(entries: Seq<ListingEntry>) -> Seq<ListingEntryView> {
    Seq::new(entries.len(), |i: int| entries[i]@)
}

/// The texts of the four selectors that read a listing page: for the title
/// block of an entry, and for the page link, the magnet link and the info
/// block inside an entry.
pub struct SelectorTexts {
    pub block: Seq<char>,
    pub page_link: Seq<char>,
    pub magnet_link: Seq<char>,
    pub info: Seq<char>,
}

/// The markup inside the first element below `element` that matches the
/// selectors `css`, if there is such an element.
pub open spec fn markup_below(element: ElementView, css: Seq<char>) -> Option<Seq<char>> {
    match first_below(element.page, element.key, css) {
        Some(key) => Some(inner_markup(element.page, key)),
        None => None,
    }
}

/// The target of the first link below `element` that matches the selectors
/// `css`: the value of its attribute `href`, if there is such a link and it
/// has a target.
pub open spec fn target_below(element: ElementView, css: Seq<char>) -> Option<Seq<char>> {
    match first_below(element.page, element.key, css) {
        Some(key) => attribute_of(element.page, key, "href"@),
        None => None,
    }
}

/// What is read off the element `element` as an entry, with the selectors
/// `selectors`: its markup, the markup inside its page link, the target of its magnet link,
/// and the markup inside its info block.
pub open spec fn entry_of(
    selectors: SelectorTexts,
    element: ElementView,
) -> ListingEntryView {
    ListingEntryView {
        html: outer_markup(element.page, element.key),
        title: markup_below(element, selectors.page_link),
        link: target_below(element, selectors.magnet_link),
        info: markup_below(element, selectors.info),
    }
}

/// The entries that the title blocks `blocks` of a page give, in their
/// order: one for each block that an element holds, read off that element.
pub open spec fn entries_of(
    selectors: SelectorTexts,
    page: Seq<char>,
    blocks: Seq<Seq<char>>,
) -> Seq<ListingEntryView>
    decreases blocks.len(),
{
    if blocks.len() == 0 {
        Seq::empty()
    } else {
        let rest = entries_of(selectors, page, blocks.drop_last());
        match parent_of(page, blocks.last()) {
            Some(key) => rest.push(entry_of(selectors, ElementView { page, key })),
            None => rest,
        }
    }
}

/// The entries of the page with the text `page`: those that its title
/// blocks give, in the order in which the HTML parser hands the blocks out.
pub open spec fn page_entries(
    selectors: SelectorTexts,
    page: Seq<char>,
) -> Seq<ListingEntryView> {
    entries_of(selectors, page, selected(page, selectors.block))
}

/// The selector of the title block of an entry; the element around it is
/// the entry.
pub const DET_SELECTOR: &'static str = "td > div.detName";

/// The selector of the link to the page of an entry, inside the entry.
pub const PAGE_LINK_SELECTOR: &'static str = "div.detName > a";

/// The selector of the magnet link of an entry: the link right behind the
/// title block.
pub const MAGNET_LINK_SELECTOR: &'static str = "div.detName + a";

/// The selector of the info block of an entry.
pub const INFO_SELECTOR: &'static str = "font";

/// The selectors that find the entries of a listing page and the parts of an
/// entry.
pub struct Context {
    det_selector: CssSelector,
    page_link_selector: CssSelector,
    magnet_link_selector: CssSelector,
    info_selector: CssSelector,
}

/// The HTML parser takes each of the four selectors of a listing page for a
/// selector.
pub open spec fn selectors_are_taken() -> bool {
    &&& is_selector(DET_SELECTOR@)
    &&& is_selector(PAGE_LINK_SELECTOR@)
    &&& is_selector(MAGNET_LINK_SELECTOR@)
    &&& is_selector(INFO_SELECTOR@)
}

impl Context {
    /// The texts that the four selectors of the context were parsed from: for
    /// the title block, the page link, the magnet link and the info block.
    pub closed spec fn selectors(self) -> SelectorTexts {
        SelectorTexts {
            block: self.det_selector@,
            page_link: self.page_link_selector@,
            magnet_link: self.magnet_link_selector@,
            info: self.info_selector@,
        }
    }

    /// The context holds the selectors of a listing page.
    pub open spec fn is_for_listings(self) -> bool {
        self.selectors() == (SelectorTexts {
            block: DET_SELECTOR@,
            page_link: PAGE_LINK_SELECTOR@,
            magnet_link: MAGNET_LINK_SELECTOR@,
            info: INFO_SELECTOR@,
        })
    }

    /// Prepares the selectors of a listing page. There is a context if and
    /// only if the HTML parser takes all four of them, and the context holds
    /// just these four.
    pub fn new() -> (made: Option<Context>)
        ensures
            made is Some <==> selectors_are_taken(),
            made matches Some(context) ==> context.is_for_listings(),
    {
        let det_selector = match parse_selector(DET_SELECTOR) {
            Some(selector) => selector,
            None => {
                return None;
            },
        };
        let page_link_selector = match parse_selector(PAGE_LINK_SELECTOR) {
            Some(selector) => selector,
            None => {
                return None;
            },
        };
        let magnet_link_selector = match parse_selector(MAGNET_LINK_SELECTOR) {
            Some(selector) => selector,
            None => {
                return None;
            },
        };
        let info_selector = match parse_selector(INFO_SELECTOR) {
            Some(selector) => selector,
            None => {
                return None;
            },
        };
        Some(Context { det_selector, page_link_selector, magnet_link_selector, info_selector })
    }

    /// The title of an entry: the markup inside the link to its page.
    fn get_link_text(&self, element: &Element<'_>) -> (text: Option<String>)
        ensures
            text_view(text) == markup_below(element@, self.selectors().page_link),
    {
        match select_first(element, &self.page_link_selector) {
            Some(link) => Some(inner_html(&link)),
            None => None,
        }
    }

    /// The target of the magnet link of an entry.
    fn get_magnet_link(&self, element: &Element<'_>) -> (target: Option<String>)
        ensures
            text_view(target) == target_below(element@, self.selectors().magnet_link),
    {
        match select_first(element, &self.magnet_link_selector) {
            Some(link) => attribute(&link, "href"),
            None => None,
        }
    }

    /// The info text of an entry.
    fn get_info(&self, element: &Element<'_>) -> (text: Option<String>)
        ensures
            text_view(text) == markup_below(element@, self.selectors().info),
    {
        match select_first(element, &self.info_selector) {
            Some(info) => Some(inner_html(&info)),
            None => None,
        }
    }

    /// Reads the entries of a listing page, in the order in which the HTML
    /// parser hands out their title blocks. An entry is the element around a
    /// title block; a title block that no element holds gives none.
    pub fn entries(&self, page: &str) -> (entries: Vec<ListingEntry>)
        ensures
            listing_views(entries@) == page_entries(self.selectors(), page@),
    {
        let document = parse_fragment(page);
        let titles = select_all(&document, &self.det_selector);
        let mut entries: Vec<ListingEntry> = Vec::new();
        let mut i: usize = 0;
        let ghost blocks = selected(page@, self.selectors().block);
        assert(blocks.take(0) =~= Seq::<Seq<char>>::empty());
        while i < titles.len()
            invariant
                i <= titles.len(),
                titles@.len() == blocks.len(),
                forall|k: int|
                    0 <= k < titles@.len() ==> (#[trigger] titles@[k])@ == (ElementView {
                        page: page@,
                        key: blocks[k],
                    }),
                listing_views(entries@) == entries_of(
                    self.selectors(),
                    page@,
                    blocks.take(i as int),
                ),
            decreases titles.len() - i,
        {
            let ghost upto = blocks.take(i + 1);
            assert(upto.drop_last() =~= blocks.take(i as int));
            assert(upto.last() == blocks[i as int]);
            match parent_element(&titles[i]) {
                Some(element) => {
                    let entry = ListingEntry {
                        html: outer_html(&element),
                        title: self.get_link_text(&element),
                        link: self.get_magnet_link(&element),
                        info: self.get_info(&element),
                    };
                    let ghost before = listing_views(entries@);
                    entries.push(entry);
                    assert(listing_views(entries@) =~= before.push(entry@));
                },
                None => {},
            }
            i += 1;
        }
        assert(blocks.take(blocks.len() as int) =~= blocks);
        entries
    }

    /// Makes the records of a listing page, on the day `today`: what
    /// [`extract_entries`] makes of the entries of the page.
    pub fn extract_page(&self, page: &str, today: CalendarDate) -> (made: Result<
        Vec<Magnet>,
        ExtractError,
    >)
        ensures
            is_page_of(made, page_entries(self.selectors(), page@), today@),
    {
        let entries = self.entries(page);
        extract_entries(&entries, today)
    }
}

} // verus!
