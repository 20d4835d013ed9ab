use yogo::context::{
    extract_each, extract_entries, extract_entry, link_builder, magnet_context, Context,
    ExtractError, LinkBuilder, ListingEntry,
};
use yogo::crawl::Crawl;
use yogo::date::CalendarDate;
use yogo::magnet::{ExtractMagnetContextErr, Magnet, ParseMagnetDateErr};
use yogo::seen::LinkSet;

fn date(year: i32, month: u32, day: u32) -> CalendarDate {
    CalendarDate::from_ymd(year, month, day).expect("a day of the calendar")
}

fn row(title: &str, hash: &str, info: &str) -> String {
    format!(
        "<tr><td class=\"vertTh\"><a href=\"/browse/500\">Category</a></td><td>\
         <div class=\"detName\"><a href=\"/torrent/1/x\" class=\"detLink\">{title}</a></div>\
         <a href=\"magnet:?xt=urn:btih:{hash}&amp;dn=x\" title=\"Download\">get</a>\
         <font class=\"detDesc\">{info}</font></td><td align=\"right\">7</td></tr>"
    )
}

fn page(rows: &[String]) -> String {
    format!("<table id=\"searchResult\"><tbody>{}</tbody></table>", rows.concat())
}

fn entry(title: Option<&str>, link: Option<&str>, info: Option<&str>) -> ListingEntry {
    ListingEntry {
        html: String::from("<td>markup</td>"),
        title: title.map(String::from),
        link: link.map(String::from),
        info: info.map(String::from),
    }
}

fn record(text: &str, link: &str) -> Magnet {
    Magnet {
        text: String::from(text),
        link: String::from(link),
        size: String::from("1 MiB"),
        date: date(2022, 5, 2),
    }
}

const RECENT: &str = "Uploaded 05-02&nbsp;18:37, Size 580.9&nbsp;MiB, ULed by <a>someone</a>";
const OLDER: &str = "Uploaded 12-13&nbsp;2021, Size 487.16&nbsp;MiB, ULed by <a>someone</a>";

#[test]
fn search_url_gives_search_pages() {
    let builder = link_builder("https://thepiratebay10.org/search/some%20words/1/3/0").unwrap();
    assert!(matches!(&builder, LinkBuilder::Search { query } if query == "some%20words"));
    assert_eq!(builder.link(1), "https://thepiratebay10.org/search/some%20words/1/3/0");
    assert_eq!(builder.link(27), "https://thepiratebay10.org/search/some%20words/27/3/0");
}

#[test]
fn user_url_gives_user_pages() {
    let builder = link_builder("https://thepiratebay10.org/user/somebody/2/3").unwrap();
    assert!(matches!(&builder, LinkBuilder::User { user } if user == "somebody"));
    assert_eq!(builder.link(1), "https://thepiratebay10.org/user/somebody/1/3");
    assert_eq!(builder.link(1_000_000), "https://thepiratebay10.org/user/somebody/1000000/3");
}

#[test]
fn page_numbers_are_written_in_full() {
    let builder = LinkBuilder::User { user: String::from("u") };
    assert_eq!(builder.link(0), "https://thepiratebay10.org/user/u/0/3");
    assert_eq!(builder.link(9), "https://thepiratebay10.org/user/u/9/3");
    assert_eq!(builder.link(10), "https://thepiratebay10.org/user/u/10/3");
    assert_eq!(builder.link(4_294_967_295), "https://thepiratebay10.org/user/u/4294967295/3");
    assert_eq!(
        builder.link(usize::MAX),
        format!("https://thepiratebay10.org/user/u/{}/3", usize::MAX)
    );
}

#[test]
fn search_comes_before_user() {
    let builder = link_builder("https://example.org/user/u/search/q/").unwrap();
    assert!(matches!(builder, LinkBuilder::Search { query } if query == "q"));
}

#[test]
fn other_urls_have_no_listing() {
    for url in [
        "",
        "https://thepiratebay10.org/",
        "https://thepiratebay10.org/search/",
        "https://thepiratebay10.org/search//1/3/0",
        "https://thepiratebay10.org/search/words",
        "https://thepiratebay10.org/user/somebody",
        "https://thepiratebay10.org/torrent/12345/",
    ] {
        assert!(link_builder(url).is_none(), "{url}");
    }
}

#[test]
fn crawl_refuses_an_unsupported_url_at_once() {
    let begun = Crawl::start("https://thepiratebay10.org/top/200", 3);
    assert!(
        matches!(begun, Err(ExtractError::UnsupportedUrl(url)) if url == "https://thepiratebay10.org/top/200")
    );
}

#[test]
fn crawl_asks_for_pages_one_to_limit() {
    let mut crawl = Crawl::start("https://thepiratebay10.org/search/q/1/3/0", 3).unwrap();
    let mut seen = LinkSet::new();
    let mut asked: Vec<String> = Vec::new();
    while let Some(url) = crawl.next_url() {
        asked.push(url);
        crawl.accept(Vec::new(), &mut seen);
    }
    assert_eq!(
        asked,
        [
            "https://thepiratebay10.org/search/q/1/3/0",
            "https://thepiratebay10.org/search/q/2/3/0",
            "https://thepiratebay10.org/search/q/3/3/0",
        ]
    );
    assert!(crawl.finish().is_empty());
}

#[test]
fn crawl_of_no_pages_asks_for_none() {
    let mut crawl = Crawl::start("https://thepiratebay10.org/user/u/", 0).unwrap();
    assert!(crawl.next_url().is_none());
    let mut seen = LinkSet::new();
    crawl.accept(vec![record("a", "magnet:a")], &mut seen);
    assert!(!seen.contains("magnet:a"));
    assert_eq!(crawl.fetched, 0);
    assert!(crawl.finish().is_empty());
}

#[test]
fn same_link_on_two_pages_is_kept_once() {
    let mut crawl = Crawl::start("https://thepiratebay10.org/search/q/1/3/0", 2).unwrap();
    let mut seen = LinkSet::new();
    crawl.accept(vec![record("first", "magnet:a"), record("second", "magnet:b")], &mut seen);
    crawl.accept(vec![record("again", "magnet:a"), record("third", "magnet:c")], &mut seen);
    let kept = crawl.finish();
    let titles: Vec<&str> = kept.iter().map(|magnet| magnet.text.as_str()).collect();
    assert_eq!(titles, ["first", "second", "third"]);
    assert!(seen.contains("magnet:a") && seen.contains("magnet:b") && seen.contains("magnet:c"));
    assert!(!seen.contains("magnet:d"));
}

#[test]
fn same_link_twice_on_one_page_is_kept_once() {
    let mut seen = LinkSet::new();
    let kept = seen.keep_fresh(vec![
        record("one", "magnet:a"),
        record("two", "magnet:a"),
        record("three", "magnet:b"),
        record("four", "magnet:A"),
    ]);
    let titles: Vec<&str> = kept.iter().map(|magnet| magnet.text.as_str()).collect();
    assert_eq!(titles, ["one", "three", "four"]);
}

#[test]
fn link_set_says_whether_a_link_is_new() {
    let mut seen = LinkSet::new();
    assert!(!seen.contains("magnet:a"));
    assert!(seen.insert(String::from("magnet:a")));
    assert!(!seen.insert(String::from("magnet:a")));
    assert!(seen.insert(String::from("magnet:b")));
    assert!(seen.contains("magnet:a") && seen.contains("magnet:b"));
    assert!(!seen.contains("magnet:"));
}

#[test]
fn links_seen_in_an_earlier_listing_are_dropped() {
    let mut seen = LinkSet::new();
    seen.insert(String::from("magnet:a"));
    let kept = seen.keep_fresh(vec![record("one", "magnet:a"), record("two", "magnet:b")]);
    assert_eq!(kept.len(), 1);
    assert_eq!(kept[0].text, "two");
}

#[test]
fn entry_gives_a_record() {
    let today = date(2022, 6, 15);
    let made = extract_entry(&entry(Some("A title"), Some("magnet:?xt=urn:btih:abc"), Some(RECENT)), today)
        .unwrap();
    assert_eq!(made.text, "A title");
    assert_eq!(made.link, "magnet:?xt=urn:btih:abc");
    assert_eq!(made.size, "580.9 MiB");
    assert_eq!(made.date, date(2022, 5, 2));
    let made = extract_entry(&entry(Some("B"), Some("magnet:b"), Some(OLDER)), today).unwrap();
    assert_eq!(made.size, "487.16 MiB");
    assert_eq!(made.date, date(2021, 12, 13));
}

#[test]
fn size_is_number_and_unit() {
    let today = date(2022, 6, 15);
    let info = "Uploaded 05-02&nbsp;18:37, Size 1.5&nbsp;GiB";
    let made = extract_entry(&entry(Some("t"), Some("l"), Some(info)), today).unwrap();
    assert_eq!(made.size, "1.5 GiB");
    let info = "Uploaded 05-02&nbsp;18:37, Size 12&nbsp;B by me, Size 3&nbsp;KiB";
    let made = extract_entry(&entry(Some("t"), Some("l"), Some(info)), today).unwrap();
    assert_eq!(made.size, "12 B by me");
}

#[test]
fn entry_without_size_is_an_unrecognized_size() {
    let today = date(2022, 6, 15);
    for info in [
        "Uploaded 05-02&nbsp;18:37, ULed by",
        "Uploaded 05-02&nbsp;18:37, Size 580.9 MiB",
        "Uploaded 05-02&nbsp;18:37, size 580.9&nbsp;MiB",
        "Uploaded 05-02&nbsp;18:37, Size &nbsp;MiB",
        "Uploaded 05-02&nbsp;18:37, Size 580.9&nbsp;,",
    ] {
        let made = extract_entry(&entry(Some("t"), Some("l"), Some(info)), today);
        assert!(
            matches!(made, Err(ExtractError::Context(ExtractMagnetContextErr::Size(text))) if text == info),
            "{info}"
        );
    }
}

#[test]
fn missing_parts_are_reported_in_order() {
    let today = date(2022, 6, 15);
    let made = extract_entry(&entry(None, None, None), today);
    assert!(
        matches!(made, Err(ExtractError::Context(ExtractMagnetContextErr::PageLink(html))) if html == "<td>markup</td>")
    );
    let made = extract_entry(&entry(Some("t"), None, None), today);
    assert!(
        matches!(made, Err(ExtractError::Context(ExtractMagnetContextErr::MagnetLink(html))) if html == "<td>markup</td>")
    );
    let made = extract_entry(&entry(Some("t"), Some("l"), None), today);
    assert!(
        matches!(made, Err(ExtractError::Context(ExtractMagnetContextErr::Info(html))) if html == "<td>markup</td>")
    );
    let made = extract_entry(&entry(Some("t"), Some("l"), Some("Size 1&nbsp;MiB")), today);
    assert!(matches!(made, Err(ExtractError::Date(ParseMagnetDateErr::BadInteger(_, _)))));
    let made = extract_entry(&entry(Some("t"), Some("l"), Some("Uploaded 05-02 Size 1&nbsp;MiB")), today);
    assert!(matches!(made, Err(ExtractError::Date(ParseMagnetDateErr::BadSplit(_)))));
    let made = extract_entry(&entry(Some("t"), Some("l"), Some("Uploaded")), today);
    assert!(matches!(made, Err(ExtractError::Context(ExtractMagnetContextErr::Size(_)))));
}

#[test]
fn context_without_size_match_is_an_error() {
    let listed = entry(Some("t"), Some("l"), Some("info"));
    let made = magnet_context(&listed, &None);
    assert!(matches!(made, Err(ExtractMagnetContextErr::Size(text)) if text == "info"));
    let groups = Some(vec![Some(String::from("Size 1&nbsp;B")), Some(String::from("1")), None]);
    assert!(matches!(magnet_context(&listed, &groups), Err(ExtractMagnetContextErr::Size(_))));
    let groups = Some(vec![None, Some(String::from("1")), Some(String::from("B"))]);
    let made = magnet_context(&listed, &groups).unwrap();
    assert_eq!(made.size, "1 B");
    assert_eq!(made.text, "t");
    assert_eq!(made.link, "l");
    assert_eq!(made.info, "info");
}

#[test]
fn each_entry_is_judged_on_its_own() {
    let today = date(2022, 6, 15);
    let entries = vec![
        entry(Some("a"), Some("magnet:a"), Some(RECENT)),
        entry(Some("b"), Some("magnet:b"), Some("Uploaded 05-02&nbsp;18:37")),
        entry(Some("c"), Some("magnet:c"), Some(OLDER)),
    ];
    let made = extract_each(&entries, today);
    assert_eq!(made.len(), 3);
    assert!(matches!(&made[0], Ok(magnet) if magnet.text == "a"));
    assert!(matches!(&made[1], Err(ExtractError::Context(ExtractMagnetContextErr::Size(_)))));
    assert!(matches!(&made[2], Ok(magnet) if magnet.text == "c"));
}

#[test]
fn first_bad_entry_fails_the_page() {
    let today = date(2022, 6, 15);
    let entries = vec![
        entry(Some("a"), Some("magnet:a"), Some(RECENT)),
        entry(Some("b"), Some("magnet:b"), Some("Uploaded 05-02&nbsp;18:37")),
        entry(None, Some("magnet:c"), Some(OLDER)),
    ];
    let made = extract_entries(&entries, today);
    assert!(matches!(made, Err(ExtractError::Context(ExtractMagnetContextErr::Size(_)))));
    let made = extract_entries(&entries[..1].iter().map(copy_of).collect(), today).unwrap();
    assert_eq!(made.len(), 1);
    assert!(extract_entries(&Vec::new(), today).unwrap().is_empty());
}

fn copy_of(listed: &ListingEntry) -> ListingEntry {
    ListingEntry {
        html: listed.html.clone(),
        title: listed.title.clone(),
        link: listed.link.clone(),
        info: listed.info.clone(),
    }
}

#[test]
fn page_is_read_entry_by_entry() {
    let context = Context::new().expect("selectors");
    let text = page(&[row("First <b>title</b>", "AAA111", RECENT), row("Second", "BBB222", OLDER)]);
    let entries = context.entries(&text);
    assert_eq!(entries.len(), 2);
    assert_eq!(entries[0].title.as_deref(), Some("First <b>title</b>"));
    assert_eq!(entries[0].link.as_deref(), Some("magnet:?xt=urn:btih:AAA111&dn=x"));
    assert_eq!(entries[0].info.as_deref(), Some(RECENT));
    assert!(entries[0].html.starts_with("<td>") && entries[0].html.contains("detName"));
    assert_eq!(entries[1].title.as_deref(), Some("Second"));
    assert_eq!(entries[1].link.as_deref(), Some("magnet:?xt=urn:btih:BBB222&dn=x"));
    assert_eq!(entries[1].info.as_deref(), Some(OLDER));
}

#[test]
fn page_without_entries_gives_no_records() {
    let context = Context::new().expect("selectors");
    assert!(context.entries("").is_empty());
    assert!(context.entries("<p>No hits. Try adding an asterisk in you search phrase.</p>").is_empty());
    assert!(context.extract_page("<table></table>", date(2022, 6, 15)).unwrap().is_empty());
}

#[test]
fn entry_parts_that_the_page_lacks_are_missing() {
    let context = Context::new().expect("selectors");
    let text = "<table><tr><td><div class=\"detName\">no link</div>\
                <font class=\"detDesc\">some info</font></td></tr></table>";
    let entries = context.entries(text);
    assert_eq!(entries.len(), 1);
    assert_eq!(entries[0].title, None);
    assert_eq!(entries[0].link, None);
    assert_eq!(entries[0].info.as_deref(), Some("some info"));
    let made = context.extract_page(text, date(2022, 6, 15));
    assert!(
        matches!(made, Err(ExtractError::Context(ExtractMagnetContextErr::PageLink(html))) if html == entries[0].html)
    );
}

#[test]
fn page_gives_records_in_page_order() {
    let context = Context::new().expect("selectors");
    let text = page(&[row("First", "AAA111", RECENT), row("Second", "BBB222", OLDER)]);
    let made = context.extract_page(&text, date(2022, 6, 15)).unwrap();
    assert_eq!(made.len(), 2);
    assert_eq!(made[0].text, "First");
    assert_eq!(made[0].link, "magnet:?xt=urn:btih:AAA111&dn=x");
    assert_eq!(made[0].size, "580.9 MiB");
    assert_eq!(made[0].date, date(2022, 5, 2));
    assert_eq!(made[1].text, "Second");
    assert_eq!(made[1].size, "487.16 MiB");
    assert_eq!(made[1].date, date(2021, 12, 13));
}

#[test]
fn malformed_info_fails_the_page_and_keeps_what_came_before() {
    let context = Context::new().expect("selectors");
    let text = page(&[
        row("First", "AAA111", RECENT),
        row("Second", "BBB222", "Uploaded 05-02&nbsp;18:37, ULed by"),
        row("Third", "CCC333", RECENT),
    ]);
    let mut crawl = Crawl::start("https://thepiratebay10.org/search/q/1/3/0", 2).unwrap();
    let mut seen = LinkSet::new();
    let taken = crawl.feed(&context, &text, &mut seen, date(2022, 6, 15));
    assert!(matches!(taken, Err(ExtractError::Context(ExtractMagnetContextErr::Size(_)))));
    assert_eq!(crawl.fetched, 0);
    assert_eq!(crawl.magnets.len(), 1);
    assert_eq!(crawl.magnets[0].text, "First");
    assert!(seen.contains("magnet:?xt=urn:btih:AAA111&dn=x"));
    assert!(!seen.contains("magnet:?xt=urn:btih:BBB222&dn=x"));
    assert!(!seen.contains("magnet:?xt=urn:btih:CCC333&dn=x"));
}

#[test]
fn page_that_fails_at_its_first_entry_changes_nothing() {
    let context = Context::new().expect("selectors");
    let text = page(&[row("First", "AAA111", "Uploaded"), row("Second", "BBB222", RECENT)]);
    let mut crawl = Crawl::start("https://thepiratebay10.org/search/q/1/3/0", 2).unwrap();
    let mut seen = LinkSet::new();
    assert!(crawl.feed(&context, &text, &mut seen, date(2022, 6, 15)).is_err());
    assert_eq!(crawl.fetched, 0);
    assert!(crawl.magnets.is_empty());
    assert!(!seen.contains("magnet:?xt=urn:btih:AAA111&dn=x"));
    assert!(!seen.contains("magnet:?xt=urn:btih:BBB222&dn=x"));
}

#[test]
fn page_fed_when_none_is_due_is_not_taken_in() {
    let context = Context::new().expect("selectors");
    let text = page(&[row("First", "AAA111", RECENT)]);
    let mut crawl = Crawl::start("https://thepiratebay10.org/search/q/1/3/0", 0).unwrap();
    let mut seen = LinkSet::new();
    assert!(crawl.feed(&context, &text, &mut seen, date(2022, 6, 15)).is_ok());
    assert_eq!(crawl.fetched, 0);
    assert!(crawl.magnets.is_empty());
    assert!(!seen.contains("magnet:?xt=urn:btih:AAA111&dn=x"));
}

#[test]
fn fed_pages_are_deduplicated_across_pages() {
    let context = Context::new().expect("selectors");
    let first = page(&[row("First", "AAA111", RECENT), row("Second", "BBB222", OLDER)]);
    let second = page(&[row("Second again", "BBB222", OLDER), row("Third", "CCC333", RECENT)]);
    let mut crawl = Crawl::start("https://thepiratebay10.org/search/q/1/3/0", 2).unwrap();
    let mut seen = LinkSet::new();
    let today = date(2022, 6, 15);
    assert_eq!(crawl.next_url().as_deref(), Some("https://thepiratebay10.org/search/q/1/3/0"));
    crawl.feed(&context, &first, &mut seen, today).unwrap();
    assert_eq!(crawl.next_url().as_deref(), Some("https://thepiratebay10.org/search/q/2/3/0"));
    crawl.feed(&context, &second, &mut seen, today).unwrap();
    assert_eq!(crawl.next_url(), None);
    let kept = crawl.finish();
    let titles: Vec<&str> = kept.iter().map(|magnet| magnet.text.as_str()).collect();
    assert_eq!(titles, ["First", "Second", "Third"]);
}

#[test]
fn extraction_errors_have_a_text() {
    let error = ExtractError::UnsupportedUrl(String::from("ftp://x"));
    assert_eq!(error.message(), "unsupported url: ftp://x");
    let error = ExtractError::Context(ExtractMagnetContextErr::PageLink(String::from("<td/>")));
    assert_eq!(error.message(), "Bad page link:\n<td/>");
    let error = ExtractMagnetContextErr::MagnetLink(String::from("<td/>"));
    assert_eq!(error.message(), "Bad magnet link:\n<td/>");
    assert_eq!(error.clone().message(), "Bad magnet link:\n<td/>");
    let error = ExtractMagnetContextErr::Size(String::from("no size"));
    assert_eq!(error.message(), "Unable to determine size: no size");
    let error = ExtractMagnetContextErr::Info(String::from("<td/>"));
    assert_eq!(error.message(), "Bad info:\n<td/>");
    let error = ExtractError::Date(ParseMagnetDateErr::BadSplit(String::from("x")));
    assert_eq!(error.message(), "Unable to split correctly:\nx");
}

#[test]
fn listing_is_walked_over_its_fetched_pages() {
    let context = Context::new().expect("selectors");
    let pages = vec![
        page(&[row("First", "AAA111", RECENT), row("Second", "BBB222", OLDER)]),
        page(&[row("Second again", "BBB222", OLDER), row("Third", "CCC333", RECENT)]),
        page(&[]),
    ];
    let mut seen = LinkSet::new();
    seen.insert(String::from("magnet:?xt=urn:btih:AAA111&dn=x"));
    let url = "https://thepiratebay10.org/user/somebody/";
    let made = context.extract_recent(url, &pages, &mut seen, date(2022, 6, 15)).unwrap();
    let titles: Vec<&str> = made.iter().map(|magnet| magnet.text.as_str()).collect();
    assert_eq!(titles, ["Second", "Third"]);
    assert!(seen.contains("magnet:?xt=urn:btih:CCC333&dn=x"));
    let again = context.extract_recent(url, &pages, &mut seen, date(2022, 6, 15)).unwrap();
    assert!(again.is_empty());
}

#[test]
fn listing_of_an_unsupported_url_is_refused() {
    let context = Context::new().expect("selectors");
    let pages = vec![page(&[row("First", "AAA111", RECENT)])];
    let mut seen = LinkSet::new();
    let made = context.extract_recent("https://example.org/", &pages, &mut seen, date(2022, 6, 15));
    assert!(matches!(made, Err(ExtractError::UnsupportedUrl(url)) if url == "https://example.org/"));
    assert!(!seen.contains("magnet:?xt=urn:btih:AAA111&dn=x"));
}

#[test]
fn listing_with_a_bad_page_fails() {
    let context = Context::new().expect("selectors");
    let pages = vec![
        page(&[row("First", "AAA111", RECENT)]),
        page(&[
            row("Second", "BBB222", OLDER),
            row("First again", "AAA111", RECENT),
            row("Third", "CCC333", "Uploaded someday"),
            row("Fourth", "DDD444", RECENT),
        ]),
        page(&[row("Fifth", "EEE555", RECENT)]),
    ];
    let mut seen = LinkSet::new();
    seen.insert(String::from("magnet:known"));
    let url = "https://thepiratebay10.org/search/q/1/3/0";
    let made = context.extract_recent(url, &pages, &mut seen, date(2022, 6, 15));
    assert!(matches!(made, Err(ExtractError::Context(ExtractMagnetContextErr::Size(_)))));
    assert!(seen.contains("magnet:known"));
    assert!(seen.contains("magnet:?xt=urn:btih:AAA111&dn=x"));
    assert!(seen.contains("magnet:?xt=urn:btih:BBB222&dn=x"));
    assert!(!seen.contains("magnet:?xt=urn:btih:CCC333&dn=x"));
    assert!(!seen.contains("magnet:?xt=urn:btih:DDD444&dn=x"));
    assert!(!seen.contains("magnet:?xt=urn:btih:EEE555&dn=x"));
}
