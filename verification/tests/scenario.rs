use yogo::context::Context;
use yogo::crawl::Crawl;
use yogo::date::CalendarDate;
use yogo::history::History;
use yogo::pipeline::{input_urls, keep_recent, sort_by_title, Run};
use yogo::seen::LinkSet;

#[test]
fn run_over_one_search_listing() {
    let today = CalendarDate::from_ymd(2022, 6, 15).unwrap();
    let after = CalendarDate::from_ymd(2022, 1, 1).unwrap();
    let page = "<table><tr><td>\
        <div class=\"detName\"><a href=\"/torrent/1\">zulu</a></div>\
        <a href=\"magnet:?xt=urn:btih:1111&amp;dn=zulu\">m</a>\
        <font class=\"detDesc\">Uploaded 05-02&nbsp;18:37, Size 580.9&nbsp;MiB, ULed by x</font>\
        </td></tr><tr><td>\
        <div class=\"detName\"><a href=\"/torrent/2\">Alpha</a></div>\
        <a href=\"magnet:?xt=urn:btih:2222&amp;dn=alpha\">m</a>\
        <font class=\"detDesc\">Uploaded 12-13&nbsp;2021, Size 487.16&nbsp;MiB, ULed by x</font>\
        </td></tr><tr><td>\
        <div class=\"detName\"><a href=\"/torrent/3\">mike</a></div>\
        <a href=\"magnet:?xt=urn:btih:3333&amp;dn=mike\">m</a>\
        <font class=\"detDesc\">Uploaded 01-01&nbsp;00:00, Size 1&nbsp;KiB, ULed by x</font>\
        </td></tr></table>";

    let context = Context::new().unwrap();
    let mut history = History::load(Vec::new());
    let mut seen = LinkSet::new();
    let mut magnets = Vec::new();

    for url in "https://thepiratebay10.org/search/some%20query/1/3/0".lines() {
        let mut crawl = Crawl::start(url, 1).unwrap();
        let mut asked: Vec<String> = Vec::new();
        while let Some(url) = crawl.next_url() {
            asked.push(url);
            crawl.feed(&context, page, &mut seen, today).unwrap();
        }
        assert_eq!(asked, ["https://thepiratebay10.org/search/some%20query/1/3/0"]);
        let recent = crawl.finish();
        assert_eq!(recent.len(), 3);
        magnets.extend(keep_recent(recent, after, &mut history));
    }

    let magnets = sort_by_title(magnets);
    let titles: Vec<&str> = magnets.iter().map(|magnet| magnet.text.as_str()).collect();
    assert_eq!(titles, ["mike", "zulu"]);
    assert_eq!(magnets[1].date, CalendarDate::from_ymd(2022, 5, 2).unwrap());
    assert_eq!(magnets[1].size, "580.9 MiB");
    assert_eq!(magnets[0].date, after);

    let mut written: Vec<String> =
        history.write(after).into_iter().map(|entry| entry.magnet).collect();
    written.sort();
    assert_eq!(written, ["1111", "3333"]);

    let mut next_run = History::load(history.write(after));
    let mut seen = LinkSet::new();
    let mut crawl = Crawl::start("https://thepiratebay10.org/search/some%20query/1/3/0", 1).unwrap();
    crawl.feed(&context, page, &mut seen, today).unwrap();
    assert!(keep_recent(crawl.finish(), after, &mut next_run).is_empty());
}

#[test]
fn run_keeps_sorts_and_stores() {
    let today = CalendarDate::from_ymd(2022, 6, 15).unwrap();
    let after = CalendarDate::from_ymd(2022, 1, 1).unwrap();
    let page = |rows: &[(&str, &str, &str)]| -> String {
        let rows: Vec<String> = rows
            .iter()
            .map(|(title, hash, date)| {
                format!(
                    "<tr><td><div class=\"detName\"><a href=\"/t\">{title}</a></div>\
                     <a href=\"magnet:?xt=urn:btih:{hash}\">m</a>\
                     <font>Uploaded {date}, Size 1&nbsp;MiB, ULed by x</font></td></tr>"
                )
            })
            .collect();
        format!("<table>{}</table>", rows.concat())
    };
    let first = page(&[("Zulu", "1111", "05-02&nbsp;18:37"), ("alpha", "2222", "12-13&nbsp;2021")]);
    let second = page(&[
        ("Mike", "3333", "01-01&nbsp;2022"),
        ("zulu again", "1111&amp;dn=again", "Today&nbsp;18:37"),
        ("yankee", "4444", "Y-day&nbsp;10:00"),
    ]);

    let context = Context::new().unwrap();
    let mut history = History::new();
    history.merge(vec![yogo::history::Entry {
        magnet: String::from("0000"),
        date: CalendarDate::from_ymd(2021, 12, 31).unwrap(),
    }]);
    let mut run = Run::new(after, history);
    let mut seen = LinkSet::new();
    let input = "https://thepiratebay10.org/search/q/1/3/0\r\nhttps://thepiratebay10.org/user/u/\n";
    let pages = [vec![first], vec![second]];
    for (url, pages) in input_urls(input).iter().zip(&pages) {
        run.take(context.extract_recent(url, pages, &mut seen, today).unwrap());
    }
    let (magnets, entries) = run.finish();
    let titles: Vec<&str> = magnets.iter().map(|magnet| magnet.text.as_str()).collect();
    assert_eq!(titles, ["Mike", "yankee", "Zulu"]);
    assert_eq!(magnets[1].date, CalendarDate::from_ymd(2022, 6, 14).unwrap());
    let mut stored: Vec<String> = entries.into_iter().map(|entry| entry.magnet).collect();
    stored.sort();
    assert_eq!(stored, ["1111", "3333", "4444"]);
}
