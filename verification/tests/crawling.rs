use crawler::crawl::{Crawl, Step};
use crawler::rules::{ConfigError, CrawlError, CrawlJob, SearchRule};
use crawler::table::ResultTable;

fn strings(items: &[&str]) -> Vec<String> {
    items.iter().map(|s| s.to_string()).collect()
}

fn rule(selector: &str, attributes: &[&str]) -> SearchRule {
    SearchRule { selector: selector.to_string(), attributes: strings(attributes) }
}

fn job(url: &str, follow: Option<&str>, depth: Option<u32>, searches: Vec<SearchRule>) -> CrawlJob {
    CrawlJob {
        url: url.to_string(),
        follow_links: follow.map(|s| s.to_string()),
        max_depth: depth,
        searches,
    }
}

fn site(url: &str) -> Result<String, String> {
    match url {
        "https://example.com/" => Ok("<title>Example Domain</title>\
            <a href=\"/about\">About</a><a href=\"/\">Home</a><a href=\"#top\">Top</a>"
            .to_string()),
        "https://example.com/about" => Ok("<title>About</title>\
            <a href=\"/team?tab=all\">Team</a><a href=\"/\">Home</a>\
            <a href=\"/about#who\">Who</a>"
            .to_string()),
        "https://example.com/team" => Ok("<title>Team</title>\
            <a href=\"/deeper\">Deeper</a><a href=\"https://example.com/about\">About</a>"
            .to_string()),
        "https://example.com/deeper" => Ok("<title>Deeper</title>".to_string()),
        other => Err(format!("no route to {}", other)),
    }
}

fn run(job: &CrawlJob, fetch: fn(&str) -> Result<String, String>) -> (Result<ResultTable, CrawlError>, Vec<Vec<String>>) {
    let mut batches: Vec<Vec<String>> = Vec::new();
    let mut crawl = match Crawl::begin(job) {
        Ok(crawl) => crawl,
        Err(error) => return (Err(error), batches),
    };
    loop {
        match crawl.advance() {
            Step::Finished(table) => return (Ok(table), batches),
            Step::Fetch(next, batch) => {
                crawl = next;
                batches.push(batch.clone());
                for url in batch.iter() {
                    crawl = match crawl.accept(fetch(url)) {
                        Ok(crawl) => crawl,
                        Err(error) => return (Err(error), batches),
                    };
                }
            }
        }
    }
}

#[test]
fn seed_page_alone_gives_its_title() {
    let job = job("https://example.com", None, Some(0), vec![rule("title", &["TextContent"])]);
    let (result, batches) = run(&job, |_| Ok("<title>Example Domain</title>".to_string()));
    let table = result.unwrap();
    assert_eq!(batches, vec![strings(&["https://example.com/"])]);
    assert_eq!(table.selectors(), strings(&["title"]));
    assert_eq!(table.attributes("title"), Some(strings(&["TextContent"])));
    assert_eq!(table.values("title", "TextContent"), Some(strings(&["Example Domain"])));
}

#[test]
fn followed_link_is_fetched_in_the_next_level() {
    let job = job("https://example.com", Some(".*"), Some(1), vec![]);
    let crawl = Crawl::begin(&job).unwrap();
    let crawl = match crawl.advance() {
        Step::Fetch(crawl, batch) => {
            assert_eq!(batch, strings(&["https://example.com/"]));
            crawl
        }
        Step::Finished(_) => panic!("the seed was not asked for"),
    };
    let crawl = crawl.accept(Ok("<a href=\"/about\">About</a>".to_string())).unwrap();
    assert_eq!(crawl.scheduler().level(), 1);
    match crawl.advance() {
        Step::Fetch(crawl, batch) => {
            assert_eq!(batch, strings(&["https://example.com/about"]));
            assert_eq!(crawl.scheduler().level(), 1);
        }
        Step::Finished(_) => panic!("the link was not followed"),
    }
}

#[test]
fn failed_fetch_of_a_link_fails_the_crawl() {
    let job = job("https://example.com", Some(".*"), Some(1), vec![rule("title", &["TextContent"])]);
    let crawl = Crawl::begin(&job).unwrap();
    let crawl = match crawl.advance() {
        Step::Fetch(crawl, _) => crawl,
        Step::Finished(_) => panic!("the seed was not asked for"),
    };
    let crawl = crawl
        .accept(Ok("<title>Seed</title><a href=\"/about\">About</a>".to_string()))
        .unwrap();
    assert_eq!(crawl.fetched_pages().len(), 1);
    let crawl = match crawl.advance() {
        Step::Fetch(crawl, batch) => {
            assert_eq!(batch, strings(&["https://example.com/about"]));
            crawl
        }
        Step::Finished(_) => panic!("the link was not followed"),
    };
    match crawl.accept(Err("connection reset".to_string())) {
        Err(CrawlError::Fetch(message)) => assert_eq!(message, "connection reset"),
        _ => panic!("the crawl went on after a failed fetch"),
    }
}

#[test]
fn failed_fetch_of_the_seed_fails_the_crawl() {
    let job = job("https://example.com", None, None, vec![rule("title", &["TextContent"])]);
    let (result, batches) = run(&job, |_| Err("timed out".to_string()));
    assert_eq!(batches.len(), 1);
    match result {
        Err(CrawlError::Fetch(message)) => assert_eq!(message, "timed out"),
        _ => panic!("a table came out of a failed crawl"),
    }
}

#[test]
fn failure_deep_in_the_crawl_gives_no_table() {
    let job = job("https://example.com", Some("example"), Some(9), vec![rule("title", &["TextContent"])]);
    let (result, batches) = run(&job, |url| {
        if url == "https://example.com/team" {
            Err("status 500".to_string())
        } else {
            site(url)
        }
    });
    assert_eq!(batches.len(), 3);
    match result {
        Err(CrawlError::Fetch(message)) => assert_eq!(message, "status 500"),
        _ => panic!("a table came out of a failed crawl"),
    }
}

#[test]
fn depth_zero_stays_on_the_seed_whatever_the_pattern() {
    let job = job("https://example.com/?session=1", Some(".*"), Some(0), vec![rule("title", &["TextContent"])]);
    let (result, batches) = run(&job, site);
    assert_eq!(batches, vec![strings(&["https://example.com/"])]);
    assert_eq!(result.unwrap().values("title", "TextContent"), Some(strings(&["Example Domain"])));
}

#[test]
fn absent_depth_means_zero() {
    let job = job("https://example.com", Some(".*"), None, vec![rule("title", &["TextContent"])]);
    let (result, batches) = run(&job, site);
    assert_eq!(batches.len(), 1);
    assert_eq!(result.unwrap().values("title", "TextContent"), Some(strings(&["Example Domain"])));
}

#[test]
fn without_pattern_only_the_seed_is_visited_whatever_the_depth() {
    let job = job("https://example.com", None, Some(7), vec![rule("a", &["href"])]);
    let (result, batches) = run(&job, site);
    assert_eq!(batches, vec![strings(&["https://example.com/"])]);
    assert_eq!(result.unwrap().values("a", "href"), Some(strings(&["/about", "/", "#top"])));
}

#[test]
fn crawl_goes_no_deeper_than_the_limit() {
    let job = job("https://example.com", Some(".*"), Some(2), vec![rule("title", &["TextContent"])]);
    let (result, batches) = run(&job, site);
    assert_eq!(
        batches,
        vec![
            strings(&["https://example.com/"]),
            strings(&["https://example.com/about"]),
            strings(&["https://example.com/team"]),
        ]
    );
    assert_eq!(
        result.unwrap().values("title", "TextContent"),
        Some(strings(&["Example Domain", "About", "Team"]))
    );
}

#[test]
fn crawl_ends_when_nothing_new_is_found() {
    let job = job("https://example.com", Some(".*"), Some(50), vec![rule("title", &["TextContent"])]);
    let (result, batches) = run(&job, site);
    assert_eq!(batches.len(), 4);
    assert_eq!(batches[3], strings(&["https://example.com/deeper"]));
    assert_eq!(
        result.unwrap().values("title", "TextContent"),
        Some(strings(&["Example Domain", "About", "Team", "Deeper"]))
    );
}

#[test]
fn no_address_is_fetched_twice() {
    let job = job("https://example.com", Some(".*"), Some(50), vec![]);
    let (_, batches) = run(&job, site);
    let mut all: Vec<String> = batches.into_iter().flatten().collect();
    let count = all.len();
    all.sort();
    all.dedup();
    assert_eq!(all.len(), count);
    assert_eq!(count, 4);
}

#[test]
fn pattern_keeps_the_crawl_to_matching_links() {
    let job = job("https://example.com", Some("about"), Some(5), vec![rule("title", &["TextContent"])]);
    let (result, batches) = run(&job, site);
    assert_eq!(
        batches,
        vec![strings(&["https://example.com/"]), strings(&["https://example.com/about"])]
    );
    assert_eq!(
        result.unwrap().values("title", "TextContent"),
        Some(strings(&["Example Domain", "About"]))
    );
}

#[test]
fn wide_level_is_fetched_six_at_a_time() {
    let job = job("https://example.com", Some(".*"), Some(1), vec![rule("p", &["TextContent"])]);
    let (result, batches) = run(&job, |url| {
        if url == "https://example.com/" {
            let links: Vec<String> =
                (0..8).map(|i| format!("<a href=\"/page{}\">p</a>", i)).collect();
            Ok(links.concat())
        } else {
            Ok(format!("<p>{}</p><a href=\"/further\">f</a>", url))
        }
    });
    assert_eq!(batches.len(), 3);
    assert_eq!(batches[1].len(), 6);
    assert_eq!(batches[2].len(), 2);
    assert_eq!(batches[1][0], "https://example.com/page0");
    assert_eq!(batches[2][1], "https://example.com/page7");
    assert_eq!(result.unwrap().values("p", "TextContent").unwrap().len(), 8);
}

#[test]
fn pages_are_kept_with_address_and_level() {
    let job = job("https://example.com", Some(".*"), Some(1), vec![]);
    let mut crawl = Crawl::begin(&job).unwrap();
    assert_eq!(crawl.fetched_pages().len(), 0);
    crawl = crawl.accept(site("https://example.com/")).unwrap();
    crawl = crawl.accept(site("https://example.com/about")).unwrap();
    let pages = crawl.fetched_pages();
    assert_eq!(pages.len(), 2);
    assert_eq!(pages[0].url, "https://example.com/");
    assert_eq!(pages[0].level, 0);
    assert_eq!(pages[1].url, "https://example.com/about");
    assert_eq!(pages[1].level, 1);
    assert!(pages[1].document.source().starts_with("<title>About</title>"));
    assert!(!crawl.scheduler().is_active());
    assert_eq!(crawl.scheduler().level(), 2);
}

#[test]
fn page_that_comes_when_none_is_awaited_is_not_kept() {
    let job = job("https://example.com", None, None, vec![rule("title", &["TextContent"])]);
    let mut crawl = Crawl::begin(&job).unwrap();
    crawl = crawl.accept(Ok("<title>Seed</title>".to_string())).unwrap();
    crawl = crawl.accept(Ok("<title>Stray</title>".to_string())).unwrap();
    assert_eq!(crawl.fetched_pages().len(), 1);
    match crawl.advance() {
        Step::Finished(table) => {
            assert_eq!(table.values("title", "TextContent"), Some(strings(&["Seed"])))
        }
        Step::Fetch(_, _) => panic!("the crawl asked for more"),
    }
}

#[test]
fn key_set_is_what_the_job_declares() {
    let searches = vec![
        rule("a", &["href", "TextContent"]),
        rule("table td", &["InnerHtml"]),
        rule("a", &["rel"]),
        rule("blockquote", &[]),
    ];
    let job = job("https://example.com", Some(".*"), Some(3), searches);
    let (result, _) = run(&job, site);
    let table = result.unwrap();
    assert_eq!(table.selectors(), strings(&["a", "table td", "blockquote"]));
    assert_eq!(table.attributes("a"), Some(strings(&["href", "TextContent", "rel"])));
    assert_eq!(table.attributes("table td"), Some(strings(&["InnerHtml"])));
    assert_eq!(table.attributes("blockquote"), Some(Vec::new()));
    assert_eq!(table.values("table td", "InnerHtml"), Some(Vec::new()));
    assert_eq!(table.values("a", "rel"), Some(Vec::new()));
    assert_eq!(table.values("a", "TextContent"), Some(strings(&["About", "Home", "Top", "Team", "Who", "Deeper"])));
}

#[test]
fn value_found_on_several_pages_appears_once() {
    let job = job("https://example.com", Some(".*"), Some(3), vec![rule("a", &["href"])]);
    let (result, _) = run(&job, site);
    let values = result.unwrap().values("a", "href").unwrap();
    assert_eq!(
        values,
        strings(&[
            "/about",
            "/",
            "#top",
            "/team?tab=all",
            "/about#who",
            "/deeper",
            "https://example.com/about"
        ])
    );
}

#[test]
fn malformed_seed_refuses_the_job() {
    for url in ["", "example.com", "/path", "not a url"] {
        let job = job(url, None, None, vec![]);
        match Crawl::begin(&job) {
            Err(CrawlError::Config(ConfigError::MalformedSeed)) => {}
            _ => panic!("{:?} was taken as a seed", url),
        }
    }
}

#[test]
fn invalid_selector_refuses_the_job() {
    let job = job("https://example.com", None, None, vec![rule("a", &[]), rule("div[", &["id"])]);
    match Crawl::begin(&job) {
        Err(CrawlError::Config(ConfigError::InvalidSelector(text))) => assert_eq!(text, "div["),
        _ => panic!("the selector was accepted"),
    }
}

#[test]
fn invalid_pattern_refuses_the_job() {
    let job = job("https://example.com", Some("(unclosed"), Some(1), vec![]);
    match Crawl::begin(&job) {
        Err(CrawlError::Config(ConfigError::InvalidPattern(report))) => {
            let expected = regex_lite::Regex::new("(unclosed").err().unwrap().to_string();
            assert_eq!(report, expected);
        }
        _ => panic!("the pattern was accepted"),
    }
}

#[test]
fn selector_is_checked_before_seed_and_pattern() {
    let job = job("nonsense", Some("("), None, vec![rule("[", &[])]);
    match Crawl::begin(&job) {
        Err(CrawlError::Config(ConfigError::InvalidSelector(text))) => assert_eq!(text, "["),
        _ => panic!("another check came first"),
    }
    let job = job_without_rules("nonsense", "(");
    match Crawl::begin(&job) {
        Err(CrawlError::Config(ConfigError::MalformedSeed)) => {}
        _ => panic!("another check came first"),
    }
}

fn job_without_rules(url: &str, pattern: &str) -> CrawlJob {
    job(url, Some(pattern), None, Vec::new())
}

#[test]
fn errors_say_what_went_wrong() {
    assert_eq!(CrawlError::Config(ConfigError::MalformedSeed).message(), "Invalid Url Provided");
    assert_eq!(
        CrawlError::Config(ConfigError::InvalidPattern("unclosed group".to_string())).message(),
        "unclosed group"
    );
    assert_eq!(
        CrawlError::Config(ConfigError::InvalidSelector("a[".to_string())).message(),
        "Invalid Selector Provided: a["
    );
    assert_eq!(CrawlError::Fetch("status 502".to_string()).message(), "status 502");
}

#[test]
fn seed_is_made_canonical_before_it_is_fetched() {
    let job = job("HTTPS://Example.com/a/../b?x=1#y", None, None, vec![]);
    let crawl = Crawl::begin(&job).unwrap();
    assert_eq!(crawl.scheduler().origin(), "https://example.com/b");
    assert_eq!(crawl.scheduler().limit(), 0);
}
