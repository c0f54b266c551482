use crawlstorm::config::{allowed_domains_from_config, Mode};
use crawlstorm::dispatch::{next_feed_index, Dispatcher, LoopStep, RunLimits};
use crawlstorm::hosts::{
    is_allowed_host, redirect_step, wildcard_source, AllowedDomains, RedirectStep,
};
use crawlstorm::links::{extract_links, get_valid_url, links_from_hrefs, should_discover};
use crawlstorm::weburl::{Action, UrlItem, WebUrl};

fn url(s: &str) -> WebUrl {
    WebUrl::parse(s).unwrap()
}

fn seed_item(s: &str) -> UrlItem {
    UrlItem { parent: url(s), url: url(s) }
}

fn wildcard_list(seed: &str) -> AllowedDomains {
    allowed_domains_from_config(
        Some(vec!["*.example.com".to_string()]),
        Mode::Discover,
        &Some(url(seed)),
        &None,
    )
    .unwrap()
}

fn limits(requests: Option<u64>, duration: Option<u64>, concurrent: u16, dedup: bool) -> RunLimits {
    RunLimits { requests, duration, timeout: 3000, concurrent, prevent_duplicate_requests: dedup }
}

#[test]
fn url_parse_normalises() {
    let u = url("HTTPS://Example.COM");
    assert_eq!(u.as_str(), "https://example.com/");
    assert_eq!(u.scheme, "https");
    assert_eq!(u.host_str(), Some("example.com"));
    assert_eq!(u.path, "/");
    assert!(WebUrl::parse("no scheme here").is_none());
}

#[test]
fn wildcard_source_text() {
    assert_eq!(wildcard_source("*.example.com"), "^(?:.*?\\.)?example\\.com$");
    assert_eq!(wildcard_source("a.*.com"), "^a\\.(?:.*?\\.)?com$");
    assert_eq!(wildcard_source("api.*"), "^api\\..*?$");
    assert_eq!(wildcard_source("*"), "^.*?$");
}

#[test]
fn wildcard_host_matching() {
    let ad = wildcard_list("https://a.example.com");
    assert!(is_allowed_host(&url("https://example.com/"), &ad));
    assert!(is_allowed_host(&url("https://a.b.example.com/"), &ad));
    assert!(!is_allowed_host(&url("https://evil-example.com/"), &ad));
    assert!(!is_allowed_host(&url("https://example.com.evil.org/"), &ad));
    assert!(!is_allowed_host(&url("https://evil.com/"), &ad));
}

#[test]
fn exact_host_matching() {
    let ad = allowed_domains_from_config(None, Mode::Single, &Some(url("https://h.com")), &None)
        .unwrap();
    assert!(is_allowed_host(&url("https://h.com/x"), &ad));
    assert!(!is_allowed_host(&url("https://sub.h.com/x"), &ad));
    assert!(is_allowed_host(&url("https://anything.net"), &AllowedDomains::All));
}

#[test]
fn normaliser_forms() {
    let ad = AllowedDomains::All;
    let item = seed_item("https://h.com/dir");
    assert_eq!(
        get_valid_url("//other.com/p", &item, &ad).unwrap().as_str(),
        "https://other.com/p"
    );
    assert_eq!(get_valid_url("/root", &item, &ad).unwrap().as_str(), "https://h.com/root");
    assert_eq!(get_valid_url("rel", &item, &ad).unwrap().as_str(), "https://h.com/dir/rel");
    assert_eq!(
        get_valid_url("http://x.org/q", &item, &ad).unwrap().as_str(),
        "http://x.org/q"
    );
}

#[test]
fn normaliser_drops_disallowed() {
    let ad = allowed_domains_from_config(None, Mode::Discover, &Some(url("https://h.com")), &None)
        .unwrap();
    let item = seed_item("https://h.com/");
    assert!(get_valid_url("https://evil.com/x", &item, &ad).is_none());
    assert!(get_valid_url("http://[bad", &item, &ad).is_none());
}

#[test]
fn normaliser_round_trip() {
    let ad = wildcard_list("https://a.example.com");
    let item = seed_item("https://a.example.com/");
    for s in ["https://b.example.com/x", "https://example.com/y?q=1", "http://a.example.com/"] {
        let u = url(s);
        let again = get_valid_url(u.as_str(), &item, &ad).unwrap();
        assert_eq!(again.as_str(), u.as_str());
    }
}

#[test]
fn wildcard_allow_list_scenario() {
    let ad = wildcard_list("https://a.example.com");
    let item = seed_item("https://a.example.com");
    let html = "<html><body><a href=\"https://b.example.com/x\">b</a>\
                <a href=\"https://example.com/y\">e</a>\
                <a href=\"https://evil.com/z\">z</a></body></html>";
    let found = extract_links(html, &item, &ad);
    let got: Vec<&str> = found.iter().map(|i| i.url.as_str()).collect();
    assert_eq!(got, vec!["https://b.example.com/x", "https://example.com/y"]);
    assert_eq!(found[0].parent.as_str(), "https://b.example.com/x");
}

#[test]
fn same_host_link_keeps_parent() {
    let ad = AllowedDomains::All;
    let item = seed_item("https://h.com/start");
    let hrefs = vec![Some("/a".to_string()), None, Some("https://o.com/".to_string())];
    let found = links_from_hrefs(&hrefs, &item, &ad);
    assert_eq!(found.len(), 2);
    assert_eq!(found[0].parent.as_str(), "https://h.com/start");
    assert_eq!(found[1].parent.as_str(), "https://o.com/");
}

#[test]
fn discover_with_dedup_scenario() {
    let ad = allowed_domains_from_config(None, Mode::Discover, &Some(url("https://h.com")), &None)
        .unwrap();
    let seed = seed_item("https://h.com/");
    let html = "<a href=\"/a\">1</a><a href=\"/a\">2</a><a href=\"/b\">3</a>";
    let found = extract_links(html, &seed, &ad);
    assert_eq!(found.len(), 3);

    let mut d = Dispatcher::new(limits(None, None, 2, true));
    let mut dispatched = Vec::new();
    assert_eq!(d.before_receive(0, false, 2), LoopStep::Proceed);
    if let Some(i) = d.on_action(Action::ProcessURL(seed.clone())) {
        dispatched.push(i.url.as_str().to_string());
    }
    for item in found {
        assert_eq!(d.before_receive(10, false, 1), LoopStep::Proceed);
        if let Some(i) = d.on_action(Action::ProcessURL(item)) {
            dispatched.push(i.url.as_str().to_string());
        }
    }
    assert_eq!(dispatched, vec!["https://h.com/", "https://h.com/a", "https://h.com/b"]);
    assert_eq!(d.total_processed, 3);
    assert!(d.on_action(Action::Ping).is_none());
}

#[test]
fn single_fixed_count_scenario() {
    let mut d = Dispatcher::new(limits(Some(100), None, 4, false));
    let item = seed_item("https://h.com/");
    let mut count = 0;
    for t in 0..200u64 {
        match d.before_receive(t, false, 0) {
            LoopStep::Proceed => {
                if d.on_action(Action::ProcessURL(item.clone())).is_some() {
                    count += 1;
                }
            }
            LoopStep::Spin => {}
            LoopStep::Exit => panic!("exit while requests are in flight"),
        }
    }
    assert_eq!(count, 100);
    assert!(!d.should_process_work);
    assert_eq!(d.before_receive(300, false, 4), LoopStep::Exit);
}

#[test]
fn duration_cap_scenario() {
    let mut d = Dispatcher::new(limits(None, Some(2000), 2, false));
    let item = seed_item("https://h.com/");
    assert_eq!(d.before_receive(1999, false, 2), LoopStep::Proceed);
    assert!(d.on_action(Action::ProcessURL(item.clone())).is_some());
    assert_eq!(d.before_receive(2000, false, 1), LoopStep::Proceed);
    assert!(d.on_action(Action::ProcessURL(item.clone())).is_none());
    assert_eq!(d.before_receive(2100, false, 1), LoopStep::Spin);
    assert_eq!(d.before_receive(2200, false, 2), LoopStep::Exit);
}

#[test]
fn interrupt_scenario() {
    let mut d = Dispatcher::new(limits(None, None, 2, false));
    let item = seed_item("https://h.com/");
    assert_eq!(d.before_receive(500, false, 2), LoopStep::Proceed);
    assert!(d.on_action(Action::ProcessURL(item.clone())).is_some());
    assert_eq!(d.before_receive(1000, true, 1), LoopStep::Proceed);
    assert_eq!(d.requested_stop_at, Some(1000));
    assert!(d.on_action(Action::ProcessURL(item.clone())).is_none());
    assert_eq!(d.before_receive(2000, true, 0), LoopStep::Spin);
    assert_eq!(d.before_receive(4000, true, 0), LoopStep::Spin);
    assert_eq!(d.before_receive(4001, true, 0), LoopStep::Exit);
}

#[test]
fn discovery_gate() {
    assert!(should_discover(Mode::Discover, 10, "text/html; charset=utf-8", 200));
    assert!(!should_discover(Mode::Single, 10, "text/html", 200));
    assert!(!should_discover(Mode::Discover, 0, "text/html", 200));
    assert!(!should_discover(Mode::Discover, 10, "", 200));
    assert!(!should_discover(Mode::Discover, 10, "application/json", 200));
    assert!(!should_discover(Mode::File, 10, "text/html", 404));
    assert!(should_discover(Mode::File, 10, "text/html", 200));
}

#[test]
fn redirect_policy_steps() {
    let ad = allowed_domains_from_config(None, Mode::Discover, &Some(url("https://h.com")), &None)
        .unwrap();
    assert_eq!(redirect_step(0, &url("https://h.com/next"), &ad), RedirectStep::Follow);
    assert_eq!(redirect_step(5, &url("https://h.com/next"), &ad), RedirectStep::Follow);
    assert_eq!(redirect_step(1, &url("https://other.com/"), &ad), RedirectStep::Stop);
    assert_eq!(redirect_step(6, &url("https://h.com/next"), &ad), RedirectStep::TooMany);
}

#[test]
fn feeder_wraps_round() {
    assert_eq!(next_feed_index(0, 2), 1);
    assert_eq!(next_feed_index(1, 2), 0);
    assert_eq!(next_feed_index(0, 1), 0);
}
