use crawlstorm::config::{
    allowed_domains_from_config, parse_basic_auth, parse_duration, parse_header,
    parse_url_list, Config, ConfigError, Method, Mode, RawConfig,
};
use crawlstorm::hosts::{AllowedDomains, DomainMatch};
use crawlstorm::weburl::WebUrl;

fn raw(url: &str, mode: Mode) -> RawConfig {
    RawConfig {
        url: url.to_string(),
        mode,
        method: Method::GET,
        concurrent: 2,
        timeout_connect: 1000,
        timeout: 3000,
        disable_compression: false,
        verbose: false,
        requests: None,
        duration: None,
        follow_redirects: false,
        header: None,
        allowed_domains: None,
        prevent_duplicate_requests: false,
        no_delayed_start: false,
        basic_auth: None,
        random_arguments: false,
    }
}

fn exact_hosts(ad: &AllowedDomains) -> Vec<String> {
    match ad {
        AllowedDomains::All => panic!("expected an explicit list"),
        AllowedDomains::Custom(v) => v
            .iter()
            .map(|d| match d {
                DomainMatch::Exact(e) => e.clone(),
                DomainMatch::Regex(p) => format!("re:{}", p.as_str()),
            })
            .collect(),
    }
}

#[test]
fn domains_from_config() {
    let domains = vec!["example.com".to_string(), "*.example.com".to_string()];
    let urls = Some(vec![WebUrl::parse("https://test.com").unwrap()]);

    match allowed_domains_from_config(Some(domains.clone()), Mode::File, &None, &urls).unwrap() {
        AllowedDomains::Custom(domains) => {
            assert_eq!(domains.len(), 2);

            match domains.get(0) {
                Some(DomainMatch::Exact(d)) => assert_eq!(d, "example.com"),
                _ => panic!("Expected exact domain"),
            }

            match domains.get(1) {
                Some(DomainMatch::Regex(r)) => {
                    assert_eq!(r.as_str(), "^(?:.*?\\.)?example\\.com$")
                }
                _ => panic!("Expected regex domain"),
            }
        }
        _ => panic!("Invalid domain match"),
    }
}

#[test]
fn wildcard_that_does_not_compile() {
    let r = allowed_domains_from_config(
        Some(vec!["ok.com".to_string(), "*.(bad".to_string()]),
        Mode::Discover,
        &None,
        &None,
    );
    assert!(r.is_none());
    let mut c = raw("https://example.com", Mode::Discover);
    c.concurrent = 1001;
    assert_eq!(Config::new(c, None).unwrap().requests, None);
}

#[test]
fn star_token_admits_everything() {
    let ad = allowed_domains_from_config(
        Some(vec!["a.com".to_string(), "*".to_string()]),
        Mode::Discover,
        &WebUrl::parse("https://seed.com"),
        &None,
    )
    .unwrap();
    assert!(matches!(ad, AllowedDomains::All));
}

#[test]
fn explicit_domains_add_seed_host() {
    let ad = allowed_domains_from_config(
        Some(vec!["*.example.com".to_string()]),
        Mode::Discover,
        &WebUrl::parse("https://a.example.com"),
        &None,
    )
    .unwrap();
    assert_eq!(
        exact_hosts(&ad),
        vec!["re:^(?:.*?\\.)?example\\.com$".to_string(), "a.example.com".to_string()]
    );
}

#[test]
fn file_mode_two_hosts_allow_list() {
    let urls = parse_url_list("https://h1/x\nhttps://h2/y\nhttps://h1/z\n");
    assert_eq!(urls.len(), 3);
    let ad = allowed_domains_from_config(None, Mode::File, &None, &Some(urls)).unwrap();
    assert_eq!(exact_hosts(&ad), vec!["h1".to_string(), "h2".to_string()]);
}

#[test]
fn single_mode_defaults_to_seed_host() {
    let ad = allowed_domains_from_config(
        None,
        Mode::Single,
        &WebUrl::parse("https://seed.org/page"),
        &None,
    )
    .unwrap();
    assert_eq!(exact_hosts(&ad), vec!["seed.org".to_string()]);
}

#[test]
fn duration_units() {
    assert_eq!(parse_duration("2s"), Some(2_000));
    assert_eq!(parse_duration("10m"), Some(600_000));
    assert_eq!(parse_duration("2h"), Some(7_200_000));
    assert_eq!(parse_duration("1d"), Some(86_400_000));
    assert_eq!(parse_duration("1M"), Some(2_592_000_000));
    assert_eq!(parse_duration("1y"), Some(31_536_000_000));
    assert_eq!(parse_duration("007s"), Some(7_000));
}

#[test]
fn duration_rejects_bad_text() {
    assert_eq!(parse_duration(""), None);
    assert_eq!(parse_duration("s"), None);
    assert_eq!(parse_duration("10"), None);
    assert_eq!(parse_duration("10x"), None);
    assert_eq!(parse_duration("1,s"), None);
    assert_eq!(parse_duration("-1s"), None);
    assert_eq!(parse_duration("99999999999999999999s"), None);
    assert_eq!(parse_duration("999999999999999y"), None);
}

#[test]
fn basic_auth_forms() {
    let a = parse_basic_auth("user:secret");
    assert_eq!(a.username, "user");
    assert_eq!(a.password.as_deref(), Some("secret"));
    let b = parse_basic_auth("user");
    assert_eq!(b.username, "user");
    assert_eq!(b.password, None);
    let c = parse_basic_auth("u:p:extra");
    assert_eq!(c.username, "u");
    assert_eq!(c.password.as_deref(), Some("p"));
}

#[test]
fn header_forms() {
    assert_eq!(
        parse_header("X-Key: a:b"),
        Some(("X-Key".to_string(), " a:b".to_string()))
    );
    assert_eq!(parse_header("nocolon"), None);
}

#[test]
fn url_list_skips_invalid_and_trims_cr() {
    let urls = parse_url_list("https://a.com/x\r\nnot a url\r\nhttps://b.com/y");
    assert_eq!(urls.len(), 2);
    assert_eq!(urls[0].as_str(), "https://a.com/x");
    assert_eq!(urls[1].as_str(), "https://b.com/y");
}

#[test]
fn config_defaults_and_fields() {
    let c = Config::new(raw("https://example.com/start", Mode::Single), None).unwrap();
    assert_eq!(c.requests, Some(1000));
    assert_eq!(c.concurrent, 2);
    assert_eq!(c.url.as_ref().unwrap().as_str(), "https://example.com/start");
    assert_eq!(exact_hosts(&c.allowed_domains), vec!["example.com".to_string()]);

    let d = Config::new(raw("https://example.com", Mode::Discover), None).unwrap();
    assert_eq!(d.requests, None);

    let mut r = raw("https://example.com", Mode::Single);
    r.duration = Some("2s".to_string());
    let e = Config::new(r, None).unwrap();
    assert_eq!(e.requests, None);
    assert_eq!(e.duration, Some(2000));
}

#[test]
fn config_errors() {
    let mut r = raw("https://example.com", Mode::Single);
    r.timeout_connect = 49;
    assert!(matches!(Config::new(r, None), Err(ConfigError::TimeoutConnectTooSmall)));

    let mut r = raw("https://example.com", Mode::Single);
    r.timeout = 10;
    assert!(matches!(Config::new(r, None), Err(ConfigError::TimeoutTooSmall)));

    let mut r = raw("https://example.com", Mode::Single);
    r.concurrent = 0;
    assert!(matches!(Config::new(r, None), Err(ConfigError::NoConcurrency)));

    let mut r = raw("https://example.com", Mode::Single);
    r.header = Some(vec!["bad".to_string()]);
    assert!(matches!(Config::new(r, None), Err(ConfigError::InvalidHeader)));

    let mut r = raw("https://example.com", Mode::Single);
    r.concurrent = 4;
    r.requests = Some(3);
    assert!(matches!(Config::new(r, None), Err(ConfigError::RequestsBelowConcurrency)));

    let mut r = raw("https://example.com", Mode::Single);
    r.concurrent = 1001;
    assert!(matches!(Config::new(r, None), Err(ConfigError::RequestsBelowConcurrency)));

    let mut r = raw("https://example.com", Mode::Single);
    r.prevent_duplicate_requests = true;
    assert!(matches!(Config::new(r, None), Err(ConfigError::DuplicatesOutsideDiscover)));

    let r = raw("not a url", Mode::Discover);
    assert!(matches!(Config::new(r, None), Err(ConfigError::InvalidUrl)));

    let r = raw("list.txt", Mode::File);
    assert!(matches!(
        Config::new(r, Some("nothing here\n".to_string())),
        Err(ConfigError::NoValidUrls)
    ));

    let mut r = raw("https://example.com", Mode::Single);
    r.duration = Some("5q".to_string());
    assert!(matches!(Config::new(r, None), Err(ConfigError::InvalidDuration)));

    let mut r = raw("https://example.com", Mode::Discover);
    r.allowed_domains = Some(vec!["*.(bad".to_string()]);
    assert!(matches!(Config::new(r, None), Err(ConfigError::InvalidDomainPattern)));
}

#[test]
fn file_mode_config() {
    let mut r = raw("list.txt", Mode::File);
    r.requests = Some(10);
    let c = Config::new(r, Some("https://h1/x\nhttps://h2/y".to_string())).unwrap();
    assert!(c.url.is_none());
    assert_eq!(c.urls.as_ref().unwrap().len(), 2);
    assert_eq!(exact_hosts(&c.allowed_domains), vec!["h1".to_string(), "h2".to_string()]);
}
