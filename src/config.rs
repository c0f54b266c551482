use crate::hosts::{
    domain_match_from, regex_compiles_of, wildcard_regex, AllowedDomains, DomainMatch,
};
use crate::links::UrlView;
use crate::text::{
    contains_char, opt_view, split_all, split_char, split_once_char, str_eq, str_views,
};
use crate::weburl::{url_parse_of, WebUrl};
use vstd::prelude::*;
use vstd::string::{StrSliceExecFns, StringExecFns};

verus! {

/// What a run feeds into the work queue.
#[derive(Copy, Clone, Debug, PartialEq, Eq, Structural)]
pub enum Mode {
    Discover,
    Single,
    File,
}

/// The HTTP request method.
#[allow(non_camel_case_types)]
#[derive(Copy, Clone, Debug, PartialEq, Eq, Structural)]
pub enum Method {
    GET,
    POST,
    HEAD,
    OPTIONS,
    PUT,
    DELETE,
    CONNECT,
    TRACE,
    PATCH,
}

/// Whether `c` is an ASCII decimal digit.
pub open spec fn is_digit(c: char) -> bool {
    '0' <= c && c <= '9'
}

/// The number that a run of decimal digits spells.
pub open spec fn digits_value(s: Seq<char>) -> nat
    decreases s.len(),
{
    if s.len() == 0 {
        0
    } else {
        digits_value(s.drop_last()) * 10 + (s.last() as u32 - '0' as u32) as nat
    }
}

/// Seconds per duration unit: s, m, h, d, M (30 days) and y (365 days); zero
/// for any other character.
pub open spec fn unit_seconds(c: char) -> nat {
    if c == 's' {
        1
    } else if c == 'm' {
        60
    } else if c == 'h' {
        3600
    } else if c == 'd' {
        86400
    } else if c == 'M' {
        2592000
    } else if c == 'y' {
        31536000
    } else {
        0
    }
}

/// The length in milliseconds of a duration written as digits and one unit
/// letter (`10m`, `2h`); `None` where the text has another shape.
pub open spec fn duration_ms_of(s: Seq<char>) -> Option<nat> {
    if s.len() >= 2 && (forall|i: int| 0 <= i < s.len() - 1 ==> is_digit(s[i])) && unit_seconds(
        s.last(),
    ) > 0 {
        Some(digits_value(s.drop_last()) * unit_seconds(s.last()) * 1000)
    } else {
        None
    }
}

proof fn lemma_digits_prefix_le(s: Seq<char>, k: int)
    requires
        0 <= k <= s.len(),
        forall|i: int| 0 <= i < s.len() ==> is_digit(s[i]),
    ensures
        digits_value(s.subrange(0, k)) <= digits_value(s),
    decreases s.len(),
{
    if k < s.len() {
        assert(s.drop_last().subrange(0, k) =~= s.subrange(0, k));
        lemma_digits_prefix_le(s.drop_last(), k);
    } else {
        assert(s.subrange(0, k) =~= s);
    }
}

fn unit_seconds_exec(c: char) -> (r: u64)
    ensures
        r as nat == unit_seconds(c),
{
    match c {
        's' => 1,
        'm' => 60,
        'h' => 3600,
        'd' => 86400,
        'M' => 2592000,
        'y' => 31536000,
        _ => 0,
    }
}

/// Reads a duration such as `60s` or `2h` as milliseconds; `None` for text of
/// another shape or a length that does not fit in a `u64`.
pub fn parse_duration(s: &str) -> (r: Option<u64>)
    ensures
        r matches Some(v) ==> duration_ms_of(s@) == Some(v as nat),
        r is None ==> (match duration_ms_of(s@) {
            Some(v) => v > u64::MAX,
            None => true,
        }),
{
    let n = s.unicode_len();
    if n < 2 {
        return None;
    }
    let unit = unit_seconds_exec(s.get_char(n - 1));
    if unit == 0 {
        return None;
    }
    let ghost body = s@.drop_last();
    let mut acc: u64 = 0;
    let mut overflow = false;
    let mut i: usize = 0;
    while i < n - 1
        invariant
            i <= n - 1,
            n == s@.len(),
            n >= 2,
            body == s@.drop_last(),
            forall|j: int| 0 <= j < i ==> is_digit(s@[j]),
            !overflow ==> acc as nat == digits_value(body.subrange(0, i as int)),
            overflow ==> exists|k: int|
                0 <= k <= i && digits_value(body.subrange(0, k)) > u64::MAX,
        decreases n - 1 - i,
    {
        let ch = s.get_char(i);
        if !('0' <= ch && ch <= '9') {
            return None;
        }
        proof {
            assert(body.subrange(0, i as int + 1).drop_last() =~= body.subrange(0, i as int));
        }
        if !overflow {
            let next: u128 = acc as u128 * 10 + ((ch as u32) - ('0' as u32)) as u128;
            if next > u64::MAX as u128 {
                overflow = true;
            } else {
                acc = next as u64;
            }
        }
        i += 1;
    }
    assert(body.subrange(0, (n - 1) as int) =~= body);
    if overflow {
        proof {
            let k = choose|k: int| 0 <= k <= n - 1 && digits_value(body.subrange(0, k)) > u64::MAX;
            lemma_digits_prefix_le(body, k);
            let d = digits_value(body);
            let u = unit_seconds(s@.last());
            assert(d * u * 1000 >= d) by (nonlinear_arith)
                requires
                    u >= 1,
            ;
        }
        return None;
    }
    proof {
        let u = unit_seconds(s@.last());
        assert(acc * u * 1000 <= 0xffff_ffff_ffff_ffffu128 * 31536000 * 1000) by (nonlinear_arith)
            requires
                acc <= 0xffff_ffff_ffff_ffffu128,
                u <= 31536000,
        ;
    }
    let total: u128 = acc as u128 * unit as u128 * 1000;
    if total > u64::MAX as u128 {
        return None;
    }
    Some(total as u64)
}

/// HTTP Basic credentials.
#[derive(Debug, Clone)]
pub struct BasicAuth {
    pub username: String,
    pub password: Option<String>,
}

/// Whether `a` is what `user[:pass]` text `s` gives: the user is the text
/// before the first ':', the password the text between the first and a
/// second ':'.
pub open spec fn credentials_of(a: BasicAuth, s: Seq<char>) -> bool {
    &&& a.username@ == split_char(s, ':')[0]
    &&& (split_char(s, ':').len() > 1 ==> opt_view(a.password) == Some(split_char(s, ':')[1]))
    &&& (split_char(s, ':').len() <= 1 ==> a.password is None)
}

/// Whether each header pair is its text split at the first ':'.
pub open spec fn headers_of(v: Seq<(String, String)>, hs: Seq<String>) -> bool {
    v.len() == hs.len() && forall|i: int|
        0 <= i < v.len() ==> hs[i]@ == (#[trigger] v[i]).0@ + seq![':'] + v[i].1@
            && !contains_char(v[i].0@, ':')
}

/// Reads `user[:pass]` credentials.
pub fn parse_basic_auth(s: &str) -> (r: BasicAuth)
    ensures
        credentials_of(r, s@),
{
    let parts = split_all(s, ':');
    proof {
        crate::text::lemma_split_char_nonempty(s@, ':');
        assert(parts@[0]@ == str_views(parts@)[0]);
    }
    let username = parts[0].clone();
    let password = if parts.len() > 1 {
        assert(parts@[1]@ == str_views(parts@)[1]);
        Some(parts[1].clone())
    } else {
        None
    };
    BasicAuth { username, password }
}

/// Reads a custom header written `Name:Value`; `None` without a ':'.
pub fn parse_header(h: &str) -> (r: Option<(String, String)>)
    ensures
        r is None <==> !contains_char(h@, ':'),
        r matches Some(p) ==> h@ == p.0@ + seq![':'] + p.1@ && !contains_char(p.0@, ':'),
{
    split_once_char(h, ':')
}

/// A line without the carriage return that ends it in a CRLF file.
pub open spec fn trim_cr(l: Seq<char>) -> Seq<char> {
    if l.len() > 0 && l.last() == '\r' {
        l.drop_last()
    } else {
        l
    }
}

/// The URLs that the lines of a URL file give, in order, skipping lines that
/// do not parse.
pub open spec fn urls_of_lines(lines: Seq<Seq<char>>) -> Seq<UrlView>
    decreases lines.len(),
{
    if lines.len() == 0 {
        Seq::empty()
    } else {
        let rest = urls_of_lines(lines.drop_last());
        match url_parse_of(trim_cr(lines.last())) {
            Some(u) => rest.push(u),
            None => rest,
        }
    }
}

/// The views of a list of URLs.
pub open spec fn url_views(v: Seq<WebUrl>) -> Seq<UrlView> {
    v.map_values(|u: WebUrl| u@)
}

/// Reads the URL list of file mode: one URL per line, invalid lines skipped.
pub fn parse_url_list(contents: &str) -> (r: Vec<WebUrl>)
    ensures
        url_views(r@) == urls_of_lines(split_char(contents@, '\n')),
{
    let lines = split_all(contents, '\n');
    let mut out: Vec<WebUrl> = Vec::new();
    let mut i: usize = 0;
    while i < lines.len()
        invariant
            i <= lines@.len(),
            str_views(lines@) == split_char(contents@, '\n'),
            url_views(out@) == urls_of_lines(str_views(lines@).subrange(0, i as int)),
        decreases lines@.len() - i,
    {
        proof {
            assert(str_views(lines@).subrange(0, i as int + 1).drop_last() =~= str_views(
                lines@,
            ).subrange(0, i as int));
            assert(lines@[i as int]@ == str_views(lines@)[i as int]);
        }
        let line = lines[i].as_str();
        let n = line.unicode_len();
        let trimmed = if n > 0 && line.get_char(n - 1) == '\r' {
            line.substring_char(0, n - 1)
        } else {
            line
        };
        assert(trimmed@ =~= trim_cr(line@));
        let ghost before = out@;
        match WebUrl::parse(trimmed) {
            Some(u) => {
                out.push(u);
                assert(url_views(out@) =~= url_views(before).push(out@.last()@));
            },
            None => {},
        }
        i += 1;
    }
    assert(str_views(lines@).subrange(0, lines@.len() as int) =~= str_views(lines@));
    out
}

/// An allow-list entry as a flag (true for a pattern) and its text.
pub open spec fn entry_view(d: DomainMatch) -> (bool, Seq<char>) {
    match d {
        DomainMatch::Exact(e) => (false, e@),
        DomainMatch::Regex(p) => (true, p@),
    }
}

/// The entries of an allow-list; `None` when it admits every host.
pub open spec fn allow_list_view(ad: AllowedDomains) -> Option<Seq<(bool, Seq<char>)>> {
    match ad {
        AllowedDomains::All => None,
        AllowedDomains::Custom(v) => Some(v@.map_values(|d: DomainMatch| entry_view(d))),
    }
}

/// The entry made from one user-supplied domain.
pub open spec fn entry_for(d: Seq<char>) -> (bool, Seq<char>) {
    if contains_char(d, '*') {
        (true, wildcard_regex(d))
    } else {
        (false, d)
    }
}

/// The exact-host entry for the seed URL, if there is a seed with a host.
pub open spec fn seed_entries(url: Option<UrlView>) -> Seq<(bool, Seq<char>)> {
    match url {
        Some(u) => match u.2 {
            Some(h) => seq![(false, h)],
            None => Seq::empty(),
        },
        None => Seq::empty(),
    }
}

/// The hosts of a list of URLs, each once, in order of first appearance.
pub open spec fn unique_hosts(urls: Seq<UrlView>) -> Seq<Seq<char>>
    decreases urls.len(),
{
    if urls.len() == 0 {
        Seq::empty()
    } else {
        let rest = unique_hosts(urls.drop_last());
        match urls.last().2 {
            Some(h) => if rest.contains(h) {
                rest
            } else {
                rest.push(h)
            },
            None => rest,
        }
    }
}

/// Whether a user-supplied domain list holds the lone `*` token.
pub open spec fn has_star_token(ds: Seq<Seq<char>>) -> bool {
    exists|i: int| 0 <= i < ds.len() && ds[i] == "*"@
}

/// Whether the pattern of every domain with a `*` compiles.
pub open spec fn wildcards_compile(ds: Seq<Seq<char>>) -> bool {
    forall|i: int|
        0 <= i < ds.len() && contains_char(#[trigger] ds[i], '*') ==> regex_compiles_of(
            wildcard_regex(ds[i]),
        )
}

/// Whether explicit domains, without the `*` token, hold a wildcard domain
/// whose pattern does not compile.
pub open spec fn domain_patterns_fail(domains: Option<Seq<Seq<char>>>) -> bool {
    domains matches Some(ds) && !has_star_token(ds) && !wildcards_compile(ds)
}

/// The allow-list a run gets: `*` admits everything; explicit domains are
/// taken with the seed's host added; otherwise the seed's host, or in file
/// mode the hosts of the URL list.
pub open spec fn expected_allow_list(
    domains: Option<Seq<Seq<char>>>,
    mode: Mode,
    url: Option<UrlView>,
    urls: Option<Seq<UrlView>>,
) -> Option<Seq<(bool, Seq<char>)>> {
    match domains {
        Some(ds) => if has_star_token(ds) {
            None
        } else {
            Some(ds.map_values(|d: Seq<char>| entry_for(d)) + seed_entries(url))
        },
        None => if mode == Mode::File {
            match urls {
                Some(us) => Some(unique_hosts(us).map_values(|h: Seq<char>| (false, h))),
                None => Some(Seq::empty()),
            }
        } else {
            Some(seed_entries(url))
        },
    }
}

/// The views of an optional list of strings.
pub open spec fn opt_str_views(o: Option<Vec<String>>) -> Option<Seq<Seq<char>>> {
    match o {
        Some(v) => Some(str_views(v@)),
        None => None,
    }
}

/// The view of an optional URL.
pub open spec fn opt_url_view(o: Option<WebUrl>) -> Option<UrlView> {
    match o {
        Some(u) => Some(u@),
        None => None,
    }
}

/// The views of an optional list of URLs.
pub open spec fn opt_url_views(o: Option<Vec<WebUrl>>) -> Option<Seq<UrlView>> {
    match o {
        Some(v) => Some(url_views(v@)),
        None => None,
    }
}

fn seed_entry_list(url: &Option<WebUrl>) -> (r: Vec<DomainMatch>)
    ensures
        r@.map_values(|d: DomainMatch| entry_view(d)) == seed_entries(opt_url_view(*url)),
{
    let mut v: Vec<DomainMatch> = Vec::new();
    match url {
        Some(u) => match &u.host {
            Some(h) => {
                v.push(DomainMatch::Exact(h.clone()));
                assert(v@.map_values(|d: DomainMatch| entry_view(d)) =~= seq![(false, h@)]);
            },
            None => {},
        },
        None => {},
    }
    assert(v@.map_values(|d: DomainMatch| entry_view(d)) =~= seed_entries(opt_url_view(*url)));
    v
}

/// Builds the allow-list of a run; `None` when a wildcard domain does not
/// compile.
pub fn allowed_domains_from_config(
    allowed_domains: Option<Vec<String>>,
    mode: Mode,
    url: &Option<WebUrl>,
    urls: &Option<Vec<WebUrl>>,
) -> (r: Option<AllowedDomains>)
    ensures
        r matches Some(ad) ==> allow_list_view(ad) == expected_allow_list(
            opt_str_views(allowed_domains),
            mode,
            opt_url_view(*url),
            opt_url_views(*urls),
        ),
        r is None <==> domain_patterns_fail(opt_str_views(allowed_domains)),
{
    match allowed_domains {
        Some(ds) => {
            let ghost dv = str_views(ds@);
            let mut k: usize = 0;
            while k < ds.len()
                invariant
                    k <= ds@.len(),
                    dv == str_views(ds@),
                    opt_str_views(allowed_domains) == Some(dv),
                    forall|j: int| 0 <= j < k ==> dv[j] != "*"@,
                decreases ds@.len() - k,
            {
                if str_eq(ds[k].as_str(), "*") {
                    assert(0 <= k < dv.len() && dv[k as int] == "*"@);
                    return Some(AllowedDomains::All);
                }
                k += 1;
            }
            let mut entries: Vec<DomainMatch> = Vec::new();
            let mut i: usize = 0;
            while i < ds.len()
                invariant
                    i <= ds@.len(),
                    dv == str_views(ds@),
                    opt_str_views(allowed_domains) == Some(dv),
                    allowed_domains == Some(ds),
                    !has_star_token(dv),
                    forall|j: int|
                        0 <= j < i && contains_char(#[trigger] dv[j], '*') ==> regex_compiles_of(
                            wildcard_regex(dv[j]),
                        ),
                    entries@.map_values(|d: DomainMatch| entry_view(d)) == dv.subrange(
                        0,
                        i as int,
                    ).map_values(|d: Seq<char>| entry_for(d)),
                decreases ds@.len() - i,
            {
                assert(ds@[i as int]@ == dv[i as int]);
                let ghost before = entries@;
                match domain_match_from(ds[i].clone()) {
                    Some(m) => {
                        assert(entry_view(m) == entry_for(dv[i as int]));
                        assert(dv.subrange(0, i as int + 1) =~= dv.subrange(0, i as int).push(
                            dv[i as int],
                        ));
                        entries.push(m);
                        assert(entries@ =~= before.push(m));
                        assert(entries@.map_values(|d: DomainMatch| entry_view(d)) =~= before.map_values(
                            |d: DomainMatch| entry_view(d),
                        ).push(entry_view(m)));
                        assert(entries@.map_values(|d: DomainMatch| entry_view(d)) =~= dv.subrange(
                            0,
                            i as int + 1,
                        ).map_values(|d: Seq<char>| entry_for(d)));
                    },
                    None => {
                        assert(contains_char(dv[i as int], '*') && !regex_compiles_of(
                            wildcard_regex(dv[i as int]),
                        ));
                        return None;
                    },
                }
                i += 1;
            }
            assert(wildcards_compile(dv));
            let seed = seed_entry_list(url);
            let ghost before = entries@;
            let mut seed_mut = seed;
            entries.append(&mut seed_mut);
            assert(dv.subrange(0, ds@.len() as int) =~= dv);
            assert(entries@.map_values(|d: DomainMatch| entry_view(d)) =~= before.map_values(
                |d: DomainMatch| entry_view(d),
            ) + seed_entries(opt_url_view(*url)));
            Some(AllowedDomains::Custom(entries))
        },
        None => {
            if mode == Mode::File {
                match urls {
                    Some(us) => {
                        let mut hosts: Vec<String> = Vec::new();
                        let mut i: usize = 0;
                        while i < us.len()
                            invariant
                                i <= us@.len(),
                                str_views(hosts@) == unique_hosts(url_views(us@).subrange(
                                    0,
                                    i as int,
                                )),
                            decreases us@.len() - i,
                        {
                            proof {
                                assert(url_views(us@).subrange(0, i as int + 1).drop_last()
                                    =~= url_views(us@).subrange(0, i as int));
                            }
                            match &us[i].host {
                                Some(h) => {
                                    let mut seen = false;
                                    let mut j: usize = 0;
                                    while j < hosts.len()
                                        invariant
                                            j <= hosts@.len(),
                                            seen <==> exists|t: int|
                                                0 <= t < j && hosts@[t]@ == h@,
                                        decreases hosts@.len() - j,
                                    {
                                        if str_eq(hosts[j].as_str(), h.as_str()) {
                                            seen = true;
                                        }
                                        j += 1;
                                    }
                                    proof {
                                        let hv = str_views(hosts@);
                                        if seen {
                                            let t = choose|t: int|
                                                0 <= t < hosts@.len() && hosts@[t]@ == h@;
                                            assert(hv[t] == h@);
                                        } else {
                                            assert forall|t: int| 0 <= t < hv.len() implies hv[t]
                                                != h@ by {
                                                assert(hv[t] == hosts@[t]@);
                                            }
                                        }
                                    }
                                    if !seen {
                                        let ghost before = hosts@;
                                        hosts.push(h.clone());
                                        assert(str_views(hosts@) =~= str_views(before).push(
                                            h@,
                                        ));
                                    }
                                },
                                None => {},
                            }
                            i += 1;
                        }
                        assert(url_views(us@).subrange(0, us@.len() as int) =~= url_views(us@));
                        let mut entries: Vec<DomainMatch> = Vec::new();
                        let mut k: usize = 0;
                        while k < hosts.len()
                            invariant
                                k <= hosts@.len(),
                                entries@.map_values(|d: DomainMatch| entry_view(d))
                                    == str_views(hosts@).subrange(0, k as int).map_values(
                                    |h: Seq<char>| (false, h),
                                ),
                            decreases hosts@.len() - k,
                        {
                            assert(hosts@[k as int]@ == str_views(hosts@)[k as int]);
                            assert(str_views(hosts@).subrange(0, k as int + 1) =~= str_views(
                                hosts@,
                            ).subrange(0, k as int).push(hosts@[k as int]@));
                            let ghost before = entries@;
                            let e = DomainMatch::Exact(hosts[k].clone());
                            assert(entry_view(e) == (false, hosts@[k as int]@));
                            entries.push(e);
                            assert(entries@.map_values(|d: DomainMatch| entry_view(d))
                                =~= before.map_values(|d: DomainMatch| entry_view(d)).push(
                                entry_view(e),
                            ));
                            assert(entries@.map_values(|d: DomainMatch| entry_view(d))
                                =~= str_views(hosts@).subrange(0, k as int + 1).map_values(
                                |h: Seq<char>| (false, h),
                            ));
                            k += 1;
                        }
                        assert(str_views(hosts@).subrange(0, hosts@.len() as int) =~= str_views(
                            hosts@,
                        ));
                        Some(AllowedDomains::Custom(entries))
                    },
                    None => {
                        let entries: Vec<DomainMatch> = Vec::new();
                        assert(entries@.map_values(|d: DomainMatch| entry_view(d)) =~= Seq::<
                            (bool, Seq<char>),
                        >::empty());
                        Some(AllowedDomains::Custom(entries))
                    },
                }
            } else {
                Some(AllowedDomains::Custom(seed_entry_list(url)))
            }
        },
    }
}

/// The run options as the user gave them.
#[derive(Debug, Clone)]
pub struct RawConfig {
    pub url: String,
    pub mode: Mode,
    pub method: Method,
    pub concurrent: u16,
    pub timeout_connect: u64,
    pub timeout: u64,
    pub disable_compression: bool,
    pub verbose: bool,
    pub requests: Option<u64>,
    pub duration: Option<String>,
    pub follow_redirects: bool,
    pub header: Option<Vec<String>>,
    pub allowed_domains: Option<Vec<String>>,
    pub prevent_duplicate_requests: bool,
    pub no_delayed_start: bool,
    pub basic_auth: Option<String>,
    pub random_arguments: bool,
}

/// Why a set of run options is refused.
#[derive(Copy, Clone, Debug, PartialEq, Eq, Structural)]
pub enum ConfigError {
    TimeoutConnectTooSmall,
    TimeoutTooSmall,
    NoConcurrency,
    InvalidHeader,
    RequestsBelowConcurrency,
    DuplicatesOutsideDiscover,
    InvalidUrl,
    NoValidUrls,
    InvalidDuration,
    InvalidDomainPattern,
}

/// A validated run configuration; timeouts and the duration in milliseconds.
#[derive(Debug, Clone)]
pub struct Config {
    pub url: Option<WebUrl>,
    pub concurrent: u16,
    pub timeout_connect: u64,
    pub timeout: u64,
    pub disable_compression: bool,
    pub verbose: bool,
    pub requests: Option<u64>,
    pub follow_redirects: bool,
    pub headers: Vec<(String, String)>,
    pub mode: Mode,
    pub method: Method,
    pub allowed_domains: AllowedDomains,
    pub prevent_duplicate_requests: bool,
    pub duration: Option<u64>,
    pub no_delayed_start: bool,
    pub urls: Option<Vec<WebUrl>>,
    pub basic_auth: Option<BasicAuth>,
    pub random_arguments: bool,
}

/// The smallest timeout accepted, in milliseconds.
pub const MIN_TIMEOUT_MS: u64 = 50;

/// The request cap when none is given outside discover mode and no duration
/// is set.
pub const DEFAULT_REQUESTS: u64 = 1000;

/// The request cap a run gets.
pub open spec fn requests_for(raw: RawConfig) -> Option<u64> {
    match raw.requests {
        Some(n) => Some(n),
        None => if raw.mode == Mode::Discover || raw.duration is Some {
            None
        } else {
            Some(DEFAULT_REQUESTS)
        },
    }
}

/// Whether every custom header has a ':'.
pub open spec fn headers_valid(h: Option<Vec<String>>) -> bool {
    h is Some ==> forall|i: int|
        0 <= i < h->Some_0@.len() ==> contains_char(#[trigger] h->Some_0@[i]@, ':')
}

/// Whether the duration option, if given, is one that fits in milliseconds.
pub open spec fn duration_valid(d: Option<String>) -> bool {
    match d {
        Some(s) => match duration_ms_of(s@) {
            Some(v) => v <= u64::MAX,
            None => false,
        },
        None => true,
    }
}

/// The URLs of file mode, from the file's text if it could be read.
pub open spec fn file_urls(contents: Option<String>) -> Seq<UrlView> {
    match contents {
        Some(c) => urls_of_lines(split_char(c@, '\n')),
        None => Seq::empty(),
    }
}

/// The first refusal that the checks on the options give, in this order;
/// a wildcard domain that does not compile is refused after all of them.
pub open spec fn config_error(raw: RawConfig, contents: Option<String>) -> Option<ConfigError> {
    if raw.timeout_connect < MIN_TIMEOUT_MS {
        Some(ConfigError::TimeoutConnectTooSmall)
    } else if raw.timeout < MIN_TIMEOUT_MS {
        Some(ConfigError::TimeoutTooSmall)
    } else if raw.concurrent == 0 {
        Some(ConfigError::NoConcurrency)
    } else if !headers_valid(raw.header) {
        Some(ConfigError::InvalidHeader)
    } else if requests_for(raw) matches Some(n) && n < raw.concurrent {
        Some(ConfigError::RequestsBelowConcurrency)
    } else if raw.prevent_duplicate_requests && raw.mode != Mode::Discover {
        Some(ConfigError::DuplicatesOutsideDiscover)
    } else if raw.mode != Mode::File && url_parse_of(raw.url@) is None {
        Some(ConfigError::InvalidUrl)
    } else if raw.mode == Mode::File && file_urls(contents).len() == 0 {
        Some(ConfigError::NoValidUrls)
    } else if !duration_valid(raw.duration) {
        Some(ConfigError::InvalidDuration)
    } else {
        None
    }
}

proof fn lemma_header_invalid(v: Vec<String>, i: int)
    requires
        0 <= i < v@.len(),
        !contains_char(v@[i]@, ':'),
    ensures
        !headers_valid(Some(v)),
{
    let o = Some(v);
    assert(o->Some_0@[i]@ == v@[i]@);
    assert(!headers_valid(o));
}

fn parse_headers(h: &Option<Vec<String>>) -> (r: Option<Vec<(String, String)>>)
    ensures
        r is Some <==> headers_valid(*h),
        r matches Some(v) ==> (h matches Some(hs) ==> headers_of(v@, hs@)),
        h is None ==> (r matches Some(v) && v@.len() == 0),
{
    let mut out: Vec<(String, String)> = Vec::new();
    match h {
        Some(hs) => {
            let mut i: usize = 0;
            while i < hs.len()
                invariant
                    i <= hs@.len(),
                    *h == Some(*hs),
                    out@.len() == i,
                    forall|j: int| 0 <= j < i ==> contains_char(#[trigger] hs@[j]@, ':'),
                    forall|j: int|
                        0 <= j < i ==> hs@[j]@ == (#[trigger] out@[j]).0@ + seq![':'] + out@[j].1@
                            && !contains_char(out@[j].0@, ':'),
                decreases hs@.len() - i,
            {
                match parse_header(hs[i].as_str()) {
                    Some(p) => out.push(p),
                    None => {
                        proof {
                            lemma_header_invalid(*hs, i as int);
                        }
                        return None;
                    },
                }
                i += 1;
            }
            Some(out)
        },
        None => Some(out),
    }
}

impl Config {
    /// The invariants of a validated configuration.
    pub open spec fn wf(&self) -> bool {
        &&& self.concurrent >= 1
        &&& self.timeout_connect >= MIN_TIMEOUT_MS
        &&& self.timeout >= MIN_TIMEOUT_MS
        &&& (self.requests matches Some(n) ==> n >= self.concurrent)
        &&& (self.prevent_duplicate_requests ==> self.mode == Mode::Discover)
        &&& (self.mode == Mode::File ==> self.url is None && (self.urls matches Some(v) && v@.len()
            > 0))
        &&& (self.mode != Mode::File ==> self.url is Some && self.urls is None)
    }

    /// Validates the options. `file_contents` is the text of the URL file in
    /// file mode, `None` when it could not be read.
    pub fn new(raw: RawConfig, file_contents: Option<String>) -> (r: Result<Config, ConfigError>)
        ensures
            config_error(raw, file_contents) matches Some(e) ==> r == Err::<Config, ConfigError>(
                e,
            ),
            config_error(raw, file_contents) is None ==> (if domain_patterns_fail(
                opt_str_views(raw.allowed_domains),
            ) {
                r == Err::<Config, ConfigError>(ConfigError::InvalidDomainPattern)
            } else {
                r is Ok
            }),
            r matches Ok(c) ==> {
                &&& c.wf()
                &&& c.concurrent == raw.concurrent
                &&& c.timeout_connect == raw.timeout_connect
                &&& c.timeout == raw.timeout
                &&& c.requests == requests_for(raw)
                &&& c.mode == raw.mode
                &&& c.method == raw.method
                &&& c.disable_compression == raw.disable_compression
                &&& c.verbose == raw.verbose
                &&& c.follow_redirects == raw.follow_redirects
                &&& c.prevent_duplicate_requests == raw.prevent_duplicate_requests
                &&& c.no_delayed_start == raw.no_delayed_start
                &&& c.random_arguments == raw.random_arguments
                &&& (raw.mode != Mode::File ==> opt_url_view(c.url) == url_parse_of(raw.url@)
                    && c.urls is None)
                &&& (raw.mode == Mode::File ==> c.url is None && opt_url_views(c.urls) == Some(
                    file_urls(file_contents),
                ))
                &&& match raw.duration {
                    Some(d) => c.duration matches Some(ms) && duration_ms_of(d@) == Some(
                        ms as nat,
                    ),
                    None => c.duration is None,
                }
                &&& allow_list_view(c.allowed_domains) == expected_allow_list(
                    opt_str_views(raw.allowed_domains),
                    raw.mode,
                    opt_url_view(c.url),
                    opt_url_views(c.urls),
                )
                &&& match raw.basic_auth {
                    Some(b) => c.basic_auth matches Some(a) && credentials_of(a, b@),
                    None => c.basic_auth is None,
                }
                &&& match raw.header {
                    Some(hs) => headers_of(c.headers@, hs@),
                    None => c.headers@.len() == 0,
                }
            },
    {
        if raw.timeout_connect < MIN_TIMEOUT_MS {
            return Err(ConfigError::TimeoutConnectTooSmall);
        }
        if raw.timeout < MIN_TIMEOUT_MS {
            return Err(ConfigError::TimeoutTooSmall);
        }
        if raw.concurrent == 0 {
            return Err(ConfigError::NoConcurrency);
        }
        let headers = match parse_headers(&raw.header) {
            Some(h) => h,
            None => {
                return Err(ConfigError::InvalidHeader);
            },
        };
        let requests = match raw.requests {
            Some(n) => Some(n),
            None => if raw.mode == Mode::Discover || raw.duration.is_some() {
                None
            } else {
                Some(DEFAULT_REQUESTS)
            },
        };
        if let Some(n) = requests {
            if n < raw.concurrent as u64 {
                return Err(ConfigError::RequestsBelowConcurrency);
            }
        }
        if raw.prevent_duplicate_requests && raw.mode != Mode::Discover {
            return Err(ConfigError::DuplicatesOutsideDiscover);
        }
        let url = if raw.mode != Mode::File {
            match WebUrl::parse(raw.url.as_str()) {
                Some(u) => Some(u),
                None => {
                    return Err(ConfigError::InvalidUrl);
                },
            }
        } else {
            None
        };
        let urls = if raw.mode == Mode::File {
            let list = match &file_contents {
                Some(c) => parse_url_list(c.as_str()),
                None => Vec::new(),
            };
            assert(url_views(list@) == file_urls(file_contents)) by {
                if file_contents is None {
                    assert(url_views(list@) =~= Seq::<UrlView>::empty());
                }
            }
            if list.len() == 0 {
                return Err(ConfigError::NoValidUrls);
            }
            Some(list)
        } else {
            None
        };
        let duration = match &raw.duration {
            Some(d) => match parse_duration(d.as_str()) {
                Some(ms) => Some(ms),
                None => {
                    return Err(ConfigError::InvalidDuration);
                },
            },
            None => None,
        };
        let allowed_domains = match allowed_domains_from_config(
            raw.allowed_domains.clone(),
            raw.mode,
            &url,
            &urls,
        ) {
            Some(ad) => ad,
            None => {
                return Err(ConfigError::InvalidDomainPattern);
            },
        };
        let basic_auth = match &raw.basic_auth {
            Some(b) => Some(parse_basic_auth(b.as_str())),
            None => None,
        };
        Ok(Config {
            url,
            concurrent: raw.concurrent,
            timeout_connect: raw.timeout_connect,
            timeout: raw.timeout,
            disable_compression: raw.disable_compression,
            verbose: raw.verbose,
            requests,
            follow_redirects: raw.follow_redirects,
            headers,
            mode: raw.mode,
            method: raw.method,
            allowed_domains,
            prevent_duplicate_requests: raw.prevent_duplicate_requests,
            duration,
            no_delayed_start: raw.no_delayed_start,
            urls,
            basic_auth,
            random_arguments: raw.random_arguments,
        })
    }
}

} // verus!
