use crate::text::{contains_char, has_char, lemma_split_char_nonempty, split_char, str_eq};
use crate::weburl::WebUrl;
use vstd::prelude::*;
use vstd::string::{StrSliceExecFns, StringExecFns};

verus! {

#[verifier::external_type_specification]
#[verifier::external_body]
pub struct ExRegex(regex::Regex);

/// Relies on regex's Clone for Regex; nothing is claimed of the copy.
pub assume_specification[ <regex::Regex as Clone>::clone ](r: &regex::Regex) -> regex::Regex;

/// Whether a regular expression written as `pattern` matches somewhere in
/// `haystack`.
pub uninterp spec fn regex_match_of(pattern: Seq<char>, haystack: Seq<char>) -> bool;

/// A compiled host pattern, kept with the text it was compiled from.
#[derive(Debug, Clone)]
pub struct HostPattern {
    source: String,
    compiled: regex::Regex,
}

impl View for HostPattern {
    type V = Seq<char>;

    closed spec fn view(&self) -> Seq<char> {
        self.source@
    }
}

/// Whether a regular expression written as `pattern` compiles.
pub uninterp spec fn regex_compiles_of(pattern: Seq<char>) -> bool;

/// Relies on regex::Regex::new to compile `source`; `None` on regex's error,
/// which depends on the pattern's text alone.
#[verifier::external_body]
fn compile_host_pattern(source: String) -> (r: Option<HostPattern>)
    ensures
        r is Some <==> regex_compiles_of(source@),
        r matches Some(p) ==> p@ == source@,
{
    match regex::Regex::new(&source) {
        Ok(compiled) => Some(HostPattern { source, compiled }),
        Err(_) => None,
    }
}

/// Relies on regex::Regex::is_match of the pattern compiled from `p@`.
#[verifier::external_body]
fn host_pattern_is_match(p: &HostPattern, host: &str) -> (r: bool)
    ensures
        r == regex_match_of(p@, host@),
{
    p.compiled.is_match(host)
}

impl HostPattern {
    /// The regular expression's text.
    pub fn as_str(&self) -> (r: &str)
        ensures
            r@ == self@,
    {
        self.source.as_str()
    }
}

/// One entry of an allow-list.
#[derive(Debug, Clone)]
pub enum DomainMatch {
    Exact(String),
    Regex(HostPattern),
}

/// Which hosts may be requested.
#[derive(Debug, Clone)]
pub enum AllowedDomains {
    All,
    Custom(Vec<DomainMatch>),
}

/// Whether one allow-list entry admits a URL's host.
pub open spec fn domain_admits(d: DomainMatch, host: Option<Seq<char>>) -> bool {
    match d {
        DomainMatch::Exact(e) => host == Some(e@),
        DomainMatch::Regex(p) => match host {
            Some(h) => regex_match_of(p@, h),
            None => false,
        },
    }
}

/// Whether an allow-list admits a URL's host.
pub open spec fn host_admitted(ad: AllowedDomains, host: Option<Seq<char>>) -> bool {
    match ad {
        AllowedDomains::All => true,
        AllowedDomains::Custom(v) => exists|i: int| 0 <= i < v@.len() && #[trigger] domain_admits(v@[i], host),
    }
}

proof fn lemma_admitted_by_entry(v: Vec<DomainMatch>, i: int, host: Option<Seq<char>>)
    requires
        0 <= i < v@.len(),
        domain_admits(v@[i], host),
    ensures
        host_admitted(AllowedDomains::Custom(v), host),
{
    let ad = AllowedDomains::Custom(v);
    assert(ad matches AllowedDomains::Custom(w) && w@ == v@);
}

/// A label as it stands in a host pattern: a lone `*` matches any text, lazily.
pub open spec fn label_regex(l: Seq<char>) -> Seq<char> {
    if l == "*"@ {
        ".*?"@
    } else {
        l
    }
}

/// A label that is followed by another, with the dot between them: a lone
/// `*` together with its dot is optional, so that `*.example.com` matches
/// `example.com` and any host ending in `.example.com`, and no other.
pub open spec fn label_with_sep(l: Seq<char>) -> Seq<char> {
    if l == "*"@ {
        "(?:.*?\\.)?"@
    } else {
        l + "\\."@
    }
}

/// Each label of `ls` with the dot that follows it.
pub open spec fn labels_with_seps(ls: Seq<Seq<char>>) -> Seq<char>
    decreases ls.len(),
{
    if ls.len() == 0 {
        Seq::empty()
    } else {
        labels_with_seps(ls.drop_last()) + label_with_sep(ls.last())
    }
}

/// The anchored regular expression for a host pattern with wildcards.
pub open spec fn wildcard_regex(d: Seq<char>) -> Seq<char> {
    let ls = split_char(d, '.');
    "^"@ + labels_with_seps(ls.drop_last()) + label_regex(ls.last()) + "$"@
}

proof fn lemma_split_no_sep(q: Seq<char>, c: char)
    requires
        !contains_char(q, c),
    ensures
        split_char(q, c) == seq![q],
    decreases q.len(),
{
    if q.len() > 0 {
        assert(!contains_char(q.drop_last(), c)) by {
            if contains_char(q.drop_last(), c) {
                let i = choose|i: int| 0 <= i < q.drop_last().len() && q.drop_last()[i] == c;
                assert(q[i] == c);
            }
        }
        lemma_split_no_sep(q.drop_last(), c);
        assert(q.last() != c);
        assert(q.drop_last().push(q.last()) =~= q);
        assert(seq![q.drop_last()].update(0, q.drop_last().push(q.last())) =~= seq![q]);
    } else {
        assert(q =~= Seq::<char>::empty());
    }
}

proof fn lemma_split_append_tail(p: Seq<char>, q: Seq<char>, c: char)
    requires
        !contains_char(q, c),
    ensures
        split_char(p + seq![c] + q, c) == split_char(p, c).push(q),
    decreases q.len(),
{
    let s = p + seq![c] + q;
    if q.len() == 0 {
        assert(s.drop_last() =~= p);
        assert(q =~= Seq::<char>::empty());
    } else {
        let q1 = q.drop_last();
        assert(!contains_char(q1, c)) by {
            if contains_char(q1, c) {
                let i = choose|i: int| 0 <= i < q1.len() && q1[i] == c;
                assert(q[i] == c);
            }
        }
        lemma_split_append_tail(p, q1, c);
        assert(s.drop_last() =~= p + seq![c] + q1);
        assert(q.last() != c);
        assert(q1.push(q.last()) =~= q);
        assert(split_char(p, c).push(q1).update(split_char(p, c).len() as int, q1.push(q.last()))
            =~= split_char(p, c).push(q));
    }
}

/// The pattern built for `*.example.com` is `^(?:.*?\.)?example\.com$`:
/// the wildcard label and its dot form one optional group.
pub proof fn lemma_wildcard_example_pattern()
    ensures
        wildcard_regex("*.example.com"@) == "^(?:.*?\\.)?example\\.com$"@,
{
    reveal_strlit("*.example.com");
    reveal_strlit("^(?:.*?\\.)?example\\.com$");
    reveal_strlit("*");
    reveal_strlit("(?:.*?\\.)?");
    reveal_strlit("\\.");
    reveal_strlit("^");
    reveal_strlit("$");
    reveal_strlit("example");
    reveal_strlit("com");
    let d = "*.example.com"@;
    let star = "*"@;
    let ex = "example"@;
    let com = "com"@;
    assert(!contains_char(star, '.'));
    assert(!contains_char(ex, '.'));
    assert(!contains_char(com, '.'));
    lemma_split_no_sep(star, '.');
    lemma_split_append_tail(star, ex, '.');
    lemma_split_append_tail(star + seq!['.'] + ex, com, '.');
    assert(d =~= star + seq!['.'] + ex + seq!['.'] + com);
    let ls = split_char(d, '.');
    assert(ls =~= seq![star, ex, com]);
    let a = ls.drop_last();
    assert(a =~= seq![star, ex]);
    assert(a.drop_last() =~= seq![star]);
    assert(a.drop_last().drop_last() =~= Seq::<Seq<char>>::empty());
    assert(label_regex(com) == com);
    assert(label_with_sep(star) == "(?:.*?\\.)?"@);
    assert(label_with_sep(ex) == ex + "\\."@);
    reveal_with_fuel(labels_with_seps, 3);
    assert(labels_with_seps(a) =~= "(?:.*?\\.)?"@ + ex + "\\."@);
    assert(wildcard_regex(d) =~= "^(?:.*?\\.)?example\\.com$"@);
}

fn label_regex_exec<'a>(l: &'a str) -> (r: &'a str)
    ensures
        r@ == label_regex(l@),
{
    if str_eq(l, "*") {
        ".*?"
    } else {
        l
    }
}

/// Builds the anchored regular expression for a host pattern with wildcards.
pub fn wildcard_source(d: &str) -> (r: String)
    ensures
        r@ == wildcard_regex(d@),
{
    let n = d.unicode_len();
    let mut out = String::from_str("^");
    let mut start: usize = 0;
    let mut i: usize = 0;
    proof {
        assert(d@.subrange(0, 0) =~= Seq::<char>::empty());
    }
    while i < n
        invariant
            start <= i <= n,
            n == d@.len(),
            split_char(d@.subrange(0, i as int), '.').len() >= 1,
            split_char(d@.subrange(0, i as int), '.').last() == d@.subrange(start as int, i as int),
            out@ == "^"@ + labels_with_seps(split_char(d@.subrange(0, i as int), '.').drop_last()),
        decreases n - i,
    {
        let ghost pre = d@.subrange(0, i as int);
        let ghost next = d@.subrange(0, i as int + 1);
        proof {
            assert(next.drop_last() =~= pre);
            lemma_split_char_nonempty(next, '.');
        }
        if d.get_char(i) == '.' {
            let label = d.substring_char(start, i);
            if str_eq(label, "*") {
                out.append("(?:.*?\\.)?");
            } else {
                out.append(label);
                out.append("\\.");
            }
            start = i + 1;
            proof {
                let ls = split_char(pre, '.');
                assert(split_char(next, '.') == ls.push(Seq::empty()));
                assert(split_char(next, '.').drop_last() =~= ls);
                assert(d@.subrange(start as int, i as int + 1) =~= Seq::<char>::empty());
                assert(labels_with_seps(ls) == labels_with_seps(ls.drop_last()) + label_with_sep(
                    ls.last(),
                ));
                assert(out@ =~= "^"@ + labels_with_seps(ls));
            }
        } else {
            proof {
                let ls = split_char(pre, '.');
                let c = d@[i as int];
                assert(split_char(next, '.') == ls.update(ls.len() - 1, ls.last().push(c)));
                assert(split_char(next, '.').drop_last() =~= ls.drop_last());
                assert(d@.subrange(start as int, i as int + 1) =~= d@.subrange(
                    start as int,
                    i as int,
                ).push(c));
            }
        }
        i += 1;
    }
    let label = d.substring_char(start, n);
    out.append(label_regex_exec(label));
    out.append("$");
    proof {
        assert(d@.subrange(0, n as int) =~= d@);
    }
    out
}

/// Turns one user-supplied domain into an allow-list entry: text without `*`
/// is an exact host, text with it a compiled wildcard pattern. `None` when
/// the pattern does not compile.
pub fn domain_match_from(d: String) -> (r: Option<DomainMatch>)
    ensures
        !contains_char(d@, '*') ==> (r matches Some(DomainMatch::Exact(e)) && e@ == d@),
        contains_char(d@, '*') ==> (r is Some <==> regex_compiles_of(wildcard_regex(d@))),
        contains_char(d@, '*') ==> (r matches Some(m) ==> (m matches DomainMatch::Regex(p) && p@
            == wildcard_regex(d@))),
{
    if !has_char(d.as_str(), '*') {
        return Some(DomainMatch::Exact(d));
    }
    let source = wildcard_source(d.as_str());
    match compile_host_pattern(source) {
        Some(p) => Some(DomainMatch::Regex(p)),
        None => None,
    }
}

/// Whether the allow-list admits the URL's host.
pub fn is_allowed_host(url: &WebUrl, allowed_domains: &AllowedDomains) -> (r: bool)
    ensures
        r == host_admitted(*allowed_domains, url@.2),
{
    match allowed_domains {
        AllowedDomains::All => true,
        AllowedDomains::Custom(domains) => {
            let mut i: usize = 0;
            while i < domains.len()
                invariant
                    i <= domains@.len(),
                    *allowed_domains == AllowedDomains::Custom(*domains),
                    forall|j: int| 0 <= j < i ==> !domain_admits(domains@[j], url@.2),
                decreases domains@.len() - i,
            {
                let hit = match &domains[i] {
                    DomainMatch::Exact(e) => match &url.host {
                        Some(h) => str_eq(h.as_str(), e.as_str()),
                        None => false,
                    },
                    DomainMatch::Regex(p) => match &url.host {
                        Some(h) => host_pattern_is_match(p, h.as_str()),
                        None => false,
                    },
                };
                assert(hit == domain_admits(domains@[i as int], url@.2));
                if hit {
                    assert(0 <= i < domains@.len() && domain_admits(domains@[i as int], url@.2));
                    proof {
                        lemma_admitted_by_entry(*domains, i as int, url@.2);
                    }
                    return true;
                }
                i += 1;
            }
            false
        },
    }
}

/// The most redirect hops followed for one request.
pub const MAX_REDIRECTS: usize = 5;

/// What to do with one redirect hop.
#[derive(Copy, Clone, Debug, PartialEq, Eq, Structural)]
pub enum RedirectStep {
    /// Follow the hop.
    Follow,
    /// Stop and return the last response.
    Stop,
    /// Fail the request: too many hops.
    TooMany,
}

/// Decides a redirect hop to `target` after `previous` hops: fail beyond the
/// hop limit, follow a target whose host the allow-list admits, and stop at
/// any other.
pub fn redirect_step(previous: usize, target: &WebUrl, allowed_domains: &AllowedDomains) -> (r:
    RedirectStep)
    ensures
        previous > MAX_REDIRECTS ==> r == RedirectStep::TooMany,
        previous <= MAX_REDIRECTS && host_admitted(*allowed_domains, target@.2) ==> r
            == RedirectStep::Follow,
        previous <= MAX_REDIRECTS && !host_admitted(*allowed_domains, target@.2) ==> r
            == RedirectStep::Stop,
{
    if previous > MAX_REDIRECTS {
        RedirectStep::TooMany
    } else if is_allowed_host(target, allowed_domains) {
        RedirectStep::Follow
    } else {
        RedirectStep::Stop
    }
}

} // verus!
