use crate::config::Mode;
use crate::hosts::{host_admitted, is_allowed_host, AllowedDomains};
use crate::text::{concat2, has_prefix, opt_str_eq, starts_with};
use crate::weburl::{url_parse_of, UrlItem, WebUrl};
use vstd::prelude::*;

verus! {

/// The view of a URL: serialization, scheme, host and path.
pub type UrlView = (Seq<char>, Seq<char>, Option<Seq<char>>, Seq<char>);

/// The absolute form of a link found on a page whose parent URL is `parent`.
pub open spec fn resolve_link(input: Seq<char>, parent: UrlView) -> Seq<char> {
    let a = if has_prefix(input, "//"@) {
        parent.1 + ":"@ + input
    } else {
        input
    };
    if !has_prefix(a, "http://"@) && !has_prefix(a, "https://"@) {
        let host = match parent.2 {
            Some(h) => h,
            None => Seq::empty(),
        };
        if has_prefix(a, "/"@) {
            parent.1 + "://"@ + host + a
        } else {
            parent.1 + "://"@ + host + parent.3 + "/"@ + a
        }
    } else {
        a
    }
}

/// The URL that a link stands for, if it parses and its host is admitted.
pub open spec fn normalised(input: Seq<char>, parent: UrlView, ad: AllowedDomains) -> Option<
    UrlView,
> {
    match url_parse_of(resolve_link(input, parent)) {
        Some(u) => if host_admitted(ad, u.2) {
            Some(u)
        } else {
            None
        },
        None => None,
    }
}

/// Resolves a link against the item's parent and keeps it only when it parses
/// and the allow-list admits its host.
pub fn get_valid_url(input: &str, item: &UrlItem, allowed_domains: &AllowedDomains) -> (r: Option<
    WebUrl,
>)
    ensures
        r matches Some(u) ==> normalised(input@, item.parent@, *allowed_domains) == Some(u@),
        r is None ==> normalised(input@, item.parent@, *allowed_domains) is None,
{
    let scheme = item.parent.scheme.as_str();
    let mut link = String::from_str(input);
    if starts_with(input, "//") {
        link = concat2(concat2(scheme, ":").as_str(), input);
    }
    let ghost pv = item.parent@;
    let ghost a = if has_prefix(input@, "//"@) {
        pv.1 + ":"@ + input@
    } else {
        input@
    };
    assert(link@ =~= a);
    if !starts_with(link.as_str(), "http://") && !starts_with(link.as_str(), "https://") {
        let host: &str = match &item.parent.host {
            Some(h) => h.as_str(),
            None => "",
        };
        assert(host@ == (match pv.2 {
            Some(h) => h,
            None => Seq::empty(),
        })) by {
            reveal_strlit("");
        }
        let base = concat2(concat2(scheme, "://").as_str(), host);
        if starts_with(link.as_str(), "/") {
            link = concat2(base.as_str(), link.as_str());
        } else {
            let dir = concat2(concat2(base.as_str(), item.parent.path.as_str()).as_str(), "/");
            link = concat2(dir.as_str(), link.as_str());
        }
    }
    assert(link@ =~= resolve_link(input@, item.parent@));
    match WebUrl::parse(link.as_str()) {
        Some(url) => {
            if is_allowed_host(&url, allowed_domains) {
                Some(url)
            } else {
                None
            }
        },
        None => None,
    }
}

/// The `href` of each anchor element of an HTML document, in document order;
/// `None` for an anchor without one.
pub uninterp spec fn anchor_hrefs_of(html: Seq<char>) -> Seq<Option<Seq<char>>>;

/// The view of each optional string.
pub open spec fn opt_views(v: Seq<Option<String>>) -> Seq<Option<Seq<char>>> {
    v.map_values(|o: Option<String>| crate::text::opt_view(o))
}

/// Relies on select: Document::from parses the HTML, find(Name("a")) walks its
/// anchors in document order, and Node::attr reads each one's href.
#[verifier::external_body]
fn anchor_hrefs(html: &str) -> (r: Vec<Option<String>>)
    ensures
        opt_views(r@) == anchor_hrefs_of(html@),
{
    let document = select::document::Document::from(html);
    let mut out = Vec::new();
    for node in document.find(select::predicate::Name("a")) {
        out.push(node.attr("href").map(String::from));
    }
    out
}

/// The work item for a discovered URL: it keeps the page's parent when the
/// host is the same, and starts from the new URL otherwise.
pub open spec fn discovered_item(u: UrlView, parent: UrlView) -> (UrlView, UrlView) {
    if u.2 == parent.2 {
        (parent, u)
    } else {
        (u, u)
    }
}

/// The work items for the admitted links among `hrefs`, in order.
pub open spec fn links_of(hrefs: Seq<Option<Seq<char>>>, parent: UrlView, ad: AllowedDomains) -> Seq<
    (UrlView, UrlView),
>
    decreases hrefs.len(),
{
    if hrefs.len() == 0 {
        Seq::empty()
    } else {
        let rest = links_of(hrefs.drop_last(), parent, ad);
        match hrefs.last() {
            Some(h) => match normalised(h, parent, ad) {
                Some(u) => rest.push(discovered_item(u, parent)),
                None => rest,
            },
            None => rest,
        }
    }
}

/// The views of a list of work items.
pub open spec fn item_views(v: Seq<UrlItem>) -> Seq<(UrlView, UrlView)> {
    v.map_values(|i: UrlItem| i@)
}

/// Turns the anchors' hrefs of a page into work items.
pub fn links_from_hrefs(
    hrefs: &Vec<Option<String>>,
    item: &UrlItem,
    allowed_domains: &AllowedDomains,
) -> (r: Vec<UrlItem>)
    ensures
        item_views(r@) == links_of(opt_views(hrefs@), item.parent@, *allowed_domains),
{
    let mut out: Vec<UrlItem> = Vec::new();
    let mut i: usize = 0;
    while i < hrefs.len()
        invariant
            i <= hrefs@.len(),
            item_views(out@) == links_of(
                opt_views(hrefs@).subrange(0, i as int),
                item.parent@,
                *allowed_domains,
            ),
        decreases hrefs@.len() - i,
    {
        proof {
            assert(opt_views(hrefs@).subrange(0, i as int + 1).drop_last() =~= opt_views(
                hrefs@,
            ).subrange(0, i as int));
        }
        let ghost before = out@;
        match &hrefs[i] {
            Some(h) => match get_valid_url(h.as_str(), item, allowed_domains) {
                Some(url) => {
                    let parent = if opt_str_eq(&url.host, &item.parent.host) {
                        item.parent.duplicate()
                    } else {
                        url.duplicate()
                    };
                    out.push(UrlItem { parent, url });
                    assert(item_views(out@) =~= item_views(before).push(
                        discovered_item(out@.last().url@, item.parent@),
                    ));
                },
                None => {},
            },
            None => {},
        }
        i += 1;
    }
    assert(opt_views(hrefs@).subrange(0, hrefs@.len() as int) =~= opt_views(hrefs@));
    out
}

/// The work items for the links of an HTML page fetched for `item`.
pub fn extract_links(html: &str, item: &UrlItem, allowed_domains: &AllowedDomains) -> (r: Vec<
    UrlItem,
>)
    ensures
        item_views(r@) == links_of(anchor_hrefs_of(html@), item.parent@, *allowed_domains),
{
    let hrefs = anchor_hrefs(html);
    links_from_hrefs(&hrefs, item, allowed_domains)
}

/// Whether a response's body is searched for links: not in single mode, and
/// only for a non-empty `text/html` body that came with status 200.
pub open spec fn discovery_wanted(
    mode: Mode,
    body_length: nat,
    content_type: Seq<char>,
    status: u16,
) -> bool {
    mode != Mode::Single && body_length > 0 && has_prefix(content_type, "text/html"@) && status
        == 200
}

/// Decides whether a response's body is searched for links.
pub fn should_discover(mode: Mode, body_length: usize, content_type: &str, status: u16) -> (r:
    bool)
    ensures
        r == discovery_wanted(mode, body_length as nat, content_type@, status),
{
    mode != Mode::Single && body_length > 0 && starts_with(content_type, "text/html") && status
        == 200
}

/// Normalising the serialization of an admitted absolute http(s) URL, one
/// that parses back to itself, gives that same URL.
pub proof fn lemma_normalise_absolute(u: UrlView, parent: UrlView, ad: AllowedDomains)
    requires
        has_prefix(u.0, "http://"@) || has_prefix(u.0, "https://"@),
        url_parse_of(u.0) == Some(u),
        host_admitted(ad, u.2),
    ensures
        normalised(u.0, parent, ad) == Some(u),
{
    reveal_strlit("http://");
    reveal_strlit("https://");
    reveal_strlit("//");
    assert(u.0.subrange(0, 1)[0] == 'h');
    assert(!has_prefix(u.0, "//"@)) by {
        if has_prefix(u.0, "//"@) {
            assert(u.0.subrange(0, 2)[0] == '/');
        }
    }
}

} // verus!
