use vstd::prelude::*;

use crate::config::{ProxyInfo, ProxyInfoView};
use crate::id_map::{lemma_table_of_extend, lemma_table_of_holds_last, table_of, IdMap};
use vstd::utf8::{decode_utf8, valid_utf8};
use crate::text::{decode_lossy, lossy_text, page_text, prefixed, rendered_text};

verus! {

#[verifier::external_type_specification]
#[verifier::external_body]
pub struct ExUri(hyper::Uri);

#[verifier::external_type_specification]
#[verifier::external_body]
pub struct ExInvalidUri(hyper::http::uri::InvalidUri);

/// Whether `http::Uri`'s parser accepts the text as a URI.
pub uninterp spec fn uri_accepts(text: Seq<char>) -> bool;

/// The URI that `http::Uri`'s parser makes of an accepted text.
pub uninterp spec fn parsed_uri(text: Seq<char>) -> hyper::Uri;

/// The text that `http::Uri`'s `Display` writes of the URI parsed from an
/// accepted text.
pub uninterp spec fn parsed_uri_text(text: Seq<char>) -> Seq<char>;

/// Parses a URL, and writes the parsed URI out as text.
///
/// Calls `<http::Uri as FromStr>::from_str` (re-exported by hyper) and
/// converts the parsed URI to its text with `Display`.  Which texts are
/// accepted, the URI made of them and its text depend on the text alone and
/// are named `uri_accepts`, `parsed_uri` and `parsed_uri_text`.
#[verifier::external_body]
fn parse_uri(url: &str) -> (r: Result<(hyper::Uri, String), hyper::http::uri::InvalidUri>)
    ensures
        r is Ok == uri_accepts(url@),
        r matches Ok((u, t)) ==> u == parsed_uri(url@) && t@ == parsed_uri_text(url@),
{
    match url.parse::<hyper::Uri>() {
        Ok(uri) => {
            let text = uri.to_string();
            Ok((uri, text))
        },
        Err(e) => Err(e),
    }
}

/// A proxy target together with its parsed URL.
pub struct ProxyInfoAndURI {
    proxy_info: ProxyInfo,
    uri: hyper::Uri,
    uri_text: String,
}

impl ProxyInfoAndURI {
    /// The target as configured.
    pub closed spec fn spec_proxy_info(&self) -> ProxyInfoView {
        self.proxy_info@
    }

    /// The target as configured.
    pub fn proxy_info(&self) -> (r: &ProxyInfo)
        ensures
            r@ == self.spec_proxy_info(),
    {
        &self.proxy_info
    }

    /// The parsed URL of the target.
    pub closed spec fn spec_uri(&self) -> hyper::Uri {
        self.uri
    }

    /// The parsed URL of the target.
    pub fn uri(&self) -> (r: &hyper::Uri)
        ensures
            *r == self.spec_uri(),
    {
        &self.uri
    }

    /// The parsed URL of the target, written out as text.
    pub closed spec fn spec_uri_text(&self) -> Seq<char> {
        self.uri_text@
    }

    /// The parsed URL of the target, written out as text.
    pub fn uri_text(&self) -> (r: &String)
        ensures
            r@ == self.spec_uri_text(),
    {
        &self.uri_text
    }
}

/// The identifier and content of each proxy target, in order.
pub open spec fn proxy_entries(proxies: Seq<ProxyInfoView>) -> Seq<(Seq<char>, ProxyInfoView)> {
    proxies.map_values(|p: ProxyInfoView| (p.id, p))
}

/// Looking up an identifier in the proxy table finds a target exactly when
/// some configured target has that identifier, and finds the last
/// configured target with that identifier.
pub proof fn lemma_proxy_table_holds_last(proxies: Seq<ProxyInfoView>, id: Seq<char>)
    ensures
        table_of(proxy_entries(proxies)).contains_key(id) <==> exists|i: int|
            0 <= i < proxies.len() && #[trigger] proxies[i].id == id,
        table_of(proxy_entries(proxies)).contains_key(id) ==> exists|i: int|
            0 <= i < proxies.len() && #[trigger] proxies[i].id == id && table_of(proxy_entries(proxies))[id]
                == proxies[i] && forall|j: int| i < j < proxies.len() ==> #[trigger] proxies[j].id != id,
{
    let entries = proxy_entries(proxies);
    lemma_table_of_holds_last(entries, id);
    assert(forall|i: int| 0 <= i < proxies.len() ==> #[trigger] entries[i] == (proxies[i].id, proxies[i]));
    if table_of(entries).contains_key(id) {
        let i = choose|i: int|
            0 <= i < entries.len() && #[trigger] entries[i].0 == id && table_of(entries)[id] == entries[i].1
                && forall|j: int| i < j < entries.len() ==> #[trigger] entries[j].0 != id;
        assert(proxies[i].id == id);
        assert forall|j: int| i < j < proxies.len() implies #[trigger] proxies[j].id != id by {
            assert(entries[j].0 != id);
        }
    }
    if exists|i: int| 0 <= i < proxies.len() && #[trigger] proxies[i].id == id {
        let i = choose|i: int| 0 <= i < proxies.len() && #[trigger] proxies[i].id == id;
        assert(entries[i].0 == id);
    }
}

/// Each target's URL is accepted by the URI parser.
pub open spec fn all_urls_parse(proxies: Seq<ProxyInfoView>) -> bool {
    forall|i: int| 0 <= i < proxies.len() ==> uri_accepts(#[trigger] proxies[i].url)
}

/// Each entry of the table holds the URI parsed from its own target's URL,
/// and that URI's text.
pub open spec fn uris_match_urls(m: Map<Seq<char>, ProxyInfoAndURI>) -> bool {
    forall|k: Seq<char>| #[trigger] m.contains_key(k) ==> m[k].spec_uri() == parsed_uri(
        m[k].spec_proxy_info().url,
    ) && m[k].spec_uri_text() == parsed_uri_text(m[k].spec_proxy_info().url)
}

/// Builds the table from target identifiers to targets with their parsed
/// URLs.  Every URL must parse; the server refuses to start otherwise.
pub fn build_proxy_map(proxies: &Vec<ProxyInfo>) -> (r: IdMap<ProxyInfoAndURI>)
    requires
        all_urls_parse(proxies.deep_view()),
    ensures
        r@.map_values(|e: ProxyInfoAndURI| e.spec_proxy_info()) == table_of(
            proxy_entries(proxies.deep_view()),
        ),
        uris_match_urls(r@),
{
    let ghost entries = proxy_entries(proxies.deep_view());
    let mut map: IdMap<ProxyInfoAndURI> = IdMap::new();
    let mut i: usize = 0;
    while i < proxies.len()
        invariant
            i <= proxies.len(),
            all_urls_parse(proxies.deep_view()),
            entries == proxy_entries(proxies.deep_view()),
            map@.map_values(|e: ProxyInfoAndURI| e.spec_proxy_info()) == table_of(
                entries.take(i as int),
            ),
            uris_match_urls(map@),
        decreases proxies.len() - i,
    {
        let info = &proxies[i];
        assert(uri_accepts(proxies.deep_view()[i as int].url));
        match parse_uri(info.url().as_str()) {
            Ok((uri, uri_text)) => {
                let ghost before = map@;
                let entry = ProxyInfoAndURI { proxy_info: info.clone(), uri, uri_text };
                map.insert(info.id().clone(), entry);
                proof {
                    lemma_table_of_extend(entries, i as int);
                    assert(entries[i as int] == (info@.id, info@));
                    assert(map@.map_values(|e: ProxyInfoAndURI| e.spec_proxy_info()) =~= before.map_values(
                        |e: ProxyInfoAndURI| e.spec_proxy_info(),
                    ).insert(info@.id, info@));
                    assert forall|k: Seq<char>| #[trigger] map@.contains_key(k) implies map@[k].spec_uri()
                        == parsed_uri(map@[k].spec_proxy_info().url) && map@[k].spec_uri_text()
                        == parsed_uri_text(map@[k].spec_proxy_info().url) by {
                        if k != info@.id {
                            assert(before.contains_key(k));
                        }
                    }
                }
            },
            Err(_) => {
                assert(false);
            },
        }
        i = i + 1;
    }
    assert(entries.take(proxies.len() as int) =~= entries);
    map
}

/// Builds the proxy table where every URL parses, and gives nothing where
/// some URL does not.
pub fn try_build_proxy_map(proxies: &Vec<ProxyInfo>) -> (r: Option<IdMap<ProxyInfoAndURI>>)
    ensures
        r is Some == all_urls_parse(proxies.deep_view()),
        r matches Some(m) ==> m@.map_values(|e: ProxyInfoAndURI| e.spec_proxy_info()) == table_of(
            proxy_entries(proxies.deep_view()),
        ),
        r matches Some(m) ==> uris_match_urls(m@),
{
    let mut i: usize = 0;
    while i < proxies.len()
        invariant
            i <= proxies.len(),
            forall|j: int| 0 <= j < i ==> uri_accepts(#[trigger] proxies.deep_view()[j].url),
        decreases proxies.len() - i,
    {
        match parse_uri(proxies[i].url().as_str()) {
            Ok(_) => {},
            Err(_) => {
                assert(!uri_accepts(proxies.deep_view()[i as int].url));
                return None;
            },
        }
        i = i + 1;
    }
    Some(build_proxy_map(proxies))
}

/// Builds the table from target identifiers to their pages, given what
/// rendering each target's page gave, in the order of the targets.
pub fn build_html_map(proxies: &Vec<ProxyInfo>, rendered: &Vec<Result<String, String>>) -> (r: IdMap<
    String,
>)
    requires
        rendered@.len() == proxies@.len(),
    ensures
        r@.map_values(|s: String| s@) == table_of(page_entries(proxies@, rendered@)),
{
    let ghost entries = page_entries(proxies@, rendered@);
    let mut map: IdMap<String> = IdMap::new();
    let mut i: usize = 0;
    while i < proxies.len()
        invariant
            i <= proxies.len(),
            rendered@.len() == proxies@.len(),
            entries == page_entries(proxies@, rendered@),
            map@.map_values(|s: String| s@) == table_of(entries.take(i as int)),
        decreases proxies.len() - i,
    {
        let ghost before = map@;
        let text = page_text(&rendered[i]);
        map.insert(proxies[i].id().clone(), text);
        proof {
            lemma_table_of_extend(entries, i as int);
            assert(map@.map_values(|s: String| s@) =~= before.map_values(|s: String| s@).insert(
                entries[i as int].0,
                entries[i as int].1,
            ));
        }
        i = i + 1;
    }
    assert(entries.take(proxies.len() as int) =~= entries);
    map
}

/// Looking up an identifier in the page table finds a page exactly when some
/// target has that identifier, and finds the page (or the rendering error)
/// of the last target with it.
pub proof fn lemma_page_table_holds_last(
    proxies: Seq<ProxyInfo>,
    rendered: Seq<Result<String, String>>,
    id: Seq<char>,
)
    requires
        rendered.len() == proxies.len(),
    ensures
        table_of(page_entries(proxies, rendered)).contains_key(id) <==> exists|i: int|
            0 <= i < proxies.len() && #[trigger] proxies[i]@.id == id,
        table_of(page_entries(proxies, rendered)).contains_key(id) ==> exists|i: int|
            0 <= i < proxies.len() && #[trigger] proxies[i]@.id == id && table_of(
                page_entries(proxies, rendered),
            )[id] == rendered_text(rendered[i]) && forall|j: int|
                i < j < proxies.len() ==> #[trigger] proxies[j]@.id != id,
{
    let entries = page_entries(proxies, rendered);
    lemma_table_of_holds_last(entries, id);
    assert(forall|i: int|
        0 <= i < proxies.len() ==> #[trigger] entries[i] == (proxies[i]@.id, rendered_text(rendered[i])));
    if table_of(entries).contains_key(id) {
        let i = choose|i: int|
            0 <= i < entries.len() && #[trigger] entries[i].0 == id && table_of(entries)[id] == entries[i].1
                && forall|j: int| i < j < entries.len() ==> #[trigger] entries[j].0 != id;
        assert(proxies[i]@.id == id);
        assert forall|j: int| i < j < proxies.len() implies #[trigger] proxies[j]@.id != id by {
            assert(entries[j].0 != id);
        }
    }
    if exists|i: int| 0 <= i < proxies.len() && #[trigger] proxies[i]@.id == id {
        let i = choose|i: int| 0 <= i < proxies.len() && #[trigger] proxies[i]@.id == id;
        assert(entries[i].0 == id);
    }
}

/// Each target's identifier with the text of its page.
pub open spec fn page_entries(proxies: Seq<ProxyInfo>, rendered: Seq<Result<String, String>>) -> Seq<
    (Seq<char>, Seq<char>),
> {
    Seq::new(proxies.len(), |i: int| (proxies[i]@.id, rendered_text(rendered[i])))
}

/// What the server learned from fetching a target: HTTP version, status and
/// headers as text, and the body.
pub struct ResponseInfo {
    pub version: String,
    pub status: String,
    pub headers: String,
    pub body: String,
}

/// How fetching a target went.
pub enum FetchOutcome {
    /// The request failed; the text describes the failure.
    Failed(String),
    /// A response came; its body was read in full or failed with the text.
    Responded { version: String, status: String, headers: String, body: Result<Vec<u8>, String> },
}

/// The body text shown for a response body.
pub open spec fn body_text(body: Result<Vec<u8>, String>) -> Seq<char> {
    match body {
        Ok(bytes) => lossy_text(bytes@),
        Err(reason) => "proxy body error: "@ + reason@,
    }
}

/// A body read in full is shown as the lenient decoding of all its bytes; a
/// body that could not be read is shown as the reason after
/// `proxy body error: `.
pub proof fn lemma_body_text_is_whole_body(body: Result<Vec<u8>, String>)
    ensures
        body matches Ok(bytes) ==> body_text(body) == lossy_text(bytes@),
        body matches Err(reason) ==> body_text(body) == "proxy body error: "@ + reason@,
{
}

/// Turns how fetching went into what the answer shows: a failed request
/// shows empty version, status and headers and describes the failure in the
/// body; a response shows its parts, and its body decoded leniently, or the
/// reason reading the body failed.
pub fn fetch_proxy_response(outcome: FetchOutcome) -> (r: ResponseInfo)
    ensures
        match outcome {
            FetchOutcome::Failed(reason) => r.version@ == Seq::<char>::empty() && r.status@
                == Seq::<char>::empty() && r.headers@ == Seq::<char>::empty() && r.body@ == "proxy error: "@
                + reason@,
            FetchOutcome::Responded { version, status, headers, body } => r.version@ == version@
                && r.status@ == status@ && r.headers@ == headers@ && r.body@ == body_text(body),
        },
        outcome matches FetchOutcome::Responded { body: Ok(bytes), .. } ==> r.body@ == lossy_text(bytes@),
        outcome matches FetchOutcome::Responded { body: Ok(bytes), .. } ==> (valid_utf8(bytes@) ==> r.body@
            == decode_utf8(bytes@)),
{
    match outcome {
        FetchOutcome::Failed(reason) => ResponseInfo {
            version: String::new(),
            status: String::new(),
            headers: String::new(),
            body: prefixed("proxy error: ", reason.as_str()),
        },
        FetchOutcome::Responded { version, status, headers, body } => {
            let body = match body {
                Ok(bytes) => decode_lossy(bytes.as_slice()),
                Err(reason) => prefixed("proxy body error: ", reason.as_str()),
            };
            ResponseInfo { version, status, headers, body }
        },
    }
}

/// What answering an API request for a proxy target calls for.
pub enum ProxyApiPlan<'a> {
    /// No target has the requested identifier.
    NotFound,
    /// Send one GET to this URI, the one parsed from the target's URL; the
    /// answer shows the URI's text `url`.
    Fetch { uri: &'a hyper::Uri, url: &'a String },
}

/// Decides how to answer an API request for the target found (or not)
/// under the requested identifier: an unknown target is not found and
/// nothing is fetched; a known target is fetched once, at its own parsed
/// URI, and the answer shows that URI's text.
pub fn build_proxy_api_response<'a>(proxy_info_and_uri_option: Option<&'a ProxyInfoAndURI>) -> (r:
    ProxyApiPlan<'a>)
    ensures
        match proxy_info_and_uri_option {
            None => r is NotFound,
            Some(entry) => r matches ProxyApiPlan::Fetch { uri, url } && *uri == entry.spec_uri()
                && url@ == entry.spec_uri_text(),
        },
{
    match proxy_info_and_uri_option {
        None => ProxyApiPlan::NotFound,
        Some(entry) => ProxyApiPlan::Fetch { uri: entry.uri(), url: entry.uri_text() },
    }
}

/// The JSON document answering an API request for a proxy target.
pub struct ProxyApiResponse {
    pub now: String,
    pub method: String,
    pub url: String,
    pub version: String,
    pub status: String,
    pub headers: String,
    pub body: String,
}

/// Assembles the answer for a fetched target: the time, the method `GET`,
/// the URL fetched, and what the fetch gave.  It cannot fail: a failed
/// fetch shows only in the parts of `response_info`.
pub fn proxy_api_response(now: String, url: String, response_info: ResponseInfo) -> (r:
    ProxyApiResponse)
    ensures
        r.now@ == now@,
        r.method@ == "GET"@,
        r.url@ == url@,
        r.version@ == response_info.version@,
        r.status@ == response_info.status@,
        r.headers@ == response_info.headers@,
        r.body@ == response_info.body@,
{
    ProxyApiResponse {
        now,
        method: "GET".to_owned(),
        url,
        version: response_info.version,
        status: response_info.status,
        headers: response_info.headers,
        body: response_info.body,
    }
}

} // verus!
