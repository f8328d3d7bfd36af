//! The lookup of one word: which endpoint to ask, and what to show once it
//! has answered. The caller performs each request and hands back the reply.
use vstd::prelude::*;

use crate::extract::{meta_description, parse_bing_dict_html, parse_snippet_html, snippet_text};

verus! {

/// Request URL of the snippet endpoint, before the query.
pub const PRIMARY_BASE: &'static str = "https://cn.bing.com/dict/SerpHoverTrans?q=";

/// Request URL of the full dictionary page, before the query.
pub const FALLBACK_BASE: &'static str = "https://cn.bing.com/dict/search?q=";

/// User agent under which the snippet endpoint answers with its snippet.
pub const PRIMARY_AGENT: &'static str =
    "Mozilla/5.0 (Windows NT 10.0; Win64; x64) AppleWebKit/537.36 (KHTML, like Gecko) Chrome/120.0.0.0 Safari/537.36";

/// User agent under which the dictionary page carries its meta description.
pub const FALLBACK_AGENT: &'static str =
    "Mozilla/5.0 (Windows NT 10.0; Win64; x64) AppleWebKit/537.36 (KHTML, like Gecko) Chrome/90.0.4430.212 Safari/537.36 Edg/90.0.818.62";

/// Shown when neither endpoint gave a translation.
pub const NO_DATA: &'static str = "No Data";

/// A character of Unicode's White_Space property.
pub open spec fn is_white_space(c: char) -> bool {
    ('\u{9}' <= c <= '\u{d}') || c == ' ' || c == '\u{85}' || c == '\u{a0}' || c == '\u{1680}'
        || ('\u{2000}' <= c <= '\u{200a}') || c == '\u{2028}' || c == '\u{2029}' || c
        == '\u{202f}' || c == '\u{205f}' || c == '\u{3000}'
}

/// `s` holds white space only (or nothing).
pub open spec fn is_blank(s: Seq<char>) -> bool {
    forall|k: int| 0 <= k < s.len() ==> is_white_space(#[trigger] s[k])
}

/// `r` is `s[i..j]`, where `s[..i]` and `s[j..]` are white space and a
/// non-empty `r` neither starts nor ends with white space.
pub open spec fn trims_at(r: Seq<char>, s: Seq<char>, i: int, j: int) -> bool {
    &&& 0 <= i <= j <= s.len()
    &&& r == s.subrange(i, j)
    &&& is_blank(s.subrange(0, i))
    &&& is_blank(s.subrange(j, s.len() as int))
    &&& i < j ==> !is_white_space(s[i]) && !is_white_space(s[j - 1])
}

/// `r` is `s` with its leading and trailing white space removed.
pub open spec fn is_trim_of(r: Seq<char>, s: Seq<char>) -> bool {
    exists|i: int, j: int| trims_at(r, s, i, j)
}

/// `s` percent-encoded for a query string.
pub uninterp spec fn percent_encoded(s: Seq<char>) -> Seq<char>;

/// Relies on `str::trim`: the text without its leading and trailing
/// characters of the White_Space property.
#[verifier::external_body]
fn trim_text(s: &str) -> (r: &str)
    ensures
        is_trim_of(r@, s@),
{
    s.trim()
}

/// A character that percent-encoding leaves as it is: an ASCII letter or
/// digit, `-`, `.`, `_` or `~`.
pub open spec fn is_unreserved(c: char) -> bool {
    ('0' <= c <= '9') || ('A' <= c <= 'Z') || ('a' <= c <= 'z') || c == '-' || c == '.' || c == '_'
        || c == '~'
}

/// Relies on `urlencoding::encode`: the text percent-encoded, every byte
/// but ASCII alphanumerics and `-`, `_`, `.`, `~`, which are kept.
#[verifier::external_body]
fn encode_query(s: &str) -> (r: String)
    ensures
        r@ == percent_encoded(s@),
        (forall|k: int| 0 <= k < s@.len() ==> is_unreserved(#[trigger] s@[k])) ==> r@ == s@,
{
    urlencoding::encode(s).into_owned()
}

/// Trimming leaves nothing exactly where the text is blank.
pub proof fn lemma_trim_empty(r: Seq<char>, s: Seq<char>)
    requires
        is_trim_of(r, s),
    ensures
        r.len() == 0 <==> is_blank(s),
{
    let (i, j) = choose|i: int, j: int| trims_at(r, s, i, j);
    if r.len() == 0 {
        assert forall|k: int| 0 <= k < s.len() implies is_white_space(s[k]) by {
            if k < i {
                assert(s.subrange(0, i)[k] == s[k]);
            } else {
                assert(s.subrange(j, s.len() as int)[k - j] == s[k]);
            }
        }
    }
    if is_blank(s) && i < j {
        assert(is_white_space(s[i]));
    }
}

/// A word to look up: trimmed, and never empty.
pub struct Query {
    text: String,
}

impl View for Query {
    type V = Seq<char>;

    closed spec fn view(&self) -> Seq<char> {
        self.text@
    }
}

impl Query {
    /// A query is never empty.
    #[verifier::type_invariant]
    closed spec fn inv(&self) -> bool {
        self.text@.len() > 0
    }

    /// The trimmed word, or `None` where nothing is left of it to look up.
    pub fn new(word: &str) -> (r: Option<Query>)
        ensures
            r is None <==> is_blank(word@),
            r matches Some(q) ==> is_trim_of(q@, word@),
    {
        let text = trim_text(word);
        proof {
            lemma_trim_empty(text@, word@);
        }
        if text.unicode_len() == 0 {
            None
        } else {
            Some(Query { text: String::from_str(text) })
        }
    }

    /// The word itself.
    pub fn as_str(&self) -> (r: &str)
        ensures
            r@ == self@,
            r@.len() > 0,
    {
        proof {
            use_type_invariant(self);
        }
        self.text.as_str()
    }
}

/// One of the two places a word can be looked up.
#[derive(Clone, Copy, Debug, PartialEq, Eq, Structural)]
pub enum Endpoint {
    /// The snippet endpoint, asked first.
    Primary,
    /// The full dictionary page, asked when the snippet gave nothing.
    Fallback,
}

/// The start of the request URL of an endpoint.
pub open spec fn base_of(e: Endpoint) -> Seq<char> {
    match e {
        Endpoint::Primary => PRIMARY_BASE@,
        Endpoint::Fallback => FALLBACK_BASE@,
    }
}

/// The user agent sent to an endpoint.
pub open spec fn agent_of(e: Endpoint) -> Seq<char> {
    match e {
        Endpoint::Primary => PRIMARY_AGENT@,
        Endpoint::Fallback => FALLBACK_AGENT@,
    }
}

/// An HTTP GET to send.
pub struct Request {
    pub endpoint: Endpoint,
    pub url: String,
    pub user_agent: String,
}

/// `r` asks endpoint `e` about the word `q`.
pub open spec fn requests(r: Request, q: Seq<char>, e: Endpoint) -> bool {
    &&& r.endpoint == e
    &&& r.url@ == base_of(e) + percent_encoded(q)
    &&& r.user_agent@ == agent_of(e)
}

/// What came back from a request.
pub enum Reply {
    /// No response: the connection or the transfer failed.
    Failed,
    /// A response with its status code and body.
    Received { status: u16, body: String },
}

/// What to do next.
pub enum Action {
    /// Send this request and hand its reply back.
    Send(Request),
    /// Show this text; the lookup is over.
    Show(String),
}

/// A status code in the success range.
pub open spec fn is_success(status: u16) -> bool {
    200 <= status <= 299
}

/// What the scrape of endpoint `e` yields for a page.
pub open spec fn scraped(e: Endpoint, body: Seq<char>) -> Option<Seq<char>> {
    match e {
        Endpoint::Primary => snippet_text(body),
        Endpoint::Fallback => meta_description(body),
    }
}

/// The translation that a reply from endpoint `e` carries, if any: the
/// scrape of a successful response's body, where that is not empty.
pub open spec fn reply_text(e: Endpoint, reply: Reply) -> Option<Seq<char>> {
    match reply {
        Reply::Failed => None,
        Reply::Received { status, body } => if !is_success(status) {
            None
        } else {
            match scraped(e, body@) {
                Some(t) => if t.len() > 0 {
                    Some(t)
                } else {
                    None
                },
                None => None,
            }
        },
    }
}

/// The request to endpoint `e` for the word `q`.
pub fn request(q: &Query, e: Endpoint) -> (r: Request)
    ensures
        requests(r, q@, e),
        (forall|k: int| 0 <= k < q@.len() ==> is_unreserved(#[trigger] q@[k])) ==> r.url@
            == base_of(e) + q@,
{
    let mut url = match e {
        Endpoint::Primary => String::from_str(PRIMARY_BASE),
        Endpoint::Fallback => String::from_str(FALLBACK_BASE),
    };
    let encoded = encode_query(q.as_str());
    url.append(encoded.as_str());
    let user_agent = match e {
        Endpoint::Primary => String::from_str(PRIMARY_AGENT),
        Endpoint::Fallback => String::from_str(FALLBACK_AGENT),
    };
    Request { endpoint: e, url, user_agent }
}

/// Starts a lookup: the query and the first request, or `None` where the
/// word is blank and nothing is to be sent.
pub fn start(word: &str) -> (r: Option<(Query, Request)>)
    ensures
        r is None <==> is_blank(word@),
        r matches Some(p) ==> is_trim_of(p.0@, word@) && requests(p.1, p.0@, Endpoint::Primary),
{
    match Query::new(word) {
        None => None,
        Some(q) => {
            let req = request(&q, Endpoint::Primary);
            Some((q, req))
        },
    }
}

/// The next step after endpoint `e` replied: show its translation where the
/// reply carries a non-empty one; else ask the fallback after the primary,
/// or show `NO_DATA` after the fallback. The text shown is never empty.
pub fn advance(q: &Query, e: Endpoint, reply: &Reply) -> (r: Action)
    ensures
        match reply_text(e, *reply) {
            Some(t) => r matches Action::Show(x) && x@ == t,
            None => match e {
                Endpoint::Primary => r matches Action::Send(req) && requests(
                    req,
                    q@,
                    Endpoint::Fallback,
                ),
                Endpoint::Fallback => r matches Action::Show(x) && x@ == NO_DATA@,
            },
        },
        r matches Action::Show(x) ==> x@.len() > 0,
{
    proof {
        reveal_strlit("No Data");
    }
    let found = match reply {
        Reply::Failed => None,
        Reply::Received { status, body } => {
            if *status < 200 || *status > 299 {
                None
            } else {
                match e {
                    Endpoint::Primary => parse_snippet_html(body.as_str()),
                    Endpoint::Fallback => parse_bing_dict_html(body.as_str()),
                }
            }
        },
    };
    let found = match found {
        Some(t) => if t.unicode_len() > 0 {
            Some(t)
        } else {
            None
        },
        None => None,
    };
    match found {
        Some(t) => Action::Show(t),
        None => match e {
            Endpoint::Primary => Action::Send(request(q, Endpoint::Fallback)),
            Endpoint::Fallback => Action::Show(String::from_str(NO_DATA)),
        },
    }
}

} // verus!
