//! The verification endpoint's answer, and the service's replies and
//! decisions around a request.

use vstd::prelude::*;
use vstd::string::*;

use crate::blocklist::Blocklist;
use crate::config::is_digit;
use crate::text::{
    is_space, lemma_lacks_char, lemma_trimmed_padding, normalize, normalized, split_once_char,
    trim, trimmed,
};

verus! {

broadcast use vstd::string::group_string_axioms;

/// Where the blocklist comes from, as reported in every answer.
pub const BLOCKLIST_SOURCE: &'static str = "assets/blocklist.txt";

/// The reason given for a listed domain.
pub const DISPOSABLE_REASON: &'static str = "Listed as disposable";

/// The error code of the reply to a request that no route serves.
pub const ROUTE_NOT_FOUND: &'static str = "ROUTE_NOT_FOUND";

/// The text of the not-found message, before the request's URI.
pub const NO_ROUTE_PREFIX: &'static str = "No route for ";

/// The HTTP status of the not-found reply.
pub const NOT_FOUND_STATUS: u16 = 404;

/// The error code of the reply to a verification request without a usable
/// `domain` parameter.
pub const INVALID_QUERY: &'static str = "INVALID_QUERY";

/// The text of the invalid-query message, before what was wrong.
pub const INVALID_QUERY_PREFIX: &'static str = "Invalid query: ";

/// The HTTP status of the invalid-query reply.
pub const BAD_REQUEST_STATUS: u16 = 400;

/// The client address logged when none can be told.
pub const UNKNOWN_CLIENT: &'static str = "unknown";

/// Whether a domain, as a caller wrote it, is on the list.
pub open spec fn is_listed(list: Set<Seq<char>>, domain: Seq<char>) -> bool {
    list.contains(normalized(domain))
}

/// The answer to a verification request.
pub struct VerifyResponse {
    /// The domain exactly as the caller sent it.
    pub domain: String,
    pub is_disposable: bool,
    /// Present exactly when the domain is disposable.
    pub reason: Option<String>,
    pub source: String,
    /// When the check was made, as an RFC 3339 date-time.
    pub checked_at: String,
}

/// What every answer to a request for `domain` against `list` holds,
/// whenever it was made.
pub open spec fn answers(r: VerifyResponse, list: Set<Seq<char>>, domain: Seq<char>) -> bool {
    &&& r.domain@ == domain
    &&& r.is_disposable == is_listed(list, domain)
    &&& r.is_disposable ==> (r.reason matches Some(m) && m@ == DISPOSABLE_REASON@ && m@.len() > 0)
    &&& !r.is_disposable ==> r.reason is None
    &&& r.source@ == BLOCKLIST_SOURCE@
}

/// Checks `domain` against the blocklist, in normal form, and answers with
/// the caller's own spelling of it and the given check time.
pub fn verify(blocklist: &Blocklist, domain: &str, checked_at: String) -> (r: VerifyResponse)
    ensures
        answers(r, blocklist@, domain@),
        r.checked_at == checked_at,
{
    let key = normalize(domain);
    let is_disposable = blocklist.contains_exact(key.as_str());
    let reason = if is_disposable {
        proof {
            reveal_strlit("Listed as disposable");
        }
        Some(String::from_str(DISPOSABLE_REASON))
    } else {
        None
    };
    VerifyResponse {
        domain: String::from_str(domain),
        is_disposable,
        reason,
        source: String::from_str(BLOCKLIST_SOURCE),
        checked_at,
    }
}

/// The answer depends on the normal form alone: two spellings that trim
/// and lowercase to the same text are both listed or both not.
pub proof fn lemma_same_normal_form(list: Set<Seq<char>>, a: Seq<char>, b: Seq<char>)
    requires
        normalized(a) == normalized(b),
    ensures
        is_listed(list, a) == is_listed(list, b),
{
}

/// Whitespace around a domain does not change whether it is listed.
pub proof fn lemma_surrounding_space(
    list: Set<Seq<char>>,
    domain: Seq<char>,
    pre: Seq<char>,
    post: Seq<char>,
)
    requires
        forall|k: int| 0 <= k < pre.len() ==> is_space(#[trigger] pre[k]),
        forall|k: int| 0 <= k < post.len() ==> is_space(#[trigger] post[k]),
    ensures
        is_listed(list, pre + domain + post) == is_listed(list, domain),
{
    lemma_trimmed_padding(domain, pre, post);
}

/// Whether the characters of `s` from `lo` up to `hi` are all decimal digits.
pub open spec fn digits_in(s: Seq<char>, lo: int, hi: int) -> bool {
    forall|k: int| lo <= k < hi ==> is_digit(#[trigger] s[k])
}

/// A year as chrono writes one: four digits for years 0 to 9999, else a
/// sign and at least four digits.
pub open spec fn is_year_text(y: Seq<char>) -> bool {
    ||| y.len() == 4 && digits_in(y, 0, 4)
    ||| y.len() >= 5 && (y[0] == '+' || y[0] == '-') && digits_in(y, 1, y.len() as int)
}

/// Fractional seconds as chrono writes them: none, or a dot and 3, 6 or 9
/// digits.
pub open spec fn is_fraction_text(f: Seq<char>) -> bool {
    ||| f.len() == 0
    ||| (f.len() == 4 || f.len() == 7 || f.len() == 10) && f[0] == '.' && digits_in(
        f,
        1,
        f.len() as int,
    )
}

/// `s` is `Y-MM-DDTHH:MM:SS[.fraction]+00:00`, where the year `Y` takes the
/// first `y` characters.
pub open spec fn is_utc_rfc3339_with_year(s: Seq<char>, y: int) -> bool {
    &&& y >= 4
    &&& s.len() >= y + 21
    &&& is_year_text(s.take(y))
    &&& s[y] == '-'
    &&& digits_in(s, y + 1, y + 3)
    &&& s[y + 3] == '-'
    &&& digits_in(s, y + 4, y + 6)
    &&& s[y + 6] == 'T'
    &&& digits_in(s, y + 7, y + 9)
    &&& s[y + 9] == ':'
    &&& digits_in(s, y + 10, y + 12)
    &&& s[y + 12] == ':'
    &&& digits_in(s, y + 13, y + 15)
    &&& is_fraction_text(s.subrange(y + 15, s.len() - 6))
    &&& s.subrange(s.len() - 6, s.len() as int) == "+00:00"@
}

/// An RFC 3339 date-time in UTC, in the shape that chrono writes.
pub open spec fn is_utc_rfc3339(s: Seq<char>) -> bool {
    exists|y: int| #[trigger] is_utc_rfc3339_with_year(s, y)
}

/// Relies on `SystemTime::now`, chrono's `From<SystemTime> for
/// DateTime<Utc>` and `DateTime::to_rfc3339`: the current UTC time, which
/// chrono writes as `YYYY-MM-DDTHH:MM:SS[.fraction]+00:00`, with a signed
/// year of at least four digits outside years 0 to 9999. A clock before
/// 1970 is converted too; the conversion panics only for a clock beyond
/// chrono's range of about 262,000 years.
#[verifier::external_body]
fn now_rfc3339() -> (r: String)
    ensures
        is_utc_rfc3339(r@),
{
    chrono::DateTime::<chrono::Utc>::from(std::time::SystemTime::now()).to_rfc3339()
}

/// Answers a verification request, stamped with the time of the call.
pub fn verify_now(blocklist: &Blocklist, domain: &str) -> (r: VerifyResponse)
    ensures
        answers(r, blocklist@, domain@),
        is_utc_rfc3339(r.checked_at@),
{
    let checked_at = now_rfc3339();
    verify(blocklist, domain, checked_at)
}

/// A structured error reply: an HTTP status, a message and a fixed code.
pub struct ErrorReply {
    pub status: u16,
    pub message: String,
    pub error_code: String,
}

/// Builds the reply to a request for `uri`, which no route serves.
pub fn route_not_found(uri: &str) -> (r: ErrorReply)
    ensures
        r.status == NOT_FOUND_STATUS,
        r.message@ == NO_ROUTE_PREFIX@ + uri@,
        r.error_code@ == ROUTE_NOT_FOUND@,
{
    ErrorReply {
        status: NOT_FOUND_STATUS,
        message: String::from_str(NO_ROUTE_PREFIX).concat(uri),
        error_code: String::from_str(ROUTE_NOT_FOUND),
    }
}

/// Builds the reply to a verification request whose query string lacks a
/// usable `domain` parameter; `detail` says what was wrong with it.
pub fn invalid_query(detail: &str) -> (r: ErrorReply)
    ensures
        r.status == BAD_REQUEST_STATUS,
        r.message@ == INVALID_QUERY_PREFIX@ + detail@,
        r.error_code@ == INVALID_QUERY@,
{
    ErrorReply {
        status: BAD_REQUEST_STATUS,
        message: String::from_str(INVALID_QUERY_PREFIX).concat(detail),
        error_code: String::from_str(INVALID_QUERY),
    }
}

/// The part of `h` before its first comma (all of it if it has none).
pub open spec fn first_field(h: Seq<char>) -> Seq<char>
    decreases h.len(),
{
    if h.len() == 0 || h[0] == ',' {
        Seq::empty()
    } else {
        seq![h[0]] + first_field(h.drop_first())
    }
}

proof fn lemma_first_field(a: Seq<char>, rest: Seq<char>)
    requires
        !a.contains(','),
        rest.len() == 0 || rest[0] == ',',
    ensures
        first_field(a + rest) == a,
    decreases a.len(),
{
    let s = a + rest;
    if a.len() == 0 {
        assert(s =~= rest);
        assert(a =~= Seq::<char>::empty());
    } else {
        let t = a.drop_first();
        lemma_lacks_char(a, ',');
        lemma_first_field(t, rest);
        assert(s.drop_first() =~= t + rest);
        assert(seq![a[0]] + t =~= a);
    }
}

/// The client address that a request is logged under.
pub open spec fn client_address(forwarded_for: Option<Seq<char>>, peer: Option<Seq<char>>) -> Seq<
    char,
> {
    match forwarded_for {
        Some(h) => trimmed(first_field(h)),
        None => match peer {
            Some(p) => p,
            None => UNKNOWN_CLIENT@,
        },
    }
}

/// The best guess at the client's address: the first entry of an
/// `X-Forwarded-For` header, trimmed; else the peer's address; else
/// `unknown`. This is for logs only, not an identity.
pub fn client_ip(forwarded_for: Option<&str>, peer: Option<&str>) -> (r: String)
    ensures
        r@ == client_address(
            match forwarded_for {
                Some(h) => Some(h@),
                None => None,
            },
            match peer {
                Some(p) => Some(p@),
                None => None,
            },
        ),
{
    match forwarded_for {
        Some(h) => {
            let first = match split_once_char(h, ',') {
                Some((a, b)) => {
                    proof {
                        lemma_first_field(a@, seq![','] + b@);
                        assert(a@ + (seq![','] + b@) =~= h@);
                    }
                    a
                },
                None => {
                    proof {
                        lemma_first_field(h@, Seq::empty());
                        assert(h@ + Seq::<char>::empty() =~= h@);
                    }
                    h
                },
            };
            String::from_str(trim(first))
        },
        None => match peer {
            Some(p) => String::from_str(p),
            None => String::from_str(UNKNOWN_CLIENT),
        },
    }
}

} // verus!
