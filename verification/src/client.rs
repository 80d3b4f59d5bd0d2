use vstd::prelude::*;
use vstd::string::{StrSliceExecFns, StringExecFns};
use crate::error::SoulseekError;
use crate::rate::{RateLimiter, MAX_TIME_MS};
use crate::text::{char_vec, string_from_chars};

verus! {

// The gateway client's verifiable core: configuration, request-URL
// construction and uniform response classification. The HTTP transport
// itself lives with the host application, which hands status and body text
// back to `classify_response`.

/// What `url::Url::parse` decides for a string; the outcome depends on the
/// string alone.
pub uninterp spec fn url_parses(s: Seq<char>) -> bool;

/// What resolving `rel` against the absolute URL `base` yields, as text;
/// the result depends on the two strings alone.
pub uninterp spec fn url_joined(base: Seq<char>, rel: Seq<char>) -> Option<Seq<char>>;

/// Relies on url::Url::parse: whether the string parses as an absolute URL.
#[verifier::external_body]
fn url_parse_ok(s: &str) -> (r: bool)
    ensures
        r == url_parses(s@),
{
    url::Url::parse(s).is_ok()
}

/// Relies on url::Url::parse and url::Url::join: resolves `rel` against
/// `base` and returns the resulting absolute URL as text, or nothing when
/// either step fails.
#[verifier::external_body]
fn url_join(base: &str, rel: &str) -> (r: Option<String>)
    ensures
        (r is Some) == (url_joined(base@, rel@) is Some),
        r matches Some(u) ==> url_joined(base@, rel@) == Some(u@),
{
    match url::Url::parse(base) {
        Ok(b) => match b.join(rel) {
            Ok(u) => Some(u.as_str().to_owned()),
            Err(_) => None,
        },
        Err(_) => None,
    }
}

/// ASCII whitespace, as it occurs around JSON bodies and query terms.
pub open spec fn is_space(c: char) -> bool {
    c == ' ' || c == '\t' || c == '\n' || c == '\r'
}

/// A body of nothing but whitespace.
pub open spec fn is_blank(s: Seq<char>) -> bool {
    forall|i: int| 0 <= i < s.len() ==> is_space(#[trigger] s[i])
}

/// Executable test for `is_blank`.
pub fn is_blank_exec(s: &str) -> (r: bool)
    ensures
        r == is_blank(s@),
{
    let n: usize = s.unicode_len();
    let mut i: usize = 0;
    while i < n
        invariant
            i <= n,
            n == s@.len(),
            forall|j: int| 0 <= j < i ==> is_space(#[trigger] s@[j]),
        decreases n - i,
    {
        let c = s.get_char(i);
        if !(c == ' ' || c == '\t' || c == '\n' || c == '\r') {
            return false;
        }
        i = i + 1;
    }
    true
}

/// A successful gateway reply carries either a payload to parse or nothing;
/// a non-2xx reply carries the `Api` error. A payload that later fails to
/// parse becomes `ParseFailure` at the parsing boundary.
#[derive(Debug, Clone)]
pub enum GatewayReply {
    Absent,
    Payload(String),
    Failure(SoulseekError),
}

/// Classifies one HTTP response: 2xx with a blank body means an absent
/// result, 2xx with content hands the body on for parsing, and anything else
/// is an `Api` error carrying the status and the body.
pub fn classify_response(status: u16, body: String) -> (r: GatewayReply)
    ensures
        (200 <= status < 300 && is_blank(body@)) ==> (r is Absent),
        (200 <= status < 300 && !is_blank(body@)) ==> (r matches GatewayReply::Payload(b) && b@
            == body@),
        !(200 <= status < 300) ==> (r matches GatewayReply::Failure(e) && (e
            matches SoulseekError::Api { status: s, message: m } && s == status && m@ == body@)),
{
    if 200 <= status && status < 300 {
        if is_blank_exec(body.as_str()) {
            GatewayReply::Absent
        } else {
            GatewayReply::Payload(body)
        }
    } else {
        GatewayReply::Failure(SoulseekError::Api { status, message: body })
    }
}

/// A deletion answered with 404 counts as already deleted.
pub fn resolve_delete_result(r: Result<(), SoulseekError>) -> (out: Result<(), SoulseekError>)
    ensures
        match r {
            Ok(()) => out is Ok,
            Err(e) => if e matches SoulseekError::Api { status: 404u16, .. } {
                out is Ok
            } else {
                out == Err::<(), SoulseekError>(e)
            },
        },
{
    match r {
        Ok(()) => Ok(()),
        Err(e) => {
            if e.is_not_found() {
                Ok(())
            } else {
                Err(e)
            }
        },
    }
}

/// The string with trailing `'/'` characters removed.
pub open spec fn trim_trailing_slash(s: Seq<char>) -> Seq<char>
    decreases s.len(),
{
    if s.len() > 0 && s.last() == '/' {
        trim_trailing_slash(s.drop_last())
    } else {
        s
    }
}

/// The string with surrounding whitespace removed.
pub open spec fn trim_spaces(s: Seq<char>) -> Seq<char>
    decreases s.len(),
{
    if s.len() > 0 && is_space(s[0]) {
        trim_spaces(s.drop_first())
    } else if s.len() > 0 && is_space(s.last()) {
        trim_spaces(s.drop_last())
    } else {
        s
    }
}

/// Removes surrounding whitespace, as `trim_spaces` describes.
pub fn trim_spaces_exec(s: &str) -> (r: String)
    ensures
        r@ == trim_spaces(s@),
{
    let cv = char_vec(s);
    let mut lo: usize = 0;
    let mut hi: usize = cv.len();
    assert(cv@.subrange(0, cv@.len() as int) =~= s@);
    while lo < hi && (cv[lo] == ' ' || cv[lo] == '\t' || cv[lo] == '\n' || cv[lo] == '\r')
        invariant
            lo <= hi <= cv@.len(),
            cv@ == s@,
            trim_spaces(cv@.subrange(lo as int, hi as int)) == trim_spaces(s@),
            hi < cv@.len() ==> !is_space(cv@[hi as int]),
        decreases hi - lo,
    {
        assert(cv@.subrange(lo as int, hi as int).drop_first() =~= cv@.subrange(
            lo as int + 1,
            hi as int,
        ));
        lo = lo + 1;
    }
    while lo < hi && (cv[hi - 1] == ' ' || cv[hi - 1] == '\t' || cv[hi - 1] == '\n' || cv[hi - 1]
        == '\r')
        invariant
            lo <= hi <= cv@.len(),
            cv@ == s@,
            trim_spaces(cv@.subrange(lo as int, hi as int)) == trim_spaces(s@),
            lo < hi ==> !is_space(cv@[lo as int]),
        decreases hi,
    {
        assert(cv@.subrange(lo as int, hi as int).drop_last() =~= cv@.subrange(
            lo as int,
            hi as int - 1,
        ));
        hi = hi - 1;
    }
    let mut out: Vec<char> = Vec::new();
    let mut i: usize = lo;
    while i < hi
        invariant
            lo <= i <= hi <= cv@.len(),
            out@ == cv@.subrange(lo as int, i as int),
        decreases hi - i,
    {
        let c = cv[i];
        out.push(c);
        i = i + 1;
        assert(out@ =~= cv@.subrange(lo as int, i as int));
    }
    assert(trim_spaces(cv@.subrange(lo as int, hi as int)) == cv@.subrange(lo as int, hi as int));
    crate::text::string_from_chars(&out)
}

/// The query one search sends: trimmed artist, one space, trimmed album.
pub open spec fn search_query_of(artist: Seq<char>, album: Seq<char>) -> Seq<char> {
    trim_spaces(artist) + " "@ + trim_spaces(album)
}

/// Builds the outbound search text from the artist and album names.
pub fn search_query(artist: &str, album: &str) -> (r: String)
    ensures
        r@ == search_query_of(artist@, album@),
{
    let mut q = trim_spaces_exec(artist);
    q.append(" ");
    let tail = trim_spaces_exec(album);
    q.append(tail.as_str());
    q
}

/// `s` with every occurrence of `pat` replaced by `sub`, scanning left to
/// right without re-examining substituted text.
pub open spec fn replace_all(s: Seq<char>, pat: Seq<char>, sub: Seq<char>) -> Seq<char>
    decreases s.len(),
    when pat.len() > 0
{
    if s.len() < pat.len() {
        s
    } else if s.subrange(0, pat.len() as int) == pat {
        sub + replace_all(s.skip(pat.len() as int), pat, sub)
    } else {
        seq![s[0]] + replace_all(s.drop_first(), pat, sub)
    }
}

/// Rewrites a gateway URL for execution inside a container, where the host's
/// loopback is reachable only under a special alias: every occurrence of
/// `localhost` becomes `host.docker.internal`. Outside a container the URL
/// passes through unchanged. The host application decides which environment
/// it is running in.
#[verifier::rlimit(80)]
pub fn resolve_container_host(url: &str, in_container: bool) -> (r: String)
    ensures
        in_container ==> r@ == replace_all(url@, "localhost"@, "host.docker.internal"@),
        !in_container ==> r@ == url@,
{
    if !in_container {
        return String::from_str(url);
    }
    proof {
        reveal_strlit("localhost");
        reveal_strlit("host.docker.internal");
    }
    let cv = char_vec(url);
    let pat = char_vec("localhost");
    let sub = char_vec("host.docker.internal");
    let n = cv.len();
    let mut out: Vec<char> = Vec::new();
    let mut i: usize = 0;
    assert(cv@.skip(0) =~= cv@);
    while i < n
        invariant
            i <= n,
            n == cv@.len(),
            cv@ == url@,
            pat@ == "localhost"@,
            sub@ == "host.docker.internal"@,
            pat@.len() == 9,
            out@ + replace_all(cv@.skip(i as int), pat@, sub@) == replace_all(cv@, pat@, sub@),
        decreases n - i,
    {
        let ghost rest = cv@.skip(i as int);
        let mut matched = false;
        if n >= 9 && i <= n - 9 {
            let mut k: usize = 0;
            let mut all = true;
            while k < 9
                invariant
                    k <= 9,
                    i + 9 <= n,
                    n == cv@.len(),
                    pat@.len() == 9,
                    all ==> forall|m: int| 0 <= m < k ==> cv@[i + m] == pat@[m],
                    !all ==> cv@.subrange(i as int, i as int + 9) != pat@,
                decreases 9 - k,
            {
                if cv[i + k] != pat[k] {
                    if all {
                        assert(cv@.subrange(i as int, i as int + 9)[k as int] != pat@[k as int]);
                    }
                    all = false;
                }
                k = k + 1;
            }
            if all {
                assert(cv@.subrange(i as int, i as int + 9) =~= pat@);
            }
            matched = all;
        } else {
            assert(rest.len() < 9);
        }
        if matched {
            assert(rest.subrange(0, 9) =~= cv@.subrange(i as int, i as int + 9));
            assert(rest.skip(9) =~= cv@.skip(i as int + 9));
            assert(replace_all(rest, pat@, sub@) == sub@ + replace_all(
                cv@.skip(i as int + 9),
                pat@,
                sub@,
            ));
            let ghost out_before = out@;
            let mut k: usize = 0;
            while k < sub.len()
                invariant
                    k <= sub@.len(),
                    out@ == out_before + sub@.subrange(0, k as int),
                decreases sub@.len() - k,
            {
                let c = sub[k];
                out.push(c);
                k = k + 1;
                assert(out@ =~= out_before + sub@.subrange(0, k as int));
            }
            assert(sub@.subrange(0, sub@.len() as int) =~= sub@);
            assert(out@ + replace_all(cv@.skip(i as int + 9), pat@, sub@) =~= out_before + (sub@
                + replace_all(cv@.skip(i as int + 9), pat@, sub@)));
            i = i + 9;
        } else {
            proof {
                if rest.len() >= 9 {
                    assert(rest.subrange(0, 9) =~= cv@.subrange(i as int, i as int + 9));
                    assert(rest.subrange(0, 9) != pat@);
                }
            }
            assert(rest.drop_first() =~= cv@.skip(i as int + 1));
            assert(rest[0] == cv@[i as int]);
            assert(replace_all(rest, pat@, sub@) == seq![cv@[i as int]] + replace_all(
                cv@.skip(i as int + 1),
                pat@,
                sub@,
            )) by {
                if rest.len() < 9 {
                    assert(replace_all(rest, pat@, sub@) == rest);
                    assert(replace_all(rest.drop_first(), pat@, sub@) == rest.drop_first());
                    assert(rest =~= seq![rest[0]] + rest.drop_first());
                }
            }
            let ghost out_before = out@;
            let c = cv[i];
            out.push(c);
            assert(out@ + replace_all(cv@.skip(i as int + 1), pat@, sub@) =~= out_before + (seq![
                cv@[i as int],
            ] + replace_all(cv@.skip(i as int + 1), pat@, sub@)));
            i = i + 1;
        }
    }
    assert(cv@.skip(n as int) =~= Seq::<char>::empty());
    assert(replace_all(Seq::<char>::empty(), pat@, sub@) == Seq::<char>::empty());
    assert(out@ =~= replace_all(cv@, pat@, sub@));
    string_from_chars(&out)
}

/// Configuration for the gateway client, collected step by step.
pub struct SoulseekClientBuilder {
    pub base_url: Option<String>,
    pub api_key: Option<String>,
    pub download_path: Option<String>,
    pub max_searches_per_window: Option<usize>,
    pub rate_limit_window_seconds: Option<i64>,
}

impl Default for SoulseekClientBuilder {
    /// An empty configuration.
    fn default() -> (r: SoulseekClientBuilder)
        ensures
            r.base_url is None,
            r.api_key is None,
            r.download_path is None,
            r.max_searches_per_window is None,
            r.rate_limit_window_seconds is None,
    {
        SoulseekClientBuilder {
            base_url: None,
            api_key: None,
            download_path: None,
            max_searches_per_window: None,
            rate_limit_window_seconds: None,
        }
    }
}

/// The verifiable core of the gateway client: the configuration every
/// request uses, and the rate limiter guarding outbound searches. The host
/// application owns the HTTP transport and drives it from this state.
pub struct SoulseekClient {
    pub base_url: String,
    pub api_key: Option<String>,
    pub download_path: String,
    pub limiter: RateLimiter,
}

impl SoulseekClient {
    /// A usable client: a parsable base URL and a well-formed limiter.
    pub open spec fn wf(self) -> bool {
        url_parses(self.base_url@) && self.limiter.wf()
    }
}

impl SoulseekClientBuilder {
    /// An empty configuration.
    pub fn new() -> (r: SoulseekClientBuilder)
        ensures
            r.base_url is None,
            r.api_key is None,
            r.download_path is None,
            r.max_searches_per_window is None,
            r.rate_limit_window_seconds is None,
    {
        Default::default()
    }

    /// Sets the gateway base URL.
    pub fn base_url(self, url: &str) -> (r: SoulseekClientBuilder)
        ensures
            r.base_url matches Some(u) && u@ == url@,
            r.api_key == self.api_key,
            r.download_path == self.download_path,
            r.max_searches_per_window == self.max_searches_per_window,
            r.rate_limit_window_seconds == self.rate_limit_window_seconds,
    {
        SoulseekClientBuilder { base_url: Some(String::from_str(url)), ..self }
    }

    /// Sets the API key attached to every request.
    pub fn api_key(self, key: &str) -> (r: SoulseekClientBuilder)
        ensures
            r.api_key matches Some(k) && k@ == key@,
            r.base_url == self.base_url,
            r.download_path == self.download_path,
            r.max_searches_per_window == self.max_searches_per_window,
            r.rate_limit_window_seconds == self.rate_limit_window_seconds,
    {
        SoulseekClientBuilder { api_key: Some(String::from_str(key)), ..self }
    }

    /// Sets the local directory finished downloads land in.
    pub fn download_path(self, path: &str) -> (r: SoulseekClientBuilder)
        ensures
            r.download_path matches Some(p) && p@ == path@,
            r.base_url == self.base_url,
            r.api_key == self.api_key,
            r.max_searches_per_window == self.max_searches_per_window,
            r.rate_limit_window_seconds == self.rate_limit_window_seconds,
    {
        SoulseekClientBuilder { download_path: Some(String::from_str(path)), ..self }
    }

    /// Sets the rate-limit ceiling and window.
    pub fn rate_limit(self, max_searches: usize, window_seconds: i64) -> (r: SoulseekClientBuilder)
        ensures
            r.max_searches_per_window == Some(max_searches),
            r.rate_limit_window_seconds == Some(window_seconds),
            r.base_url == self.base_url,
            r.api_key == self.api_key,
            r.download_path == self.download_path,
    {
        SoulseekClientBuilder {
            max_searches_per_window: Some(max_searches),
            rate_limit_window_seconds: Some(window_seconds),
            ..self
        }
    }

    /// Builds the client. Fails with `NotConfigured` when no base URL was
    /// given, when the base URL (trailing slashes removed) does not parse,
    /// or when the configured window falls outside the supported time range;
    /// defaults: downloads to `./downloads`, 35 searches per 220 seconds.
    pub fn build(self) -> (r: Result<SoulseekClient, SoulseekError>)
        ensures
            match r {
                Ok(c) => {
                    &&& c.wf()
                    &&& self.base_url matches Some(b) && c.base_url@ == trim_trailing_slash(b@)
                    &&& c.api_key == self.api_key
                    &&& (match self.download_path {
                        Some(p) => c.download_path@ == p@,
                        None => c.download_path@ == "./downloads"@,
                    })
                    &&& c.limiter.stamps@ == Seq::<i64>::empty()
                    &&& c.limiter.ceiling == (match self.max_searches_per_window {
                        Some(m) => m,
                        None => 35usize,
                    })
                    &&& c.limiter.window_ms as int == 1000 * (match self
                        .rate_limit_window_seconds {
                        Some(w) => w as int,
                        None => 220,
                    })
                },
                Err(e) => e is NotConfigured,
            },
            (self.base_url matches Some(b) && url_parses(trim_trailing_slash(b@)) && (match self
                .rate_limit_window_seconds {
                Some(w) => 0 <= w <= MAX_TIME_MS / 1000,
                None => true,
            })) ==> r is Ok,
    {
        let base = match self.base_url {
            Some(b) => b,
            None => {
                return Err(SoulseekError::NotConfigured);
            },
        };
        let cv = char_vec(base.as_str());
        let mut hi: usize = cv.len();
        assert(cv@.subrange(0, cv@.len() as int) =~= base@);
        while hi > 0 && cv[hi - 1] == '/'
            invariant
                hi <= cv@.len(),
                cv@ == base@,
                trim_trailing_slash(cv@.subrange(0, hi as int)) == trim_trailing_slash(base@),
            decreases hi,
        {
            assert(cv@.subrange(0, hi as int).drop_last() =~= cv@.subrange(0, hi as int - 1));
            hi = hi - 1;
        }
        let mut out: Vec<char> = Vec::new();
        let mut i: usize = 0;
        while i < hi
            invariant
                i <= hi <= cv@.len(),
                out@ == cv@.subrange(0, i as int),
            decreases hi - i,
        {
            let c = cv[i];
            out.push(c);
            i = i + 1;
            assert(out@ =~= cv@.subrange(0, i as int));
        }
        assert(trim_trailing_slash(cv@.subrange(0, hi as int)) == cv@.subrange(0, hi as int));
        let trimmed = crate::text::string_from_chars(&out);
        if !url_parse_ok(trimmed.as_str()) {
            return Err(SoulseekError::NotConfigured);
        }
        let window_seconds: i64 = match self.rate_limit_window_seconds {
            Some(w) => w,
            None => 220,
        };
        if window_seconds < 0 || window_seconds > MAX_TIME_MS / 1000 {
            return Err(SoulseekError::NotConfigured);
        }
        let ceiling: usize = match self.max_searches_per_window {
            Some(m) => m,
            None => 35,
        };
        let download_path = match self.download_path {
            Some(p) => p,
            None => String::from_str("./downloads"),
        };
        Ok(SoulseekClient {
            base_url: trimmed,
            api_key: self.api_key,
            download_path,
            limiter: RateLimiter::new(window_seconds * 1000, ceiling),
        })
    }
}

impl SoulseekClient {
    /// The absolute request URL for one gateway endpoint, resolved against
    /// the base URL under the gateway's `api/v0/` prefix.
    pub fn request_url(&self, endpoint: &str) -> (r: Option<String>)
        ensures
            (r is Some) == (url_joined(self.base_url@, "api/v0/"@ + endpoint@) is Some),
            r matches Some(u) ==> url_joined(self.base_url@, "api/v0/"@ + endpoint@) == Some(u@),
    {
        let mut rel = String::from_str("api/v0/");
        rel.append(endpoint);
        url_join(self.base_url.as_str(), rel.as_str())
    }

    /// Admits one outbound search at time `now`, returning the wait the
    /// caller owes before sending, per the sliding-window rate limiter.
    pub fn admit_search_at(&mut self, now: i64) -> (wait_ms: i64)
        requires
            old(self).limiter.wf(),
            0 <= now <= MAX_TIME_MS,
        ensures
            final(self).limiter.wf(),
            final(self).base_url == old(self).base_url,
            final(self).api_key == old(self).api_key,
            final(self).download_path == old(self).download_path,
            final(self).limiter.window_ms == old(self).limiter.window_ms,
            final(self).limiter.ceiling == old(self).limiter.ceiling,
            final(self).limiter.stamps@ == crate::rate::retained(
                old(self).limiter.stamps@,
                now - old(self).limiter.window_ms,
            ).push(now),
            wait_ms == crate::rate::wait_of(
                old(self).limiter.stamps@,
                old(self).limiter.window_ms as int,
                old(self).limiter.ceiling as int,
                now as int,
            ),
            0 <= wait_ms,
    {
        self.limiter.admit_at(now)
    }
}

// The endpoint paths of the gateway API, as each request builds them.

/// `searches`, where a search starts.
pub fn searches_endpoint() -> (r: String)
    ensures
        r@ == "searches"@,
{
    String::from_str("searches")
}

/// `searches/{id}/responses`, where a running search's responses arrive.
pub fn search_responses_endpoint(id: &str) -> (r: String)
    ensures
        r@ == "searches/"@ + id@ + "/responses"@,
{
    let mut s = String::from_str("searches/");
    s.append(id);
    s.append("/responses");
    s
}

/// `searches/{id}`, deleted when the session ends.
pub fn delete_search_endpoint(id: &str) -> (r: String)
    ensures
        r@ == "searches/"@ + id@,
{
    let mut s = String::from_str("searches/");
    s.append(id);
    s
}

/// `transfers/downloads/{username}`, where one peer's downloads are submitted.
pub fn peer_downloads_endpoint(username: &str) -> (r: String)
    ensures
        r@ == "transfers/downloads/"@ + username@,
{
    let mut s = String::from_str("transfers/downloads/");
    s.append(username);
    s
}

/// `transfers/downloads`, the transfer-state poll.
pub fn all_downloads_endpoint() -> (r: String)
    ensures
        r@ == "transfers/downloads"@,
{
    String::from_str("transfers/downloads")
}

/// `transfers/downloads/{username}/{id}?remove={bool}`, cancelling one
/// transfer.
pub fn cancel_download_endpoint(username: &str, download_id: &str, remove: bool) -> (r: String)
    ensures
        remove ==> r@ == "transfers/downloads/"@ + username@ + "/"@ + download_id@ + "?remove=true"@,
        !remove ==> r@ == "transfers/downloads/"@ + username@ + "/"@ + download_id@
            + "?remove=false"@,
{
    let mut s = String::from_str("transfers/downloads/");
    s.append(username);
    s.append("/");
    s.append(download_id);
    if remove {
        s.append("?remove=true");
    } else {
        s.append("?remove=false");
    }
    s
}

/// `transfers/downloads/all/completed`, clearing finished transfers.
pub fn clear_completed_endpoint() -> (r: String)
    ensures
        r@ == "transfers/downloads/all/completed"@,
{
    String::from_str("transfers/downloads/all/completed")
}

/// `session`, the connectivity probe.
pub fn session_endpoint() -> (r: String)
    ensures
        r@ == "session"@,
{
    String::from_str("session")
}

} // verus!
