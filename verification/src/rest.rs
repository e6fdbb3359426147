use vstd::prelude::*;
use vstd::string::StringExecFns;
use vstd::utf8::{decode_utf8, valid_utf8};
use crate::listfile::{is_listed, line_in_file};
use crate::text::{chars_equal, chars_of, string_from_utf8};

verus! {

/// An HTTP reply: status, the `WWW-Authenticate` challenge if any, and the
/// body.
pub struct Reply {
    pub status: u16,
    pub authenticate: Option<String>,
    pub body: String,
}

/// A reply as a value of the model.
pub struct ReplyView {
    pub status: u16,
    pub authenticate: Option<Seq<char>>,
    pub body: Seq<char>,
}

impl View for Reply {
    type V = ReplyView;

    open spec fn view(&self) -> ReplyView {
        ReplyView {
            status: self.status,
            authenticate: match &self.authenticate {
                Some(a) => Some(a@),
                None => None,
            },
            body: self.body@,
        }
    }
}

pub open spec fn challenge() -> Seq<char> {
    "Basic realm=\"User Visible Realm\""@
}

pub open spec fn unauthorized_reply() -> ReplyView {
    ReplyView { status: 401, authenticate: Some(challenge()), body: "Unauthorized"@ }
}

pub open spec fn failure_reply(message: Seq<char>) -> ReplyView {
    ReplyView { status: 500, authenticate: None, body: "Server error: "@ + message }
}

pub open spec fn success_reply(message: Seq<char>) -> ReplyView {
    ReplyView { status: 200, authenticate: None, body: "Ok "@ + message }
}

pub open spec fn body_reply(body: Seq<char>) -> ReplyView {
    ReplyView { status: 200, authenticate: None, body }
}

pub open spec fn not_found_reply() -> ReplyView {
    ReplyView { status: 404, authenticate: None, body: "Page not found"@ }
}

/// 401 with a Basic challenge.
pub fn unauthorized() -> (r: Reply)
    ensures
        r@ == unauthorized_reply(),
{
    Reply {
        status: 401,
        authenticate: Some("Basic realm=\"User Visible Realm\"".to_owned()),
        body: "Unauthorized".to_owned(),
    }
}

/// 500 with `Server error: <message>`.
pub fn failure(message: &str) -> (r: Reply)
    ensures
        r@ == failure_reply(message@),
{
    let mut body = "Server error: ".to_owned();
    body.append(message);
    Reply { status: 500, authenticate: None, body }
}

/// 200 with `Ok <message>`.
pub fn success(message: &str) -> (r: Reply)
    ensures
        r@ == success_reply(message@),
{
    let mut body = "Ok ".to_owned();
    body.append(message);
    Reply { status: 200, authenticate: None, body }
}

/// The method of a request, as far as routing cares.
#[derive(Clone, Copy, Debug, PartialEq, Eq, Structural)]
pub enum Method {
    Get,
    Other,
}

/// A request to the management interface.
pub struct ApiRequest {
    pub method: Method,
    /// The path of the request target.
    pub path: String,
    /// The request target as written (path and query).
    pub uri: String,
    /// The raw bytes of the `Authorization` header, if present.
    pub authorization: Option<Vec<u8>>,
}

// ---------------------------------------------------------------------
// Credentials.

/// Bytes that `HeaderValue::to_str` accepts: visible ASCII and tab.
pub open spec fn is_visible_ascii(b: u8) -> bool {
    (32 <= b && b < 127) || b == 9
}

pub open spec fn all_visible_ascii(h: Seq<u8>) -> bool {
    forall|i: int| 0 <= i < h.len() ==> is_visible_ascii(#[trigger] h[i])
}

/// Whether `pat` occurs in `s` at `i`.
pub open spec fn matches_at(s: Seq<u8>, pat: Seq<u8>, i: int) -> bool {
    0 <= i && i + pat.len() <= s.len() && s.subrange(i, i + pat.len()) == pat
}

/// The first position at or after `from` where `pat` occurs in `s`.
pub open spec fn first_match(s: Seq<u8>, pat: Seq<u8>, from: int) -> Option<int>
    decreases s.len() + 1 - from,
{
    if from < 0 || from + pat.len() > s.len() {
        None
    } else if matches_at(s, pat, from) {
        Some(from)
    } else {
        first_match(s, pat, from + 1)
    }
}

/// The bytes of `Basic ` (with its space).
pub open spec fn basic_marker() -> Seq<u8> {
    seq!['B' as u8, 'a' as u8, 's' as u8, 'i' as u8, 'c' as u8, ' ' as u8]
}

/// The second piece of the header split on `Basic `: what stands between
/// the first `Basic ` and the next one (or the end).
pub open spec fn basic_token(h: Seq<u8>) -> Option<Seq<u8>> {
    match first_match(h, basic_marker(), 0) {
        None => None,
        Some(i) => {
            let start: int = i + basic_marker().len();
            let end: int = match first_match(h, basic_marker(), start) {
                Some(j) => j,
                None => h.len() as int,
            };
            Some(h.subrange(start, end))
        },
    }
}

/// What `base64::decode` (standard alphabet) gives for `input`.
pub uninterp spec fn base64_decoded(input: Seq<u8>) -> Option<Seq<u8>>;

/// `base64::decode`: the bytes the input encodes, or `None` when it is not
/// valid base64.  The result is named, not described.  The crate reserves
/// `input.len() * 4 / 3` bytes first, so the length is bounded.
#[verifier::external_body]
fn decode_base64(input: &[u8]) -> (r: Option<Vec<u8>>)
    requires
        input@.len() <= usize::MAX / 4,
    ensures
        r is Some <==> base64_decoded(input@) is Some,
        r matches Some(v) ==> base64_decoded(input@) == Some(v@),
{
    base64::decode(input).ok()
}

/// The user name and password sent with Basic authentication: the header
/// must be visible ASCII, hold a `Basic ` token, which must be base64 of
/// UTF-8 text.
pub open spec fn credentials(auth: Option<Seq<u8>>) -> Option<Seq<char>> {
    match auth {
        None => None,
        Some(h) => if !all_visible_ascii(h) {
            None
        } else {
            match basic_token(h) {
                None => None,
                Some(token) => match base64_decoded(token) {
                    None => None,
                    Some(bytes) => if valid_utf8(bytes) {
                        Some(decode_utf8(bytes))
                    } else {
                        None
                    },
                },
            }
        },
    }
}

/// A request is authorised when its credentials are listed in the password
/// file (which must have been read).
pub open spec fn authorized(auth: Option<Seq<u8>>, passwords: Option<Seq<char>>) -> bool {
    match (credentials(auth), passwords) {
        (Some(c), Some(p)) => is_listed(p, c),
        _ => false,
    }
}

/// Whether every byte is visible ASCII.
pub fn visible_ascii(h: &[u8]) -> (r: bool)
    ensures
        r == all_visible_ascii(h@),
{
    let n: usize = h.len();
    let mut i: usize = 0;
    while i < n
        invariant
            n == h.len(),
            0 <= i <= n,
            forall|j: int| 0 <= j < i ==> is_visible_ascii(#[trigger] h@[j]),
        decreases n - i,
    {
        let b: u8 = h[i];
        if !((32 <= b && b < 127) || b == 9) {
            assert(!is_visible_ascii(h@[i as int]));
            return false;
        }
        i = i + 1;
    }
    true
}

/// Whether `pat` occurs in `s` at `i`.
fn bytes_match_at(s: &[u8], pat: &[u8], i: usize) -> (r: bool)
    ensures
        r == matches_at(s@, pat@, i as int),
{
    if i > s.len() || s.len() - i < pat.len() {
        return false;
    }
    let n: usize = pat.len();
    let mut j: usize = 0;
    while j < n
        invariant
            n == pat.len(),
            i + n <= s.len(),
            0 <= j <= n,
            forall|k: int| 0 <= k < j ==> s@[i + k] == pat@[k],
        decreases n - j,
    {
        if s[i + j] != pat[j] {
            assert(s@.subrange(i as int, i + n)[j as int] != pat@[j as int]);
            return false;
        }
        j = j + 1;
    }
    assert(s@.subrange(i as int, i + n) =~= pat@);
    true
}

/// The first position at or after `from` where `pat` occurs in `s`.
fn find_from(s: &[u8], pat: &[u8], from: usize) -> (r: Option<usize>)
    ensures
        r matches Some(i) ==> first_match(s@, pat@, from as int) == Some(i as int),
        r is None ==> first_match(s@, pat@, from as int) is None,
{
    if pat.len() == 0 {
        if from <= s.len() {
            assert(s@.subrange(from as int, from as int) =~= pat@);
            return Some(from);
        } else {
            return None;
        }
    }
    let mut i: usize = from;
    while i <= s.len() && s.len() - i >= pat.len()
        invariant
            from <= i,
            pat.len() > 0,
            first_match(s@, pat@, from as int) == first_match(s@, pat@, i as int),
        decreases s.len() + 1 - i,
    {
        if bytes_match_at(s, pat, i) {
            return Some(i);
        }
        i = i + 1;
    }
    None
}

/// The bytes `s[start..end]`.
fn copy_range(s: &[u8], start: usize, end: usize) -> (r: Vec<u8>)
    requires
        start <= end <= s.len(),
    ensures
        r@ == s@.subrange(start as int, end as int),
{
    let mut r: Vec<u8> = Vec::new();
    let mut i: usize = start;
    while i < end
        invariant
            start <= i <= end <= s.len(),
            r@ == s@.subrange(start as int, i as int),
        decreases end - i,
    {
        r.push(s[i]);
        i = i + 1;
        assert(r@ =~= s@.subrange(start as int, i as int));
    }
    r
}

/// The token after `Basic ` in an authorization header.
pub fn find_basic_token(h: &[u8]) -> (r: Option<Vec<u8>>)
    ensures
        r matches Some(t) ==> basic_token(h@) == Some(t@),
        r is None ==> basic_token(h@) is None,
{
    let marker: Vec<u8> = vec!['B' as u8, 'a' as u8, 's' as u8, 'i' as u8, 'c' as u8, ' ' as u8];
    assert(marker@ =~= basic_marker());
    assert(basic_marker().len() == 6);
    match find_from(h, marker.as_slice(), 0) {
        None => None,
        Some(i) => {
            proof {
                lemma_first_match_bounds(h@, basic_marker(), 0);
                assert(first_match(h@, basic_marker(), 0) == Some(i as int));
                assert(i + 6 <= h@.len());
            }
            let hl: usize = h.len();
            assert(i + 6 <= hl);
            let start: usize = i + 6;
            let end: usize = match find_from(h, marker.as_slice(), start) {
                Some(j) => j,
                None => h.len(),
            };
            proof {
                lemma_first_match_bounds(h@, basic_marker(), start as int);
            }
            Some(copy_range(h, start, end))
        },
    }
}

proof fn lemma_first_match_bounds(s: Seq<u8>, pat: Seq<u8>, from: int)
    ensures
        first_match(s, pat, from) matches Some(i) ==> from <= i && i + pat.len() <= s.len()
            && matches_at(s, pat, i),
    decreases s.len() + 1 - from,
{
    if !(from < 0 || from + pat.len() > s.len()) && !matches_at(s, pat, from) {
        lemma_first_match_bounds(s, pat, from + 1);
    }
}

proof fn lemma_basic_token_len(h: Seq<u8>)
    ensures
        basic_token(h) matches Some(t) ==> t.len() <= h.len(),
{
    lemma_first_match_bounds(h, basic_marker(), 0);
    if let Some(i) = first_match(h, basic_marker(), 0) {
        lemma_first_match_bounds(h, basic_marker(), i + basic_marker().len());
    }
}

/// The credentials of a request, when it has valid ones.
pub fn request_credentials(auth: &Option<Vec<u8>>) -> (r: Option<String>)
    requires
        auth matches Some(h) ==> h@.len() <= usize::MAX / 4,
    ensures
        r is Some <==> credentials(
            match auth {
                Some(h) => Some(h@),
                None => None,
            },
        ) is Some,
        r matches Some(c) ==> credentials(
            match auth {
                Some(h) => Some(h@),
                None => None,
            },
        ) == Some(c@),
{
    let h = match auth {
        Some(h) => h,
        None => return None,
    };
    if !visible_ascii(h.as_slice()) {
        return None;
    }
    let token = match find_basic_token(h.as_slice()) {
        Some(t) => t,
        None => return None,
    };
    proof {
        lemma_basic_token_len(h@);
    }
    let bytes = match decode_base64(token.as_slice()) {
        Some(b) => b,
        None => return None,
    };
    string_from_utf8(bytes)
}

// ---------------------------------------------------------------------
// Routing.

/// The outcome of routing a request.
pub enum RouteOutcome {
    /// Send this reply.
    Respond(Reply),
    /// Append this text to the allow-list file, then reply with
    /// `write_reply`.
    Append(String),
    /// Replace the allow-list file's contents with this text, then reply
    /// with `write_reply`.
    Rewrite(String),
}

/// The outcome of routing, as a value of the model.
pub enum Outcome {
    Respond(ReplyView),
    Append(Seq<char>),
    Rewrite(Seq<char>),
}

pub open spec fn outcome_is(r: RouteOutcome, o: Outcome) -> bool {
    match (r, o) {
        (RouteOutcome::Respond(a), Outcome::Respond(b)) => a@ == b,
        (RouteOutcome::Append(a), Outcome::Append(b)) => a@ == b,
        (RouteOutcome::Rewrite(a), Outcome::Rewrite(b)) => a@ == b,
        _ => false,
    }
}

/// How writing the allow-list file went.
#[derive(Clone, Copy, Debug, PartialEq, Eq, Structural)]
pub enum WriteOutcome {
    /// The file could not be opened.
    OpenFailed,
    /// The file was opened but could not be truncated or written.
    WriteFailed,
    Written,
}

pub open spec fn write_reply_of(o: WriteOutcome) -> ReplyView {
    match o {
        WriteOutcome::OpenFailed => failure_reply("couldn't open file"@),
        WriteOutcome::WriteFailed => failure_reply("write failure"@),
        WriteOutcome::Written => success_reply(""@),
    }
}

/// The reply once the allow-list file has been written (or not).
pub fn write_reply(o: WriteOutcome) -> (r: Reply)
    ensures
        r@ == write_reply_of(o),
{
    match o {
        WriteOutcome::OpenFailed => failure("couldn't open file"),
        WriteOutcome::WriteFailed => failure("write failure"),
        WriteOutcome::Written => success(""),
    }
}

/// The text with every occurrence of `pat` removed, scanning from the
/// left (what `str::replace(pat, "")` does for a non-empty `pat`).
pub open spec fn strip(s: Seq<char>, pat: Seq<char>) -> Seq<char>
    decreases s.len(),
{
    if s.len() == 0 || pat.len() == 0 {
        s
    } else if pat.len() <= s.len() && s.take(pat.len() as int) == pat {
        strip(s.skip(pat.len() as int), pat)
    } else {
        seq![s[0]] + strip(s.skip(1), pat)
    }
}

/// `String`'s `FromIterator<char>`: the string of these characters.
#[verifier::external_body]
fn string_from_chars(v: &[char]) -> (s: String)
    ensures
        s@ == v@,
{
    v.iter().collect()
}

/// Whether `pat` occurs in `s` at `i`.
fn chars_match_at(s: &[char], pat: &[char], i: usize) -> (r: bool)
    requires
        i <= s.len(),
    ensures
        r == (pat.len() <= s.len() - i && s@.skip(i as int).take(pat.len() as int) == pat@),
{
    if s.len() - i < pat.len() {
        return false;
    }
    let n: usize = pat.len();
    let mut j: usize = 0;
    while j < n
        invariant
            n == pat.len(),
            i + n <= s.len(),
            0 <= j <= n,
            forall|k: int| 0 <= k < j ==> s@[i + k] == pat@[k],
        decreases n - j,
    {
        if s[i + j] != pat[j] {
            assert(s@.skip(i as int).take(n as int)[j as int] != pat@[j as int]);
            return false;
        }
        j = j + 1;
    }
    assert(s@.skip(i as int).take(n as int) =~= pat@);
    true
}

/// The text with every occurrence of `pat` removed, scanning from the left.
pub fn strip_all(s: &str, pat: &str) -> (r: String)
    ensures
        r@ == strip(s@, pat@),
{
    let cs = chars_of(s);
    let ps = chars_of(pat);
    let n: usize = cs.len();
    let m: usize = ps.len();
    let mut out: Vec<char> = Vec::new();
    let mut i: usize = 0;
    assert(cs@.skip(0) =~= cs@);
    while i < n
        invariant
            n == cs.len(),
            m == ps.len(),
            cs@ == s@,
            ps@ == pat@,
            0 <= i <= n,
            strip(s@, pat@) == out@ + strip(cs@.skip(i as int), pat@),
        decreases n - i,
    {
        let ghost t = cs@.skip(i as int);
        if m > 0 && chars_match_at(cs.as_slice(), ps.as_slice(), i) {
            assert(t.skip(m as int) =~= cs@.skip(i + m));
            i = i + m;
        } else {
            out.push(cs[i]);
            proof {
                assert(t.skip(1) =~= cs@.skip(i + 1));
                if m == 0 {
                    assert(strip(t, pat@) == t);
                    assert(strip(cs@.skip(i + 1), pat@) == cs@.skip(i + 1));
                    assert(t =~= seq![t[0]] + cs@.skip(i + 1));
                }
                assert(out@ + strip(cs@.skip(i + 1), pat@) =~= (out@.drop_last() + seq![t[0]]) + strip(cs@.skip(i + 1), pat@));
            }
            i = i + 1;
        }
    }
    proof {
        assert(cs@.skip(n as int) =~= Seq::<char>::empty());
        assert(out@ + Seq::<char>::empty() =~= out@);
    }
    string_from_chars(out.as_slice())
}

/// The parameters of the query of a URL, decoded.
pub uninterp spec fn url_query(url: Seq<char>) -> Option<Seq<(Seq<char>, Seq<char>)>>;

pub open spec fn pair_views(v: Seq<(String, String)>) -> Seq<(Seq<char>, Seq<char>)> {
    v.map_values(|p: (String, String)| (p.0@, p.1@))
}

/// `url::Url::parse`, then `Url::query_pairs` collected as owned strings:
/// `None` when the URL does not parse, else the decoded name/value pairs
/// of its query in order.  The result is named, not described.
#[verifier::external_body]
fn parse_query(url: &str) -> (r: Option<Vec<(String, String)>>)
    ensures
        r is Some <==> url_query(url@) is Some,
        r matches Some(v) ==> url_query(url@) == Some(pair_views(v@)),
{
    match url::Url::parse(url) {
        Ok(u) => Some(u.query_pairs().map(|(k, v)| (k.into_owned(), v.into_owned())).collect()),
        Err(_) => None,
    }
}

/// The absolute URL a request target is read as.
pub open spec fn request_url(uri: Seq<char>) -> Seq<char> {
    "https://example.com"@ + uri
}

pub open spec fn hint() -> Seq<char> {
    "Please give ?ip=xx.xx.xx.xx"@
}

/// Whether `ip` is listed in the allow-list file (an unread file lists
/// nothing).
pub open spec fn listed_in(file: Option<Seq<char>>, ip: Seq<char>) -> bool {
    match file {
        Some(w) => is_listed(w, ip),
        None => false,
    }
}

/// The single `ip` parameter of a query, if that is what it holds.
pub open spec fn ip_param(params: Seq<(Seq<char>, Seq<char>)>) -> Option<Seq<char>> {
    if params.len() == 1 && params[0].0 == "ip"@ {
        Some(params[0].1)
    } else {
        None
    }
}

pub open spec fn add_outcome(params: Seq<(Seq<char>, Seq<char>)>, whitelist: Option<Seq<char>>) -> Outcome {
    match ip_param(params) {
        None => Outcome::Respond(failure_reply(hint())),
        Some(ip) => if listed_in(whitelist, ip) {
            Outcome::Respond(failure_reply("Ip already in whitelist"@))
        } else {
            Outcome::Append(ip)
        },
    }
}

pub open spec fn remove_outcome(params: Seq<(Seq<char>, Seq<char>)>, whitelist: Option<Seq<char>>) -> Outcome {
    match ip_param(params) {
        None => Outcome::Respond(failure_reply(hint())),
        Some(ip) => if !listed_in(whitelist, ip) {
            Outcome::Respond(failure_reply("Ip not in whitelist"@))
        } else {
            match whitelist {
                None => Outcome::Respond(failure_reply("couldn't open file"@)),
                Some(w) => Outcome::Rewrite(strip(w, ip)),
            }
        },
    }
}

/// How a request is answered, given the contents of the password file and
/// of the allow-list file (`None` when a file cannot be read).
pub open spec fn route(
    method: Method,
    path: Seq<char>,
    uri: Seq<char>,
    auth: Option<Seq<u8>>,
    passwords: Option<Seq<char>>,
    whitelist: Option<Seq<char>>,
) -> Outcome {
    if !authorized(auth, passwords) {
        Outcome::Respond(unauthorized_reply())
    } else {
        match url_query(request_url(uri)) {
            None => Outcome::Respond(failure_reply(""@)),
            Some(params) => route_query(method, path, params, whitelist),
        }
    }
}

/// How an authorised request is answered once its query has been decoded
/// into `params`.
pub open spec fn route_query(
    method: Method,
    path: Seq<char>,
    params: Seq<(Seq<char>, Seq<char>)>,
    whitelist: Option<Seq<char>>,
) -> Outcome {
    if method != Method::Get {
        Outcome::Respond(not_found_reply())
    } else if path == "/"@ {
        Outcome::Respond(body_reply("Collabdraw api"@))
    } else if path == "/whitelist/add"@ {
        add_outcome(params, whitelist)
    } else if path == "/whitelist/remove"@ || path == "/whitelist/delete"@ {
        remove_outcome(params, whitelist)
    } else if path == "/whitelist/list"@ {
        match whitelist {
            None => Outcome::Respond(failure_reply(""@)),
            Some(w) => Outcome::Respond(body_reply(w)),
        }
    } else {
        Outcome::Respond(not_found_reply())
    }
}

pub open spec fn opt_bytes(v: &Option<Vec<u8>>) -> Option<Seq<u8>> {
    match v {
        Some(b) => Some(b@),
        None => None,
    }
}

pub open spec fn opt_text(v: &Option<String>) -> Option<Seq<char>> {
    match v {
        Some(s) => Some(s@),
        None => None,
    }
}

/// Whether two strings are equal.
pub fn same_text(a: &str, b: &str) -> (r: bool)
    ensures
        r == (a@ == b@),
{
    let x = chars_of(a);
    let y = chars_of(b);
    chars_equal(x.as_slice(), y.as_slice())
}

/// Whether the file (if read) lists `line`.
fn listed_in_file(file: &Option<String>, line: &str) -> (r: bool)
    ensures
        r == listed_in(opt_text(file), line@),
{
    match file {
        Some(w) => line_in_file(line, w.as_str()),
        None => false,
    }
}

/// Whether the request carries credentials listed in the password file.
pub fn is_authorized(auth: &Option<Vec<u8>>, passwords: &Option<String>) -> (r: bool)
    requires
        auth matches Some(h) ==> h@.len() <= usize::MAX / 4,
    ensures
        r == authorized(opt_bytes(auth), opt_text(passwords)),
{
    let c = match request_credentials(auth) {
        Some(c) => c,
        None => return false,
    };
    match passwords {
        Some(p) => line_in_file(c.as_str(), p.as_str()),
        None => false,
    }
}

/// The single `ip` parameter, if that is what the query holds.
fn single_ip(params: &Vec<(String, String)>) -> (r: Option<String>)
    ensures
        r matches Some(ip) ==> ip_param(pair_views(params@)) == Some(ip@),
        r is None ==> ip_param(pair_views(params@)) is None,
{
    if params.len() != 1 {
        return None;
    }
    if same_text(params[0].0.as_str(), "ip") {
        Some(params[0].1.clone())
    } else {
        None
    }
}

/// Answers a request to the management interface; see `route`.  The
/// `Authorization` header is bounded by what `base64` can decode.
pub fn routes(req: &ApiRequest, passwords: &Option<String>, whitelist: &Option<String>) -> (r: RouteOutcome)
    requires
        req.authorization matches Some(h) ==> h@.len() <= usize::MAX / 4,
    ensures
        outcome_is(
            r,
            route(
                req.method,
                req.path@,
                req.uri@,
                opt_bytes(&req.authorization),
                opt_text(passwords),
                opt_text(whitelist),
            ),
        ),
{
    if !is_authorized(&req.authorization, passwords) {
        return RouteOutcome::Respond(unauthorized());
    }
    let mut url = "https://example.com".to_owned();
    url.append(req.uri.as_str());
    let params = match parse_query(url.as_str()) {
        Some(p) => p,
        None => return RouteOutcome::Respond(failure("")),
    };
    route_params(req.method, req.path.as_str(), &params, whitelist)
}

/// Answers an authorised request whose query has been decoded into
/// `params`; see `route_query`.
pub fn route_params(
    method: Method,
    path: &str,
    params: &Vec<(String, String)>,
    whitelist: &Option<String>,
) -> (r: RouteOutcome)
    ensures
        outcome_is(r, route_query(method, path@, pair_views(params@), opt_text(whitelist))),
{
    if method != Method::Get {
        RouteOutcome::Respond(not_found())
    } else if same_text(path, "/") {
        RouteOutcome::Respond(Reply { status: 200, authenticate: None, body: "Collabdraw api".to_owned() })
    } else if same_text(path, "/whitelist/add") {
        match single_ip(params) {
            None => RouteOutcome::Respond(failure("Please give ?ip=xx.xx.xx.xx")),
            Some(ip) => if listed_in_file(whitelist, ip.as_str()) {
                RouteOutcome::Respond(failure("Ip already in whitelist"))
            } else {
                RouteOutcome::Append(ip)
            },
        }
    } else if same_text(path, "/whitelist/remove") || same_text(path, "/whitelist/delete") {
        match single_ip(params) {
            None => RouteOutcome::Respond(failure("Please give ?ip=xx.xx.xx.xx")),
            Some(ip) => if !listed_in_file(whitelist, ip.as_str()) {
                RouteOutcome::Respond(failure("Ip not in whitelist"))
            } else {
                match whitelist {
                    None => RouteOutcome::Respond(failure("couldn't open file")),
                    Some(w) => RouteOutcome::Rewrite(strip_all(w.as_str(), ip.as_str())),
                }
            },
        }
    } else if same_text(path, "/whitelist/list") {
        match whitelist {
            None => RouteOutcome::Respond(failure("")),
            Some(w) => RouteOutcome::Respond(Reply { status: 200, authenticate: None, body: w.clone() }),
        }
    } else {
        RouteOutcome::Respond(not_found())
    }
}

/// 404 with `Page not found`.
pub fn not_found() -> (r: Reply)
    ensures
        r@ == not_found_reply(),
{
    Reply { status: 404, authenticate: None, body: "Page not found".to_owned() }
}

/// A request without credentials listed in the password file is refused
/// with 401, whatever it asks for.
pub proof fn lemma_unauthorized_refused(
    method: Method,
    path: Seq<char>,
    uri: Seq<char>,
    auth: Option<Seq<u8>>,
    passwords: Option<Seq<char>>,
    whitelist: Option<Seq<char>>,
)
    requires
        !authorized(auth, passwords),
    ensures
        route(method, path, uri, auth, passwords, whitelist) == Outcome::Respond(unauthorized_reply()),
{
}

/// An authorised request to add an address that is not listed yet asks to
/// append exactly that address; a listed one is refused.
pub proof fn lemma_add_route(
    uri: Seq<char>,
    auth: Option<Seq<u8>>,
    passwords: Option<Seq<char>>,
    w: Seq<char>,
    ip: Seq<char>,
)
    requires
        authorized(auth, passwords),
        url_query(request_url(uri)) == Some(seq![("ip"@, ip)]),
    ensures
        route(Method::Get, "/whitelist/add"@, uri, auth, passwords, Some(w)) == (if is_listed(w, ip) {
            Outcome::Respond(failure_reply("Ip already in whitelist"@))
        } else {
            Outcome::Append(ip)
        }),
{
    reveal_strlit("/whitelist/add");
    reveal_strlit("/");
    let params = seq![("ip"@, ip)];
    assert(ip_param(params) == Some(ip));
    assert("/whitelist/add"@ != "/"@) by {
        assert("/whitelist/add"@.len() != "/"@.len());
    }
    assert(route(Method::Get, "/whitelist/add"@, uri, auth, passwords, Some(w)) == add_outcome(params, Some(w)));
}

/// An authorised request to remove a listed address asks to rewrite the
/// file with every occurrence of it stripped; an unlisted one is refused.
pub proof fn lemma_remove_route(
    uri: Seq<char>,
    auth: Option<Seq<u8>>,
    passwords: Option<Seq<char>>,
    w: Seq<char>,
    ip: Seq<char>,
)
    requires
        authorized(auth, passwords),
        url_query(request_url(uri)) == Some(seq![("ip"@, ip)]),
    ensures
        route(Method::Get, "/whitelist/remove"@, uri, auth, passwords, Some(w)) == (if is_listed(w, ip) {
            Outcome::Rewrite(strip(w, ip))
        } else {
            Outcome::Respond(failure_reply("Ip not in whitelist"@))
        }),
{
    reveal_strlit("/whitelist/add");
    reveal_strlit("/whitelist/remove");
    reveal_strlit("/");
    let params = seq![("ip"@, ip)];
    assert(ip_param(params) == Some(ip));
    assert("/whitelist/remove"@ != "/"@) by {
        assert("/whitelist/remove"@.len() != "/"@.len());
    }
    assert("/whitelist/remove"@ != "/whitelist/add"@) by {
        assert("/whitelist/remove"@.len() != "/whitelist/add"@.len());
    }
    assert(route(Method::Get, "/whitelist/remove"@, uri, auth, passwords, Some(w)) == remove_outcome(params, Some(w)));
}

} // verus!
