use collabdraw::rest::{
    failure, find_basic_token, is_authorized, not_found, request_credentials, routes, same_text,
    strip_all, success, unauthorized, visible_ascii, write_reply, ApiRequest, Method, Reply,
    RouteOutcome, WriteOutcome,
};

const PASSWORDS: &str = "# users\nuser:pass\nadmin:secret\n";

fn basic(credentials: &str) -> Vec<u8> {
    // base64 of the credentials, written out for the fixed test values
    let encoded = match credentials {
        "user:pass" => "dXNlcjpwYXNz",
        "admin:secret" => "YWRtaW46c2VjcmV0",
        "nobody:x" => "bm9ib2R5Ong=",
        _ => panic!("no fixture"),
    };
    format!("Basic {}", encoded).into_bytes()
}

fn get(uri: &str, auth: Option<Vec<u8>>) -> ApiRequest {
    let path = uri.split('?').next().unwrap().to_string();
    ApiRequest { method: Method::Get, path, uri: uri.to_string(), authorization: auth }
}

fn respond(o: RouteOutcome) -> Reply {
    match o {
        RouteOutcome::Respond(r) => r,
        RouteOutcome::Append(t) => panic!("append {:?}", t),
        RouteOutcome::Rewrite(t) => panic!("rewrite {:?}", t),
    }
}

fn pw() -> Option<String> {
    Some(PASSWORDS.to_string())
}

#[test]
fn reply_builders() {
    let r = unauthorized();
    assert_eq!(r.status, 401);
    assert_eq!(r.authenticate.as_deref(), Some("Basic realm=\"User Visible Realm\""));
    assert_eq!(r.body, "Unauthorized");
    let r = failure("boom");
    assert_eq!((r.status, r.body.as_str(), r.authenticate.is_none()), (500, "Server error: boom", true));
    let r = success("");
    assert_eq!((r.status, r.body.as_str()), (200, "Ok "));
    let r = not_found();
    assert_eq!((r.status, r.body.as_str()), (404, "Page not found"));
}

#[test]
fn write_replies() {
    assert_eq!(write_reply(WriteOutcome::OpenFailed).body, "Server error: couldn't open file");
    assert_eq!(write_reply(WriteOutcome::WriteFailed).body, "Server error: write failure");
    let ok = write_reply(WriteOutcome::Written);
    assert_eq!((ok.status, ok.body.as_str()), (200, "Ok "));
}

#[test]
fn header_checks() {
    assert!(visible_ascii(b"Basic abc\t~ "));
    assert!(!visible_ascii(b"Basic \x7f"));
    assert!(!visible_ascii("Basic é".as_bytes()));
    assert_eq!(find_basic_token(b"Basic abc"), Some(b"abc".to_vec()));
    assert_eq!(find_basic_token(b"xBasic abc"), Some(b"abc".to_vec()));
    assert_eq!(find_basic_token(b"Basic abBasic cd"), Some(b"ab".to_vec()));
    assert_eq!(find_basic_token(b"Basic Basic cd"), Some(b"".to_vec()));
    assert_eq!(find_basic_token(b"Bearer abc"), None);
    assert_eq!(find_basic_token(b"Basic"), None);
}

#[test]
fn credentials_are_decoded() {
    assert_eq!(request_credentials(&Some(basic("user:pass"))), Some("user:pass".to_string()));
    assert_eq!(request_credentials(&Some(b"Basic !!!".to_vec())), None);
    assert_eq!(request_credentials(&Some(b"Basic /w==".to_vec())), None);
    assert_eq!(request_credentials(&None), None);
    assert!(is_authorized(&Some(basic("admin:secret")), &pw()));
    assert!(!is_authorized(&Some(basic("nobody:x")), &pw()));
    assert!(!is_authorized(&Some(basic("user:pass")), &None));
}

#[test]
fn unauthenticated_requests_are_refused() {
    for uri in ["/", "/whitelist/list", "/whitelist/add?ip=1.2.3.4", "/nowhere"].iter() {
        let r = respond(routes(&get(uri, None), &pw(), &Some(String::new())));
        assert_eq!(r.status, 401);
        let r = respond(routes(&get(uri, Some(basic("nobody:x"))), &pw(), &Some(String::new())));
        assert_eq!(r.status, 401);
        let r = respond(routes(&get(uri, Some(basic("user:pass"))), &None, &None));
        assert_eq!(r.status, 401);
    }
}

#[test]
fn root_list_and_unknown_routes() {
    let auth = Some(basic("user:pass"));
    let wl = Some("1.1.1.1\n".to_string());
    let r = respond(routes(&get("/", auth.clone()), &pw(), &wl));
    assert_eq!((r.status, r.body.as_str()), (200, "Collabdraw api"));
    let r = respond(routes(&get("/whitelist/list", auth.clone()), &pw(), &wl));
    assert_eq!((r.status, r.body.as_str()), (200, "1.1.1.1\n"));
    let r = respond(routes(&get("/whitelist/list", auth.clone()), &pw(), &None));
    assert_eq!((r.status, r.body.as_str()), (500, "Server error: "));
    let r = respond(routes(&get("/elsewhere", auth.clone()), &pw(), &wl));
    assert_eq!(r.status, 404);
    let post = ApiRequest { method: Method::Other, ..get("/", auth.clone()) };
    assert_eq!(respond(routes(&post, &pw(), &wl)).status, 404);
}

#[test]
fn whitelist_add() {
    let auth = Some(basic("user:pass"));
    let wl = Some("1.1.1.1\n".to_string());
    match routes(&get("/whitelist/add?ip=2.2.2.2", auth.clone()), &pw(), &wl) {
        RouteOutcome::Append(t) => assert_eq!(t, "2.2.2.2"),
        _ => panic!("expected append"),
    }
    let r = respond(routes(&get("/whitelist/add?ip=1.1.1.1", auth.clone()), &pw(), &wl));
    assert_eq!(r.body, "Server error: Ip already in whitelist");
    let r = respond(routes(&get("/whitelist/add?addr=1.1.1.1", auth.clone()), &pw(), &wl));
    assert_eq!(r.body, "Server error: Please give ?ip=xx.xx.xx.xx");
    let r = respond(routes(&get("/whitelist/add?ip=1&ip=2", auth.clone()), &pw(), &wl));
    assert_eq!(r.body, "Server error: Please give ?ip=xx.xx.xx.xx");
    let r = respond(routes(&get("/whitelist/add", auth.clone()), &pw(), &wl));
    assert_eq!(r.body, "Server error: Please give ?ip=xx.xx.xx.xx");
    match routes(&get("/whitelist/add?ip=%3A%3A1", auth.clone()), &pw(), &None) {
        RouteOutcome::Append(t) => assert_eq!(t, "::1"),
        _ => panic!("expected append"),
    }
}

#[test]
fn whitelist_remove() {
    let auth = Some(basic("user:pass"));
    let wl = Some("1.1.1.1\n2.2.2.2\n".to_string());
    for route in ["/whitelist/remove", "/whitelist/delete"].iter() {
        match routes(&get(&format!("{}?ip=1.1.1.1", route), auth.clone()), &pw(), &wl) {
            RouteOutcome::Rewrite(t) => assert_eq!(t, "\n2.2.2.2\n"),
            _ => panic!("expected rewrite"),
        }
        let r = respond(routes(&get(&format!("{}?ip=3.3.3.3", route), auth.clone()), &pw(), &wl));
        assert_eq!(r.body, "Server error: Ip not in whitelist");
        let r = respond(routes(&get(&format!("{}?ip=1.1.1.1", route), auth.clone()), &pw(), &None));
        assert_eq!(r.body, "Server error: Ip not in whitelist");
    }
}

#[test]
fn stripping_occurrences() {
    assert_eq!(strip_all("aabb", "ab"), "ab");
    assert_eq!(strip_all("1.1.1.1\n1.1.1.10\n", "1.1.1.1"), "\n0\n");
    assert_eq!(strip_all("xyz", "q"), "xyz");
    assert_eq!(strip_all("xyz", ""), "xyz");
    assert_eq!(strip_all("", "a"), "");
    assert_eq!(strip_all("aaa", "aa"), "a");
    assert_eq!("aabb".replace("ab", ""), strip_all("aabb", "ab"));
}

#[test]
fn text_equality() {
    assert!(same_text("/", "/"));
    assert!(!same_text("/a", "/b"));
    assert!(!same_text("/a", "/ab"));
}
