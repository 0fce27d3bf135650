use engineio_secure::endpoint::{normalize, normalize_url, Endpoint};
use engineio_secure::error::Error;
use engineio_secure::transport::WebsocketSecureTransport;

fn text(e: &Endpoint) -> String {
    e.to_url_string().unwrap()
}

fn marker_count(e: &Endpoint) -> usize {
    e.pieces
        .iter()
        .filter(|p| {
            url::form_urlencoded::parse(p.as_bytes())
                .next()
                .map_or(false, |(k, v)| k == "transport" && v == "websocket")
        })
        .count()
}

#[test]
fn http_url_gets_secure_scheme_and_marker() {
    assert_eq!(
        normalize_url("http://example.com/socket.io/?foo=bar").unwrap(),
        "wss://example.com/socket.io/?foo=bar&transport=websocket"
    );
}

#[test]
fn normalized_url_is_left_as_it_is() {
    assert_eq!(
        normalize_url("wss://example.com/?transport=websocket").unwrap(),
        "wss://example.com/?transport=websocket"
    );
}

#[test]
fn url_without_query_gets_marker_query() {
    assert_eq!(
        normalize_url("https://example.com/engine.io/").unwrap(),
        "wss://example.com/engine.io/?transport=websocket"
    );
}

#[test]
fn ws_scheme_becomes_wss() {
    assert_eq!(
        normalize_url("ws://localhost:4200/socket.io/?EIO=4").unwrap(),
        "wss://localhost:4200/socket.io/?EIO=4&transport=websocket"
    );
}

#[test]
fn default_secure_port_is_dropped() {
    assert_eq!(
        normalize_url("http://example.com:443/").unwrap(),
        "wss://example.com/?transport=websocket"
    );
}

#[test]
fn fragment_is_kept() {
    assert_eq!(
        normalize_url("http://example.com/a?x=1#part").unwrap(),
        "wss://example.com/a?x=1&transport=websocket#part"
    );
}

#[test]
fn marker_elsewhere_in_query_is_not_repeated() {
    assert_eq!(
        normalize_url("https://example.com/?transport=websocket&EIO=4").unwrap(),
        "wss://example.com/?transport=websocket&EIO=4"
    );
}

#[test]
fn other_transport_value_still_gets_marker() {
    assert_eq!(
        normalize_url("https://example.com/?transport=polling").unwrap(),
        "wss://example.com/?transport=polling&transport=websocket"
    );
}

#[test]
fn relative_url_is_malformed() {
    assert_eq!(normalize_url("/socket.io/?foo=bar"), Err(Error::MalformedUrl));
    assert!(matches!(Endpoint::parse("not a url"), Err(Error::MalformedUrl)));
    assert_eq!(normalize_url(""), Err(Error::MalformedUrl));
}

#[test]
fn parse_splits_the_url() {
    let e = Endpoint::parse("http://example.com/socket.io/?foo=bar&a=b%20c#top").unwrap();
    assert_eq!(e.scheme, "http");
    assert_eq!(e.rest, "://example.com/socket.io/");
    assert_eq!(e.pieces, vec!["foo=bar".to_string(), "a=b%20c".to_string()]);
    assert_eq!(e.fragment, Some("top".to_string()));
}

#[test]
fn to_url_string_joins_pieces() {
    let e = Endpoint {
        scheme: "wss".to_string(),
        rest: "://example.com/".to_string(),
        pieces: vec!["a=b%20c".to_string(), "x".to_string()],
        fragment: Some("f".to_string()),
    };
    assert_eq!(text(&e), "wss://example.com/?a=b%20c&x#f");
}

#[test]
fn to_url_string_without_pieces_has_no_query() {
    let e = Endpoint {
        scheme: "https".to_string(),
        rest: "://example.com/x".to_string(),
        pieces: vec![],
        fragment: None,
    };
    assert_eq!(text(&e), "https://example.com/x");
}

#[test]
fn normalize_twice_equals_once() {
    for s in [
        "http://example.com/socket.io/?foo=bar",
        "wss://example.com/?transport=websocket",
        "https://example.com:8443/a/b?x=1&y=2#f",
        "ws://[::1]:3000/",
    ] {
        let once = normalize(Endpoint::parse(s).unwrap());
        let once_text = text(&once);
        let twice = normalize(once.snapshot());
        assert_eq!(text(&twice), once_text);
        assert_eq!(normalize_url(&once_text).unwrap(), once_text);
    }
}

#[test]
fn normalize_sets_wss_for_every_web_scheme() {
    for s in ["http://h/", "https://h/", "ws://h/", "wss://h/"] {
        assert_eq!(normalize(Endpoint::parse(s).unwrap()).scheme, "wss");
    }
}

#[test]
fn normalize_leaves_exactly_one_marker() {
    for s in [
        "http://h/",
        "http://h/?transport=websocket",
        "http://h/?a=1&transport=websocket&b=2",
        "http://h/?transport=websocket&transport=websocket",
    ] {
        assert_eq!(marker_count(&normalize(Endpoint::parse(s).unwrap())), 1);
    }
}

#[test]
fn non_web_scheme_is_refused() {
    assert_eq!(normalize_url("foo://host/"), Err(Error::MalformedUrl));
    assert_eq!(normalize_url("mailto:someone@example.com"), Err(Error::MalformedUrl));
    assert!(!Endpoint::parse("ftp://host/").unwrap().has_web_scheme());
    assert!(Endpoint::parse("ws://host/").unwrap().has_web_scheme());
}

#[test]
fn new_stores_normalized_url() {
    let t = WebsocketSecureTransport::new(7u8, Endpoint::parse("http://example.com/socket.io/?foo=bar").unwrap());
    assert_eq!(*t.inner(), 7u8);
    assert_eq!(text(&t.base_url()), "wss://example.com/socket.io/?foo=bar&transport=websocket");
}

#[test]
fn set_then_get_returns_normalized_form() {
    let mut t = WebsocketSecureTransport::new((), Endpoint::parse("wss://a.example/").unwrap());
    t.set_base_url(Endpoint::parse("http://b.example/path?k=v").unwrap());
    let got = t.base_url();
    assert_eq!(text(&got), "wss://b.example/path?k=v&transport=websocket");
    assert_eq!(text(&t.base_url()), text(&got));
}

#[test]
fn interleaved_setters_leave_one_normalized_url() {
    let mut t = WebsocketSecureTransport::new((), Endpoint::parse("wss://start/").unwrap());
    let a = "wss://a.example/?transport=websocket".to_string();
    let b = "wss://b.example/?x=1&transport=websocket".to_string();
    for n in 0..20 {
        let src = if n % 3 == 0 { "http://a.example/" } else { "https://b.example/?x=1" };
        t.set_base_url(Endpoint::parse(src).unwrap());
        let got = text(&t.base_url());
        assert!(got == a || got == b, "{}", got);
        assert_eq!(got, if n % 3 == 0 { a.clone() } else { b.clone() });
    }
}

#[test]
fn encoded_marker_counts_as_present() {
    assert_eq!(
        normalize_url("http://example.com/?transport=web%73ocket").unwrap(),
        "wss://example.com/?transport=web%73ocket"
    );
}

#[test]
fn repeated_markers_collapse_to_one() {
    let e = normalize(Endpoint::parse("http://h/?transport=websocket&a=1&transport=websocket&transport=websocket").unwrap());
    assert_eq!(marker_count(&e), 1);
    assert_eq!(text(&e), "wss://h/?transport=websocket&a=1");
}

#[test]
fn set_base_url_with_repeated_markers_keeps_one() {
    let mut t = WebsocketSecureTransport::new((), Endpoint::parse("wss://a.example/").unwrap());
    t.set_base_url(Endpoint::parse("https://b.example/?transport=websocket&transport=websocket").unwrap());
    assert_eq!(text(&t.base_url()), "wss://b.example/?transport=websocket");
}

#[test]
fn other_parameters_keep_their_text() {
    assert_eq!(
        normalize_url("http://h/?a=%20b&c~&EIO&d=x+y").unwrap(),
        "wss://h/?a=%20b&c~&EIO&d=x+y&transport=websocket"
    );
}

#[test]
fn empty_query_gets_marker_alone() {
    assert_eq!(normalize_url("http://h/?").unwrap(), "wss://h/?transport=websocket");
    assert_eq!(normalize_url("http://h/?a=1&").unwrap(), "wss://h/?a=1&&transport=websocket");
}
