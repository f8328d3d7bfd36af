use bing_dict::lookup::{
    advance, request, start, Action, Endpoint, Query, Reply, FALLBACK_AGENT, FALLBACK_BASE, NO_DATA,
    PRIMARY_AGENT, PRIMARY_BASE,
};

fn shown(a: Action) -> String {
    match a {
        Action::Show(t) => t,
        Action::Send(r) => panic!("expected a text, got a request to {}", r.url),
    }
}

fn sent(a: Action) -> bing_dict::lookup::Request {
    match a {
        Action::Send(r) => r,
        Action::Show(t) => panic!("expected a request, got {}", t),
    }
}

#[test]
fn hello_from_snippet() {
    let (q, req) = start("hello").unwrap();
    assert_eq!(req.endpoint, Endpoint::Primary);
    assert_eq!(req.url, format!("{}hello", PRIMARY_BASE));
    assert_eq!(req.user_agent, PRIMARY_AGENT);
    let body = "<span class=\"ht_attr\" lang=\"en-us\">[h ə ˈ l oʊ] </span>\
                <span class=\"ht_pos\">int.</span><span class=\"ht_trs\">你好</span>"
        .to_string();
    let t = shown(advance(&q, Endpoint::Primary, &Reply::Received { status: 200, body }));
    assert_eq!(t, "· [h ə ˈ l oʊ]\n· int. 你好");
}

#[test]
fn both_endpoints_fail_with_500() {
    let (q, _) = start("hello").unwrap();
    let page = "<meta name=\"description\" content=\"ignored\" />".to_string();
    let next = sent(advance(&q, Endpoint::Primary, &Reply::Received { status: 500, body: page.clone() }));
    assert_eq!(next.endpoint, Endpoint::Fallback);
    let t = shown(advance(&q, next.endpoint, &Reply::Received { status: 500, body: page }));
    assert_eq!(t, "No Data");
    assert_eq!(t, NO_DATA);
}

#[test]
fn fallback_after_unparseable_snippet() {
    let (q, _) = start("hello").unwrap();
    let junk = "<html><body>unexpected</body></html>".to_string();
    let next = sent(advance(&q, Endpoint::Primary, &Reply::Received { status: 200, body: junk }));
    assert_eq!(next.endpoint, Endpoint::Fallback);
    assert_eq!(next.url, format!("{}hello", FALLBACK_BASE));
    assert_eq!(next.user_agent, FALLBACK_AGENT);
    let page = "<meta name=\"description\" content=\"必应词典为您提供hello的释义\" />".to_string();
    let t = shown(advance(&q, Endpoint::Fallback, &Reply::Received { status: 200, body: page }));
    assert_eq!(t, "必应词典为您提供hello的释义");
}

#[test]
fn failed_connections_end_in_no_data() {
    let (q, _) = start("word").unwrap();
    let next = sent(advance(&q, Endpoint::Primary, &Reply::Failed));
    assert_eq!(next.endpoint, Endpoint::Fallback);
    assert_eq!(shown(advance(&q, Endpoint::Fallback, &Reply::Failed)), "No Data");
}

#[test]
fn fallback_page_without_description() {
    let q = Query::new("word").unwrap();
    let body = "<html></html>".to_string();
    assert_eq!(
        shown(advance(&q, Endpoint::Fallback, &Reply::Received { status: 200, body })),
        "No Data"
    );
}

#[test]
fn success_range_of_status() {
    let q = Query::new("word").unwrap();
    let body = "<meta name=\"description\" content=\"ok\" />".to_string();
    let r = advance(&q, Endpoint::Fallback, &Reply::Received { status: 299, body: body.clone() });
    assert_eq!(shown(r), "ok");
    let r = advance(&q, Endpoint::Fallback, &Reply::Received { status: 300, body: body.clone() });
    assert_eq!(shown(r), "No Data");
    let r = advance(&q, Endpoint::Fallback, &Reply::Received { status: 199, body });
    assert_eq!(shown(r), "No Data");
}

#[test]
fn empty_or_blank_word_sends_nothing() {
    assert!(start("").is_none());
    assert!(start("   ").is_none());
    assert!(start("\t\n ").is_none());
    assert!(Query::new(" \u{3000} ").is_none());
}

#[test]
fn word_is_trimmed() {
    let q = Query::new("  hello world \n").unwrap();
    assert_eq!(q.as_str(), "hello world");
}

#[test]
fn query_is_percent_encoded() {
    let (_, req) = start(" a b&c ").unwrap();
    assert_eq!(req.url, format!("{}a%20b%26c", PRIMARY_BASE));
    let q = Query::new("你好").unwrap();
    let r = request(&q, Endpoint::Fallback);
    assert_eq!(r.url, format!("{}%E4%BD%A0%E5%A5%BD", FALLBACK_BASE));
}

#[test]
fn empty_description_shows_no_data() {
    let q = Query::new("word").unwrap();
    let body = "<meta name=\"description\" content=\"\" />".to_string();
    let t = shown(advance(&q, Endpoint::Fallback, &Reply::Received { status: 200, body }));
    assert_eq!(t, "No Data");
}

#[test]
fn failed_primary_then_empty_description() {
    let (q, _) = start("word").unwrap();
    let page = "<meta name=\"description\" content=\"\" />".to_string();
    let next = sent(advance(&q, Endpoint::Primary, &Reply::Received { status: 404, body: page.clone() }));
    assert_eq!(next.endpoint, Endpoint::Fallback);
    let t = shown(advance(&q, next.endpoint, &Reply::Received { status: 200, body: page }));
    assert_eq!(t, "No Data");
}
