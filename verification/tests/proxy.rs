use quarry::proxy::{
    apply_rules, enter, find_target, prepare, take_over, Decision, Entry, Exchange, FlowRecord,
    InterceptKind, RepeaterResult, Rule, RuleTarget, Shared, Stage, Step, CAP,
};
use quarry::web::{body_preview, filtered_header_lines, fmt_headers, utf8_bytes, Refusal};

fn rule(target: RuleTarget, is_regex: bool, pattern: &str, replacement: &str) -> Rule {
    Rule {
        enabled: true,
        target,
        is_regex,
        pattern: pattern.to_string(),
        replacement: replacement.to_string(),
    }
}

fn headers(list: &[(&str, &str)]) -> Vec<(String, Option<String>)> {
    list.iter().map(|(k, v)| (k.to_string(), Some(v.to_string()))).collect()
}

fn begin(shared: &mut Shared, body: &[u8]) -> (Exchange, Step) {
    Exchange::begin(
        shared,
        "http://h/p".to_string(),
        "POST".to_string(),
        &headers(&[("host", "h"), ("connection", "close"), ("x-a", "1")]),
        body.to_vec(),
    )
}

fn sent(step: Step) -> (String, String, Vec<(String, String)>, Vec<u8>) {
    match step {
        Step::Send { method, url, headers, body } => (method, url, headers, body),
        other => panic!("{other:?}"),
    }
}

fn pairs(list: &[(&str, &str)]) -> Vec<(String, String)> {
    list.iter().map(|(k, v)| (k.to_string(), v.to_string())).collect()
}

#[test]
fn an_exchange_without_interception() {
    let mut shared = Shared::new();
    let (mut x, step) = begin(&mut shared, &[1, 0xFF]);
    let (method, url, h, body) = sent(step);
    assert_eq!((method.as_str(), url.as_str()), ("POST", "http://h/p"));
    assert_eq!(h, pairs(&[("host", "h"), ("x-a", "1")]));
    assert_eq!(body, vec![1, 0xFF]);
    assert_eq!(x.stage, Stage::Sending);
    match x.answer(&mut shared, 201, &headers(&[("a", "b"), ("content-length", "3")]), vec![0xFE, 2]) {
        Step::Reply { status, headers, body } => {
            assert_eq!(status, 201);
            assert_eq!(headers, pairs(&[("a", "b")]));
            assert_eq!(body, vec![0xFE, 2]);
        }
        other => panic!("{other:?}"),
    }
    assert_eq!(x.stage, Stage::Over);
    assert_eq!(shared.flows.len(), 1);
    let f = &shared.flows[0];
    assert_eq!((f.id, f.status, f.req_len, f.resp_len), (1, 201, 2, 2));
    assert_eq!(f.req_headers, "host: h\nconnection: close\nx-a: 1\n");
    assert_eq!(f.req_body, "\u{1}\u{FFFD}");
    assert_eq!(f.resp_body, "\u{FFFD}\u{2}");
}

#[test]
fn rules_change_messages() {
    let mut shared = Shared::new();
    shared.set_rules(vec![
        rule(RuleTarget::RequestHeaders, false, "x-a", "x-b"),
        rule(RuleTarget::RequestBody, true, "(\\d+)", "<$1>"),
        rule(RuleTarget::ResponseBody, false, "old", "new"),
    ]);
    let (mut x, step) = begin(&mut shared, b"a12b");
    let (_, _, h, body) = sent(step);
    assert_eq!(h, pairs(&[("host", "h"), ("x-b", "1")]));
    assert_eq!(body, b"a<12>b".to_vec());
    match x.answer(&mut shared, 200, &vec![], b"so old".to_vec()) {
        Step::Reply { body, .. } => assert_eq!(body, b"so new".to_vec()),
        other => panic!("{other:?}"),
    }
}

#[test]
fn rules_one_by_one() {
    let body = RuleTarget::RequestBody;
    assert_eq!(apply_rules(&vec![rule(body, false, "a", "b")], body, "xax"), Some("xbx".to_string()));
    assert_eq!(apply_rules(&vec![rule(body, false, "a", "a")], body, "xax"), None);
    assert_eq!(apply_rules(&vec![rule(body, true, "a", "a")], body, "xax"), None);
    assert_eq!(apply_rules(&vec![rule(body, true, "(", "b")], body, "x(x"), None);
    assert_eq!(apply_rules(&vec![rule(body, false, "", "b")], body, "xax"), None);
    assert_eq!(apply_rules(&vec![rule(RuleTarget::ResponseBody, false, "a", "b")], body, "xax"), None);
    let mut off = rule(body, false, "a", "b");
    off.enabled = false;
    assert_eq!(apply_rules(&vec![off], body, "xax"), None);
    let two = vec![rule(body, false, "a", "b"), rule(body, true, "b+", "c")];
    assert_eq!(apply_rules(&two, body, "aab"), Some("c".to_string()));
    let undone = vec![rule(body, false, "a", "b"), rule(body, true, "b", "a")];
    assert_eq!(apply_rules(&undone, body, "xax"), None);
    assert_eq!(take_over("s".to_string(), None), "s");
    assert_eq!(take_over("s".to_string(), Some("t".to_string())), "t");
}

#[test]
fn rules_that_change_nothing_keep_the_bytes() {
    let mut shared = Shared::new();
    shared.set_rules(vec![rule(RuleTarget::RequestBody, false, "a", "a")]);
    let (_, step) = begin(&mut shared, b"a\xFFb");
    assert_eq!(sent(step).3, b"a\xFFb".to_vec());
}

#[test]
fn labels_of_targets() {
    let labels: Vec<&str> = RuleTarget::ALL.iter().map(|t| t.label()).collect();
    assert_eq!(
        labels,
        vec!["Headers da requisição", "Body da requisição", "Headers da resposta", "Body da resposta"]
    );
}

#[test]
fn an_intercepted_exchange() {
    let mut shared = Shared::new();
    shared.set_intercept(true);
    assert!(shared.intercept_on());
    let (mut x, step) = begin(&mut shared, &[0xFF]);
    let id = match step {
        Step::Ask(id) => id,
        other => panic!("{other:?}"),
    };
    let view = shared.first_pending().expect("waiting");
    assert_eq!((view.id, view.kind, view.status), (id, InterceptKind::Request, 0));
    assert_eq!(view.body, "\u{FFFD}");
    let decision = shared
        .resolve(
            id,
            Decision::Forward {
                headers: view.headers.clone(),
                body: view.body.clone(),
                intercept_response: true,
            },
        )
        .expect("was waiting");
    assert_eq!(shared.pending_count(), 0);
    // what was not edited keeps its bytes
    let (_, _, _, body) = sent(x.decide(&mut shared, decision));
    assert_eq!(body, vec![0xFF]);
    let id = match x.answer(&mut shared, 404, &headers(&[("a", "b")]), b"body".to_vec()) {
        Step::Ask(id) => id,
        other => panic!("{other:?}"),
    };
    let view = shared.first_pending().expect("waiting");
    assert_eq!((view.kind, view.status), (InterceptKind::Response, 404));
    let decision = shared
        .resolve(
            id,
            Decision::Forward {
                headers: "c: d".to_string(),
                body: "edited".to_string(),
                intercept_response: false,
            },
        )
        .expect("was waiting");
    match x.decide(&mut shared, decision) {
        Step::Reply { status, headers, body } => {
            assert_eq!(status, 404);
            assert_eq!(headers, pairs(&[("c", "d")]));
            assert_eq!(body, b"edited".to_vec());
        }
        other => panic!("{other:?}"),
    }
    assert_eq!(shared.flows[0].resp_body, "edited");
}

#[test]
fn dropped_messages_reach_nobody() {
    let mut shared = Shared::new();
    shared.set_intercept(true);
    let (mut x, _) = begin(&mut shared, b"");
    match x.decide(&mut shared, Decision::Drop) {
        Step::Refuse(r) => {
            assert_eq!(r.status, 403);
            assert_eq!(r.body(), "Quarry proxy: request dropado");
        }
        other => panic!("{other:?}"),
    }
    assert!(shared.flows.is_empty());
    let (mut x, _) = begin(&mut shared, b"");
    let forward = Decision::Forward {
        headers: String::new(),
        body: String::new(),
        intercept_response: true,
    };
    x.decide(&mut shared, forward);
    x.answer(&mut shared, 200, &vec![], vec![]);
    match x.decide(&mut shared, Decision::Drop) {
        Step::Refuse(r) => assert_eq!(r.message, "response dropado"),
        other => panic!("{other:?}"),
    }
    assert!(shared.flows.is_empty());
}

#[test]
fn a_server_that_cannot_be_reached() {
    let mut shared = Shared::new();
    let (mut x, _) = begin(&mut shared, b"q");
    match x.fail(&mut shared, "timeout") {
        Step::Refuse(r) => {
            assert_eq!(r.status, 502);
            assert_eq!(r.message, "upstream falhou: timeout");
        }
        other => panic!("{other:?}"),
    }
    assert_eq!((shared.flows[0].status, shared.flows[0].resp_len), (0, 0));
}

#[test]
fn the_queue_keeps_its_order() {
    let mut shared = Shared::new();
    shared.set_intercept(true);
    let mut ids = Vec::new();
    for _ in 0..3 {
        if let Step::Ask(id) = begin(&mut shared, b"").1 {
            ids.push(id);
        }
    }
    assert!(shared.resolve(999, Decision::Drop).is_none());
    assert!(shared.resolve(ids[1], Decision::Drop).is_some());
    assert_eq!(shared.pending_count(), 2);
    assert_eq!(shared.first_pending().map(|p| p.id), Some(ids[0]));
    shared.resolve(ids[0], Decision::Drop);
    assert_eq!(shared.first_pending().map(|p| p.id), Some(ids[2]));
}

#[test]
fn the_record_has_a_limit() {
    let mut shared = Shared::new();
    for i in 0..(CAP as u64 + 3) {
        shared.record(FlowRecord {
            id: i,
            method: String::new(),
            url: String::new(),
            status: 0,
            req_headers: String::new(),
            req_body: String::new(),
            resp_headers: String::new(),
            resp_body: String::new(),
            req_len: 0,
            resp_len: 0,
        });
    }
    assert_eq!(shared.flows.len(), CAP);
    assert_eq!(shared.flows[0].id, 3);
    assert_eq!(shared.next_id(), 1);
    assert_eq!(shared.next_id(), 2);
    assert!(shared.rules().is_empty());
}

#[test]
fn targets() {
    let some = |s: &str| Some(s.to_string());
    assert_eq!(
        find_target("https", some("h"), some("other"), some("/p?q")).ok(),
        some("https://h/p?q")
    );
    assert_eq!(find_target("http", None, some("h:81"), None).ok(), some("http://h:81/"));
    let r = find_target("http", None, None, some("/")).expect_err("no host");
    assert_eq!((r.status, r.message.as_str()), (400, "sem host"));
    let bad = find_target("http", some("a b"), None, some("/")).expect_err("no uri");
    assert_eq!(bad.status, 502);
    assert_eq!(bad.message, "http://a b/".parse::<http::Uri>().expect_err("no uri").to_string());
}

#[test]
fn the_way_in() {
    assert!(matches!(enter(true, Some("h".to_string())), Entry::Tunnel(h) if h == "h"));
    match enter(true, None) {
        Entry::Refuse(r) => {
            assert_eq!((r.status, r.message.as_str()), (400, "CONNECT sem authority"))
        }
        other => panic!("{other:?}"),
    }
    assert!(matches!(enter(false, Some("h".to_string())), Entry::Plain));
}

#[test]
fn the_repeater() {
    let out = prepare(" PATCH ", " http://h/x ", "a: b\nte: x", "é").expect("valid");
    assert_eq!((out.method.as_str(), out.url.as_str()), ("PATCH", "http://h/x"));
    assert_eq!(out.headers, pairs(&[("a", "b")]));
    assert_eq!(out.body, "é".as_bytes().to_vec());
    let bad = prepare("G T", "http://h/", "", "").expect_err("method");
    assert_eq!((bad.status, bad.headers.as_str()), (0, ""));
    assert!(bad.body.starts_with("erro: "), "{}", bad.body);
    let bad = prepare("GET", "http://a b", "", "").expect_err("url");
    let error = "http://a b".parse::<http::Uri>().expect_err("no uri").to_string();
    assert_eq!(bad.body, format!("erro: {error}"));
    let r = RepeaterResult::answered(200, &headers(&[("a", "b")]), b"x");
    assert_eq!((r.status, r.headers.as_str(), r.body.as_str()), (200, "a: b\n", "x"));
    assert_eq!(RepeaterResult::failed("e").body, "erro: e");
}

#[test]
fn header_lines() {
    let text = "Host: h\r\nno colon\n : empty\nX:  a: b \nContent-Length: 3\nTE: x\nUpgrade: y\nempty:";
    assert_eq!(filtered_header_lines(text), pairs(&[("Host", "h"), ("X", "a: b"), ("empty", "")]));
    let raw = vec![("a".to_string(), Some("b".to_string())), ("c".to_string(), None)];
    assert_eq!(fmt_headers(&raw), "a: b\nc: <binário>\n");
}

#[test]
fn shown_headers_are_read_back() {
    let raw = headers(&[("accept", "*/*"), ("host", "h"), ("x-a", "b: c")]);
    let text = fmt_headers(&raw);
    assert_eq!(text, "accept: */*\nhost: h\nx-a: b: c\n");
    assert_eq!(
        filtered_header_lines(&text),
        pairs(&[("accept", "*/*"), ("host", "h"), ("x-a", "b: c")])
    );
}

#[test]
fn previews() {
    assert_eq!(body_preview(&[b'a', 0xC3]), "a\u{FFFD}");
    let long = vec![b'x'; 8200];
    let p = body_preview(&long);
    assert_eq!(p, format!("{}\n… (+8 bytes)", "x".repeat(8192)));
    assert_eq!(body_preview(&long[..8192]).len(), 8192);
    assert_eq!(utf8_bytes("aé€😀"), "aé€😀".as_bytes().to_vec());
    assert_eq!(Refusal { status: 400, message: "m".to_string() }.body(), "Quarry proxy: m");
}
