use quarry::json::{Document, Field};
use quarry::lcu::{
    base64, discover, find_client, judge, list_endpoints, lockfile_location_note, operation,
    parse_lockfile, parse_openapi, plan_request, plan_with, probes, summary_of, LcuConn, LcuResult,
    MethodItem, PathItem,
};
use quarry::lcu_ws::{
    parse_event, read_frame, stream_url, WsAction, WsHandle, WsInput, WsStage, MAX_EVENTS,
    SUBSCRIPTION,
};
use quarry::process::ProcessInfo;

#[test]
fn a_lockfile_is_read() {
    let conn = parse_lockfile("LeagueClient:1234:56789:s3cret:https\n").expect("valid");
    assert_eq!(conn.pid, 1234);
    assert_eq!(conn.port, 56789);
    assert_eq!(conn.token, "s3cret");
    assert_eq!(conn.auth_header(), "Basic cmlvdDpzM2NyZXQ=");
}

#[test]
fn a_bad_lockfile_is_refused() {
    let cases = [
        ("a:1:2:c", "lockfile em formato inesperado."),
        ("", "lockfile em formato inesperado."),
        ("a:x:2:c:d", "pid invalido no lockfile"),
        ("a:1:70000:c:d", "porta invalida no lockfile"),
    ];
    for (content, message) in cases {
        assert_eq!(parse_lockfile(content).expect_err("invalid"), message);
    }
}

#[test]
fn the_client_is_found() {
    let list = vec![
        ProcessInfo { pid: 1, name: "leagueclient.exe".to_string() },
        ProcessInfo { pid: 2, name: "LEAGUECLIENTUX.EXE".to_string() },
    ];
    assert_eq!(find_client(&list), Some(2));
    assert_eq!(find_client(&list[..1].iter().map(|p| ProcessInfo { pid: p.pid, name: p.name.clone() }).collect()), Some(1));
    assert_eq!(find_client(&vec![]), None);
    assert_eq!(
        discover(None, None).expect_err("not running"),
        "Client (LeagueClientUx.exe) nao encontrado em execucao."
    );
    assert_eq!(
        discover(Some(1), None).expect_err("no directory"),
        "Nao consegui obter a pasta do client. Rode o Quarry como Administrador."
    );
    let conn = discover(Some(1), Some("L:1:2:t:https".to_string())).expect("found");
    assert_eq!((conn.pid, conn.port, conn.token.as_str()), (1, 2, "t"));
}

#[test]
fn base_64() {
    assert_eq!(base64(b""), "");
    assert_eq!(base64(b"f"), "Zg==");
    assert_eq!(base64(b"fo"), "Zm8=");
    assert_eq!(base64(b"foo"), "Zm9v");
    assert_eq!(base64(&[0xFB, 0xFF, 0xBF]), "+/+/");
}

#[test]
fn a_catalogue_of_endpoints() {
    let json = r#"{"paths": {
        "/b": {"post": {"description": "first\nsecond"}, "get": {"summary": "all b", "description": "x"}, "parameters": []},
        "/a": {"delete": {"summary": 5}, "put": 7},
        "/c": 3
    }}"#;
    let list = parse_openapi(json).expect("valid");
    let seen: Vec<(&str, &str, &str)> = list
        .iter()
        .map(|e| (e.path.as_str(), e.method.as_str(), e.summary.as_str()))
        .collect();
    assert_eq!(
        seen,
        vec![
            ("/a", "DELETE", ""),
            ("/a", "PUT", ""),
            ("/b", "GET", "all b"),
            ("/b", "POST", "first"),
        ]
    );
    let twice = r#"{"paths": {"/a": {"get": {}}, "/a": {"get": {"summary": "x"}, "get": {"summary": "y"}}}}"#;
    let list = parse_openapi(twice).expect("valid");
    assert_eq!(list.len(), 1);
    assert_eq!(list[0].summary, "y");
    assert_eq!(parse_openapi("{}").expect_err("no paths"), "swagger sem objeto 'paths'");
    let error = parse_openapi("{").expect_err("no json");
    assert!(error.starts_with("JSON invalido do swagger: "), "{error}");
}

#[test]
fn one_operation() {
    let field = |k: &str, s: Option<&str>| Field {
        key: k.to_string(),
        string: s.map(|t| t.to_string()),
        text: "null".to_string(),
    };
    let op = Some(vec![field("description", Some("d")), field("summary", Some("s\r\nt"))]);
    assert_eq!(summary_of(&op), "s");
    assert_eq!(summary_of(&None), "");
    let e = operation("/x", "patch", &op).expect("a method");
    assert_eq!((e.method.as_str(), e.path.as_str(), e.summary.as_str()), ("PATCH", "/x", "s"));
    assert!(operation("/x", "trace", &op).is_none());
    assert!(operation("/x", "GET", &op).is_none());
}

#[test]
fn endpoints_of_paths() {
    let key = |k: &str| MethodItem { key: k.to_string(), op: None };
    let path = |p: &str, methods: Option<Vec<MethodItem>>| PathItem { path: p.to_string(), methods };
    let list = list_endpoints(&vec![
        path("/z", Some(vec![key("put"), key("x-note"), key("get")])),
        path("/y", None),
        path("/a", Some(vec![key("head")])),
    ]);
    let seen: Vec<(&str, &str)> =
        list.iter().map(|e| (e.path.as_str(), e.method.as_str())).collect();
    assert_eq!(seen, vec![("/a", "HEAD"), ("/z", "GET"), ("/z", "PUT")]);
}

#[test]
fn planned_requests() {
    let extra = vec![("Origin".to_string(), "http://evil".to_string())];
    let p = plan_request(2999, Some("Basic x".to_string()), " get ", "a/b", String::new(), &extra)
        .expect("valid");
    assert_eq!(p.method, "GET");
    assert_eq!(p.uri, "https://127.0.0.1:2999/a/b");
    let headers: Vec<(&str, &str)> =
        p.headers.iter().map(|(k, v)| (k.as_str(), v.as_str())).collect();
    assert_eq!(
        headers,
        vec![("Accept", "application/json"), ("Authorization", "Basic x"), ("Origin", "http://evil")]
    );
    let q = plan_request(1, None, "post", "/x", "{}".to_string(), &vec![]).expect("valid");
    assert_eq!(q.uri, "https://127.0.0.1:1/x");
    assert_eq!(q.headers[1].0, "Content-Type");
    assert_eq!(q.body, "{}");
    assert_eq!(
        plan_request(1, None, "G T", "/", String::new(), &vec![]).expect_err("method"),
        "metodo HTTP invalido"
    );
    assert!(plan_request(1, None, "", "/", String::new(), &vec![]).is_err());
    assert!(plan_request(1, None, "straße", "/", String::new(), &vec![]).is_ok());
}

#[test]
fn a_target_that_is_none_is_refused() {
    let none = vec![];
    for path in ["/a b", "x<y", "/a\tb"] {
        let error = plan_request(1, None, "get", path, String::new(), &none).expect_err(path);
        assert_eq!(error, "montar requisicao: invalid uri character", "{path}");
    }
    let error = plan_request(1, None, "G T", "/a b", String::new(), &none).expect_err("method");
    assert_eq!(error, "metodo HTTP invalido");
    let refused = Some("why".to_string());
    let error = plan_with(refused, 1, None, "get", "/", String::new(), &none).expect_err("refused");
    assert_eq!(error, "montar requisicao: why");
    let p = plan_with(None, 7, None, "get", "a", String::new(), &none).expect("valid");
    assert_eq!((p.method.as_str(), p.uri.as_str()), ("GET", "https://127.0.0.1:7/a"));
}

#[test]
fn a_stream_from_its_start_to_its_end() {
    let mut h = WsHandle::new();
    assert_eq!(h.step(WsInput::Connected), WsAction::Subscribe);
    assert_eq!(h.status(), "conectando…");
    assert_eq!(h.step(WsInput::Subscribed), WsAction::Read);
    assert_eq!(h.status(), "conectado — recebendo eventos");
    assert_eq!(h.step(WsInput::Silence), WsAction::Read);
    assert_eq!(h.step(WsInput::Other), WsAction::Read);
    let frame = "[8,\"OnJsonApiEvent\",{\"uri\":\"/a\",\"eventType\":\"Update\"}]";
    assert_eq!(h.step(WsInput::Text(frame.to_string())), WsAction::Read);
    assert_eq!(h.step(WsInput::Text("[]".to_string())), WsAction::Read);
    assert_eq!(h.events.len(), 1);
    assert_eq!(h.events[0].uri, "/a");
    h.stop();
    assert_eq!(h.step(WsInput::Silence), WsAction::Close);
    assert_eq!(h.step(WsInput::Ended), WsAction::Finish);
    assert_eq!(h.status(), "desconectado");
    assert_eq!(SUBSCRIPTION, "[5,\"OnJsonApiEvent\"]");
    assert_eq!(stream_url(8080), "wss://127.0.0.1:8080/");
}

#[test]
fn a_stream_that_fails() {
    let stages = [
        (WsStage::Runtime, "erro: runtime tokio: x"),
        (WsStage::Url, "erro: url invalida: x"),
        (WsStage::Auth, "erro: auth invalido: x"),
        (WsStage::Connection, "erro: conexao WS: x"),
        (WsStage::Subscription, "erro: subscribe: x"),
        (WsStage::Reading, "erro: leitura: x"),
    ];
    for (stage, status) in stages {
        let mut h = WsHandle::new();
        assert_eq!(h.step(WsInput::Failed(stage, "x".to_string())), WsAction::Finish);
        assert_eq!(h.status(), status);
        assert_eq!(h.step(WsInput::Ended), WsAction::Finish);
        assert_eq!(h.status(), status);
    }
}

#[test]
fn a_given_header_replaces_a_default() {
    let extra = vec![
        ("accept".to_string(), "*/*".to_string()),
        ("AUTHORIZATION".to_string(), "none".to_string()),
    ];
    let p = plan_request(1, Some("Basic x".to_string()), "GET", "/", "b".to_string(), &extra)
        .expect("valid");
    let headers: Vec<(&str, &str)> =
        p.headers.iter().map(|(k, v)| (k.as_str(), v.as_str())).collect();
    assert_eq!(
        headers,
        vec![("Content-Type", "application/json"), ("accept", "*/*"), ("AUTHORIZATION", "none")]
    );
}

#[test]
fn a_response_is_taken_over() {
    let headers = vec![
        ("Server".to_string(), Some("x".to_string())),
        ("server".to_string(), Some("y".to_string())),
        ("Bin".to_string(), None),
    ];
    let r = LcuResult::received(200, &headers, &[b'o', 0xFF, b'k']);
    assert_eq!(r.status, 200);
    assert_eq!(r.body, "o\u{FFFD}k");
    assert_eq!(r.header("SERVER"), Some("x"));
    assert_eq!(r.header("bin"), Some(""));
    assert_eq!(r.header("none"), None);
}

#[test]
fn an_audit() {
    let list = probes();
    assert_eq!(list.len(), 5);
    assert_eq!(list[1].1, "/entitlements/v1/token");
    let answer = |status: u16, body: &str| {
        Ok(LcuResult { status, body: body.to_string(), headers: Vec::new() })
    };
    let leak = judge("L", "/p", answer(200, " {\"a\":1} \n"));
    assert!(leak.leaked);
    assert_eq!((leak.status, leak.note.as_str()), (200, "expos 7 bytes de dados"));
    for (status, body) in [(200, "{}"), (200, " [] "), (200, "ab"), (404, "{\"a\":1}"), (300, "abcdef")] {
        let f = judge("L", "/p", answer(status, body));
        assert!(!f.leaked);
        assert_eq!(f.note, "sem conteudo sensivel / nao autorizado");
    }
    let wide = judge("L", "/p", answer(299, "éé"));
    assert_eq!(wide.note, "expos 4 bytes de dados");
    let failed = judge("L", "/p", Err("e".to_string()));
    assert_eq!((failed.status, failed.leaked, failed.note.as_str()), (0, false, "e"));
    assert_eq!(lockfile_location_note(false, None), "Client nao esta em execucao.");
    assert_eq!(
        lockfile_location_note(true, None),
        "Client em execucao, mas a pasta nao foi obtida (rode como Admin)."
    );
    assert_eq!(
        lockfile_location_note(true, Some("C:\\l".to_string())),
        "Token em TEXTO PURO no lockfile: C:\\l — legivel por qualquer processo do usuario."
    );
}

#[test]
fn events() {
    let e = parse_event(r#"[8,"OnJsonApiEvent",{"uri":"/x","eventType":"Update","data":{"b":1,"a":[true,"t"]}}]"#)
        .expect("an event");
    assert_eq!((e.event_type.as_str(), e.uri.as_str()), ("Update", "/x"));
    assert_eq!(e.data, "{\"a\":[true,\"t\"],\"b\":1}");
    let bare = parse_event("[1,2,3]").expect("an event");
    assert_eq!((bare.event_type.as_str(), bare.uri.as_str(), bare.data.as_str()), ("?", "?", ""));
    for text in ["", "{}", "[8,\"x\"]", "nope"] {
        assert!(parse_event(text).is_none(), "{text}");
    }
}

#[test]
fn long_data_is_cut() {
    let frame = |data: &str| Document {
        items: Some(vec![
            None,
            None,
            Some(vec![Field { key: "data".to_string(), string: None, text: data.to_string() }]),
        ]),
        fields: None,
    };
    let exact = "x".repeat(240);
    assert_eq!(read_frame(&frame(&exact)).expect("event").data, exact);
    let long = "x".repeat(241);
    assert_eq!(read_frame(&frame(&long)).expect("event").data, format!("{exact}…"));
    let wide = format!("{}é…", "x".repeat(239));
    assert_eq!(read_frame(&frame(&wide)).expect("event").data, format!("{}…", "x".repeat(239)));
}

#[test]
fn a_stream_of_events() {
    let mut h = WsHandle::new();
    assert_eq!(h.status(), "conectando…");
    for i in 0..MAX_EVENTS + 5 {
        h.receive(&format!("[8,\"e\",{{\"uri\":\"/{i}\"}}]"));
    }
    h.receive("no event");
    assert_eq!(h.events.len(), MAX_EVENTS);
    assert_eq!(h.events[0].uri, "/5");
    assert_eq!(h.events[MAX_EVENTS - 1].uri, format!("/{}", MAX_EVENTS + 4));
    h.set_status("conectado".to_string());
    h.end();
    assert_eq!(h.status(), "desconectado");
    h.set_status("erro: x".to_string());
    h.end();
    assert_eq!(h.status(), "erro: x");
    assert!(!h.stopped);
    h.stop();
    assert!(h.stopped);
}

#[test]
fn a_connection_has_a_header() {
    let c = LcuConn { pid: 1, port: 2, token: "é".to_string() };
    assert_eq!(c.auth_header(), "Basic cmlvdDrDqQ==");
}
