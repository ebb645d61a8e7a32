//! The client of a game: what is asked of it and what its answers mean.
use crate::json;
use crate::json::{DocumentModel, FieldModel};
use crate::laws::texts;
use crate::lcu;
use crate::lcu::{EndpointModel, MethodModel, PathModel, ResultModel};
use crate::lcu_ws;
use crate::lcu_ws::{InputModel, WsAction, WsModel, WsStage};
use crate::order;
use crate::process;
use crate::process::ProcessModel;
use crate::text;
use crate::web;
use vstd::prelude::*;

verus! {

/// Whether two names are equal but for the case of their ASCII letters.
pub open spec fn same_name(a: Seq<char>, b: Seq<char>) -> bool {
    a.len() == b.len() && forall|i: int|
        0 <= i < a.len() ==> {
            let (x, y) = (#[trigger] a[i] as int, b[i] as int);
            ||| x == y
            ||| 65 <= x <= 90 && y == x + 32
            ||| 65 <= y <= 90 && x == y + 32
        }
}

proof fn lemma_same_name(a: Seq<char>, b: Seq<char>)
    ensures
        text::same_ignoring_case(a, b) <==> same_name(a, b),
{
    let (x, y) = (text::ascii_lowered(a), text::ascii_lowered(b));
    if x == y {
        assert(x.len() == y.len());
        assert forall|i: int| 0 <= i < a.len() implies ({
            let (p, q) = (#[trigger] a[i] as int, b[i] as int);
            ||| p == q
            ||| 65 <= p <= 90 && q == p + 32
            ||| 65 <= q <= 90 && p == q + 32
        }) by {
            assert(x[i] == y[i]);
        }
    }
    if same_name(a, b) {
        assert forall|i: int| 0 <= i < a.len() implies x[i] == y[i] by {
            assert(a[i] == a[i]);
        }
        assert(x =~= y);
    }
}

/// Whether the process `i` is the first of a name, whatever the case of its letters.
pub open spec fn is_first(s: Seq<ProcessModel>, exe: Seq<char>, i: int) -> bool {
    &&& 0 <= i < s.len()
    &&& same_name(s[i].name, exe)
    &&& forall|j: int| 0 <= j < i ==> !same_name((#[trigger] s[j]).name, exe)
}

proof fn lemma_process_index(s: Seq<ProcessModel>, exe: Seq<char>)
    ensures
        match process::process_index(s, exe) {
            Some(i) => is_first(s, exe, i),
            None => forall|j: int| 0 <= j < s.len() ==> !same_name((#[trigger] s[j]).name, exe),
        },
    decreases s.len(),
{
    if s.len() > 0 {
        lemma_same_name(s[0].name, exe);
        if !text::same_ignoring_case(s[0].name, exe) {
            let t = s.skip(1);
            lemma_process_index(t, exe);
            let n = match process::process_index(t, exe) {
                Some(i) => i,
                None => t.len() as int,
            };
            assert forall|j: int| 0 <= j < n + 1 && j < s.len() implies !same_name(
                (#[trigger] s[j]).name,
                exe,
            ) by {
                if j > 0 {
                    assert(t[j - 1] == s[j]);
                }
            }
        }
    }
}

/// The process of the client is found by its name, whatever its case: the first of that
/// name counts.
pub proof fn lemma_process_found(s: Seq<ProcessModel>, exe: Seq<char>)
    ensures
        match process::pid_of(s, exe) {
            Some(pid) => exists|i: int| #[trigger] is_first(s, exe, i) && s[i].pid == pid,
            None => forall|j: int| 0 <= j < s.len() ==> !same_name((#[trigger] s[j]).name, exe),
        },
{
    lemma_process_index(s, exe);
}

/// The window of the client is looked for before the client itself.
pub proof fn lemma_client_found(s: Seq<ProcessModel>)
    ensures
        lcu::client_process(s) == if process::pid_of(s, "LeagueClientUx.exe"@) is Some {
            process::pid_of(s, "LeagueClientUx.exe"@)
        } else {
            process::pid_of(s, "LeagueClient.exe"@)
        },
        lcu::discovered(None, None) is Err,
{
}

/// A request goes to this machine over TLS at the client's port; a path without a slash
/// before it gets one. Its method is in upper case, and its body is sent as it is.
pub proof fn lemma_request_to_client(
    port: u16,
    auth: Option<Seq<char>>,
    method: Seq<char>,
    path: Seq<char>,
    body: Seq<char>,
    extra: Seq<(Seq<char>, Seq<char>)>,
)
    requires
        path.len() == 0 || path[0] != '/',
    ensures
        ({
            let a = lcu::planned(port, auth, method, path, body, extra);
            let b = lcu::planned(port, auth, method, "/"@ + path, body, extra);
            &&& a == b
            &&& a matches Ok(p) ==> {
                &&& p.uri == "https://127.0.0.1:"@ + text::decimal(port as nat) + "/"@ + path
                &&& p.method == text::uppered(text::trimmed(method))
                &&& p.body == body
            }
        }),
{
    reveal_strlit("/");
    assert(("/"@ + path)[0] == '/');
    assert("https://127.0.0.1:"@ + text::decimal(port as nat) + ("/"@ + path)
        =~= "https://127.0.0.1:"@ + text::decimal(port as nat) + "/"@ + path);
}

/// Whether headers hold a name.
pub open spec fn names(h: Seq<(Seq<char>, Seq<char>)>, name: Seq<char>) -> bool {
    exists|i: int| 0 <= i < h.len() && same_name((#[trigger] h[i]).0, name)
}

proof fn lemma_names(h: Seq<(Seq<char>, Seq<char>)>, name: Seq<char>)
    ensures
        lcu::is_given(h, name) <==> names(h, name),
{
    if lcu::is_given(h, name) {
        let i = choose|i: int|
            0 <= i < h.len() && text::same_ignoring_case((#[trigger] h[i]).0, name);
        lemma_same_name(h[i].0, name);
    }
    if names(h, name) {
        let i = choose|i: int| 0 <= i < h.len() && same_name((#[trigger] h[i]).0, name);
        lemma_same_name(h[i].0, name);
    }
}

/// The headers of a request: JSON is accepted, the authorisation is given where there is
/// one, and a body is JSON, each unless the user gives that header; what the user gives
/// comes last, as it is.
pub proof fn lemma_request_headers(
    auth: Option<Seq<char>>,
    body: Seq<char>,
    extra: Seq<(Seq<char>, Seq<char>)>,
)
    ensures
        ({
            let all = lcu::request_headers(auth, body, extra);
            let n = all.len() - extra.len();
            let own = all.take(n);
            &&& n >= 0
            &&& all.skip(n) == extra
            &&& own.contains(("Accept"@, "application/json"@)) <==> !names(extra, "Accept"@)
            &&& forall|a: Seq<char>|
                own.contains(("Authorization"@, a)) <==> auth == Some(a) && !names(
                    extra,
                    "Authorization"@,
                )
            &&& own.contains(("Content-Type"@, "application/json"@)) <==> body.len() > 0 && !names(
                extra,
                "Content-Type"@,
            )
            &&& forall|i: int|
                0 <= i < n ==> {
                    ||| (#[trigger] own[i]).0 == "Accept"@
                    ||| own[i].0 == "Authorization"@
                    ||| own[i].0 == "Content-Type"@
                }
        }),
{
    reveal_strlit("Accept");
    reveal_strlit("Authorization");
    reveal_strlit("Content-Type");
    assert("Accept"@.len() == 6 && "Authorization"@.len() == 13 && "Content-Type"@.len() == 12);
    lemma_names(extra, "Accept"@);
    lemma_names(extra, "Authorization"@);
    lemma_names(extra, "Content-Type"@);
    let no = Seq::<(Seq<char>, Seq<char>)>::empty();
    let x = ("Accept"@, "application/json"@);
    let z = ("Content-Type"@, "application/json"@);
    let s1 = lcu::with_default(no, extra, x.0, x.1);
    lemma_with(no, s1, !names(extra, x.0), x);
    let s2 = match auth {
        Some(a) => lcu::with_default(s1, extra, "Authorization"@, a),
        None => s1,
    };
    if let Some(a) = auth {
        lemma_with(s1, s2, !names(extra, "Authorization"@), ("Authorization"@, a));
    }
    let s3 = if body.len() > 0 {
        lcu::with_default(s2, extra, z.0, z.1)
    } else {
        s2
    };
    lemma_with(s2, s3, body.len() > 0 && !names(extra, z.0), z);
    let all = lcu::request_headers(auth, body, extra);
    assert(all == s3 + extra);
    assert(all.take(s3.len() as int) =~= s3);
    assert(all.skip(s3.len() as int) =~= extra);
    assert forall|i: int| 0 <= i < s3.len() implies ({
        ||| (#[trigger] s3[i]).0 == "Accept"@
        ||| s3[i].0 == "Authorization"@
        ||| s3[i].0 == "Content-Type"@
    }) by {
        assert(s3.contains(s3[i]));
        assert(s2.contains(s3[i]) || s3[i] == z);
    }
}

proof fn lemma_with(
    v: Seq<(Seq<char>, Seq<char>)>,
    w: Seq<(Seq<char>, Seq<char>)>,
    on: bool,
    t: (Seq<char>, Seq<char>),
)
    requires
        w == if on {
            v.push(t)
        } else {
            v
        },
    ensures
        forall|x: (Seq<char>, Seq<char>)| #[trigger]
            w.contains(x) <==> v.contains(x) || (on && x == t),
{
    assert forall|x: (Seq<char>, Seq<char>)| #[trigger] w.contains(x) <==> v.contains(x) || (on && x
        == t) by {
        if on {
            assert(w[v.len() as int] == t);
            if v.contains(x) {
                let i = v.index_of(x);
                assert(w[i] == x);
            }
        }
    }
}

/// An endpoint leaks exactly if it answers with success and more than two bytes that are
/// not an empty object or list; the note says how many. Without an answer the status is
/// zero and the note is the reason.
pub proof fn lemma_leak(
    label: Seq<char>,
    path: Seq<char>,
    r: ResultModel,
    e: Seq<char>,
)
    ensures
        ({
            let f = lcu::found(label, path, Ok(r));
            let body = text::trimmed(r.body);
            let size = vstd::utf8::encode_utf8(body).len();
            &&& f.label == label && f.path == path && f.status == r.status
            &&& f.leaked == (200 <= r.status <= 299 && size >= 3 && body != "{}"@ && body != "[]"@)
            &&& f.leaked ==> f.note == "expos "@ + text::decimal(size) + " bytes de dados"@
        }),
        ({
            let f = lcu::found(label, path, Err(e));
            &&& f.label == label && f.path == path && f.status == 0 && !f.leaked && f.note == e
        }),
{
}

/// The verbs of a description are the seven of HTTP, in upper case.
pub proof fn lemma_verbs(key: Seq<char>)
    ensures
        ({
            let known = key == "get"@ || key == "post"@ || key == "put"@ || key == "patch"@ || key
                == "delete"@ || key == "head"@ || key == "options"@;
            lcu::verb_of(key) == if known {
                Some(text::ascii_uppered(key))
            } else {
                None
            }
        }),
{
    reveal_strlit("get");
    reveal_strlit("post");
    reveal_strlit("put");
    reveal_strlit("patch");
    reveal_strlit("delete");
    reveal_strlit("head");
    reveal_strlit("options");
    reveal_strlit("GET");
    reveal_strlit("POST");
    reveal_strlit("PUT");
    reveal_strlit("PATCH");
    reveal_strlit("DELETE");
    reveal_strlit("HEAD");
    reveal_strlit("OPTIONS");
    assert(text::ascii_uppered("get"@) =~= "GET"@);
    assert(text::ascii_uppered("post"@) =~= "POST"@);
    assert(text::ascii_uppered("put"@) =~= "PUT"@);
    assert(text::ascii_uppered("patch"@) =~= "PATCH"@);
    assert(text::ascii_uppered("delete"@) =~= "DELETE"@);
    assert(text::ascii_uppered("head"@) =~= "HEAD"@);
    assert(text::ascii_uppered("options"@) =~= "OPTIONS"@);
}

proof fn lemma_operations(path: Seq<char>, methods: Seq<MethodModel>, n: int, e: EndpointModel)
    requires
        0 <= n <= methods.len(),
    ensures
        lcu::operations_until(path, methods, n).contains(e) <==> e.path == path && exists|k: int|
            0 <= k < n && lcu::verb_of((#[trigger] methods[k]).key) == Some(e.method) && e.summary
                == lcu::summary_in(methods[k].op),
    decreases n,
{
    if n > 0 {
        lemma_operations(path, methods, n - 1, e);
        let before = lcu::operations_until(path, methods, n - 1);
        let all = lcu::operations_until(path, methods, n);
        if let Some(method) = lcu::verb_of(methods[n - 1].key) {
            let one = EndpointModel { method, path, summary: lcu::summary_in(methods[n - 1].op) };
            assert(all == before.push(one));
            assert(all[before.len() as int] == one);
            if before.contains(e) {
                let i = before.index_of(e);
                assert(all[i] == e);
            }
        }
        if e.path == path && exists|k: int|
            0 <= k < n && lcu::verb_of((#[trigger] methods[k]).key) == Some(e.method) && e.summary
                == lcu::summary_in(methods[k].op) {
            let k = choose|k: int|
                0 <= k < n && lcu::verb_of((#[trigger] methods[k]).key) == Some(e.method)
                    && e.summary == lcu::summary_in(methods[k].op);
            if k < n - 1 {
                assert(lcu::verb_of(methods[k].key) == Some(e.method));
            }
        }
    } else {
        assert(!lcu::operations_until(path, methods, n).contains(e));
    }
}

/// Whether an endpoint is the operation `k` of the path `p`: its path, one of the verbs of
/// that path, and what the operation says of itself.
pub open spec fn is_operation(paths: Seq<PathModel>, p: int, k: int, e: EndpointModel) -> bool {
    &&& paths[p].path == e.path
    &&& paths[p].methods matches Some(m) && 0 <= k < m.len() && lcu::verb_of(m[k].key) == Some(
        e.method,
    ) && e.summary == lcu::summary_in(m[k].op)
}

/// Whether an endpoint is one of the operations of the first paths.
pub open spec fn described(paths: Seq<PathModel>, n: int, e: EndpointModel) -> bool {
    exists|p: int, k: int| 0 <= p < n && #[trigger] is_operation(paths, p, k, e)
}

proof fn lemma_endpoints(paths: Seq<PathModel>, n: int, e: EndpointModel)
    requires
        0 <= n <= paths.len(),
    ensures
        lcu::endpoints_until(paths, n).contains(e) <==> described(paths, n, e),
    decreases n,
{
    if n > 0 {
        lemma_endpoints(paths, n - 1, e);
        let before = lcu::endpoints_until(paths, n - 1);
        let all = lcu::endpoints_until(paths, n);
        if described(paths, n - 1, e) {
            let (p, k) = choose|p: int, k: int|
                0 <= p < n - 1 && #[trigger] is_operation(paths, p, k, e);
            assert(is_operation(paths, p, k, e));
            assert(described(paths, n, e));
        }
        if let Some(m) = paths[n - 1].methods {
            let more = lcu::operations_until(paths[n - 1].path, m, m.len() as int);
            lemma_operations(paths[n - 1].path, m, m.len() as int, e);
            assert(all == before + more);
            if before.contains(e) {
                let i = before.index_of(e);
                assert(all[i] == e);
            }
            if more.contains(e) {
                let i = more.index_of(e);
                assert(all[before.len() + i] == e);
                let k = choose|k: int|
                    0 <= k < m.len() && lcu::verb_of((#[trigger] m[k]).key) == Some(e.method)
                        && e.summary == lcu::summary_in(m[k].op);
                assert(is_operation(paths, n - 1, k, e));
            }
            if all.contains(e) {
                let i = all.index_of(e);
                if i < before.len() {
                    assert(before[i] == e);
                } else {
                    assert(more[i - before.len()] == e);
                }
            }
        }
        if described(paths, n, e) {
            let (p, k) = choose|p: int, k: int|
                0 <= p < n && #[trigger] is_operation(paths, p, k, e);
            if p < n - 1 {
                assert(is_operation(paths, p, k, e));
                assert(described(paths, n - 1, e));
            } else {
                let m = paths[n - 1].methods->0;
                assert(lcu::verb_of(m[k].key) == Some(e.method));
            }
        }
    } else {
        assert(!lcu::endpoints_until(paths, n).contains(e));
    }
}

/// The catalogue of a description holds exactly its operations, each under its verb and
/// path.
pub proof fn lemma_catalogue_complete(paths: Seq<PathModel>, e: EndpointModel)
    ensures
        lcu::endpoints_of(paths).contains(e) <==> described(paths, paths.len() as int, e),
{
    let all = lcu::endpoints_until(paths, paths.len() as int);
    lemma_endpoints(paths, paths.len() as int, e);
    order::lemma_in_order_same(all, lcu::by_path());
    all.to_multiset_ensures();
    lcu::endpoints_of(paths).to_multiset_ensures();
    assert(all.contains(e) <==> all.to_multiset().count(e) > 0);
    assert(lcu::endpoints_of(paths).contains(e) <==> lcu::endpoints_of(paths).to_multiset().count(
        e,
    ) > 0);
}

proof fn lemma_key(f: Seq<FieldModel>, key: Seq<char>, i: int)
    requires
        0 <= i <= f.len(),
        i < f.len() ==> f[i].key == key,
        forall|j: int| 0 <= j < i ==> (#[trigger] f[j]).key != key,
    ensures
        json::key_index(f, key) == if i < f.len() {
            Some(i)
        } else {
            None
        },
    decreases i,
{
    if i > 0 {
        assert(f[0].key != key);
        let t = f.skip(1);
        assert forall|j: int| 0 <= j < i - 1 implies (#[trigger] t[j]).key != key by {
            assert(t[j] == f[j + 1]);
        }
        lemma_key(t, key, i - 1);
    }
}

/// An event is the third item of a frame: its kind, its address and its data are the fields
/// `eventType`, `uri` and `data` there; shorter frames hold none.
pub proof fn lemma_event(
    d: DocumentModel,
    items: Seq<Option<Seq<FieldModel>>>,
    f: Seq<FieldModel>,
    a: int,
    b: int,
    c: int,
)
    requires
        d.items == Some(items),
        items.len() >= 3,
        items[2] == Some(f),
        json::keys_differ(f),
        0 <= a < f.len(),
        0 <= b < f.len(),
        0 <= c < f.len(),
        f[a].key == "eventType"@,
        f[b].key == "uri"@,
        f[c].key == "data"@,
        f[a].string is Some,
        f[b].string is Some,
    ensures
        ({
            let e = lcu_ws::frame_event(d)->0;
            &&& lcu_ws::frame_event(d) is Some
            &&& e.event_type == f[a].string->0
            &&& e.uri == f[b].string->0
            &&& vstd::utf8::encode_utf8(f[c].text).len() <= 240 ==> e.data == f[c].text
        }),
        lcu_ws::frame_event(DocumentModel { items: Some(items.take(2)), ..d }) is None,
        lcu_ws::frame_event(DocumentModel { items: None, ..d }) is None,
{
    lemma_key(f, "eventType"@, a);
    lemma_key(f, "uri"@, b);
    lemma_key(f, "data"@, c);
}

/// The stream of events: connected it subscribes, then it reads until it is stopped, and
/// then it says that it is over; an event is added at the end, and what is no event changes
/// nothing.
pub proof fn lemma_stream(m: WsModel, s: Seq<char>, stage: WsStage, e: Seq<char>)
    requires
        m.events.len() < 1000,
    ensures
        lcu_ws::stepped(m, InputModel::Connected) == (m, WsAction::Subscribe),
        lcu_ws::stepped(m, InputModel::Silence).0 == m,
        lcu_ws::stepped(m, InputModel::Other).0 == m,
        lcu_ws::stepped(m, InputModel::Subscribed).0.events == m.events,
        ({
            let (after, action) = lcu_ws::stepped(m, InputModel::Text(s));
            &&& after.stopped == m.stopped && after.status == m.status
            &&& after.events == match lcu_ws::event_of(s) {
                Some(x) => m.events.push(x),
                None => m.events,
            }
            &&& action == if m.stopped {
                WsAction::Close
            } else {
                WsAction::Read
            }
        }),
        lcu_ws::stepped(m, InputModel::Silence).1 == if m.stopped {
            WsAction::Close
        } else {
            WsAction::Read
        },
        lcu_ws::stepped(m, InputModel::Ended).1 == WsAction::Finish,
        lcu_ws::stepped(m, InputModel::Ended).0.events == m.events,
        lcu_ws::stepped(m, InputModel::Failed(stage, e)).1 == WsAction::Finish,
        lcu_ws::stepped(m, InputModel::Failed(stage, e)).0.events == m.events,
{
}

/// A header of an answer is found by its name, whatever its case; the first counts.
pub proof fn lemma_header_found(h: Seq<(Seq<char>, Seq<char>)>, name: Seq<char>, i: int)
    requires
        0 <= i <= h.len(),
        i < h.len() ==> same_name(h[i].0, name),
        forall|j: int| 0 <= j < i ==> !same_name((#[trigger] h[j]).0, name),
    ensures
        lcu::header_value(h, name) == if i < h.len() {
            Some(h[i].1)
        } else {
            None
        },
    decreases i,
{
    if h.len() > 0 {
        lemma_same_name(h[0].0, name);
    }
    if i > 0 {
        assert(!same_name(h[0].0, name));
        let t = h.skip(1);
        assert forall|j: int| 0 <= j < i - 1 implies !same_name((#[trigger] t[j]).0, name) by {
            assert(t[j] == h[j + 1]);
        }
        lemma_header_found(t, name, i - 1);
    }
}

/// What an operation says of itself is the first line of its summary, or of its description
/// where it has no summary.
pub proof fn lemma_summary(
    f: Seq<FieldModel>,
    a: int,
    b: int,
    line: Seq<char>,
    rest: Seq<char>,
)
    requires
        0 <= a <= f.len(),
        a < f.len() ==> f[a].key == "summary"@,
        forall|j: int| 0 <= j < a ==> (#[trigger] f[j]).key != "summary"@,
        0 <= b <= f.len(),
        b < f.len() ==> f[b].key == "description"@,
        forall|j: int| 0 <= j < b ==> (#[trigger] f[j]).key != "description"@,
        forall|i: int| 0 <= i < line.len() ==> #[trigger] line[i] != '\n' && line[i] != '\r',
    ensures
        a < f.len() && f[a].string == Some(line + seq!['\n'] + rest) ==> lcu::summary_in(Some(f))
            == line,
        a == f.len() && b < f.len() && f[b].string == Some(line + seq!['\n'] + rest)
            ==> lcu::summary_in(Some(f)) == line,
        a == f.len() && b == f.len() ==> lcu::summary_in(Some(f)).len() == 0,
        lcu::summary_in(None).len() == 0,
{
    lemma_key(f, "summary"@, a);
    lemma_key(f, "description"@, b);
    texts::lemma_line_ends(line, rest);
    assert((seq![line] + text::lines_of(rest))[0] == line);
}

/// The requests of an audit: where tokens and personal data are kept.
pub proof fn lemma_probes()
    ensures
        lcu::sensitive().len() == 5,
        lcu::sensitive()[0].1 == "/lol-rso-auth/v1/authorization/access-token"@,
        lcu::sensitive()[1].1 == "/entitlements/v1/token"@,
        lcu::sensitive()[2].1 == "/lol-summoner/v1/current-summoner"@,
        lcu::sensitive()[3].1 == "/lol-login/v1/session"@,
        lcu::sensitive()[4].1 == "/lol-chat/v1/me"@,
{
}

/// The catalogue is ordered by path, and by verb where the paths are equal.
pub proof fn lemma_catalogue_order(paths: Seq<PathModel>, i: int, j: int)
    requires
        lcu::paths_differ(paths),
        0 <= i < j < lcu::endpoints_of(paths).len(),
    ensures
        ({
            let a = lcu::endpoints_of(paths)[i];
            let b = lcu::endpoints_of(paths)[j];
            text::comes_before(a.path, b.path) || (a.path == b.path && text::comes_before(
                a.method,
                b.method,
            ))
        }),
{
    lcu::lemma_endpoints_strict(paths);
    assert(lcu::endpoint_before(lcu::endpoints_of(paths)[i], lcu::endpoints_of(paths)[j]));
}

/// The processes are ordered by their names in lower case, and none is lost.
pub proof fn lemma_process_order(s: Seq<ProcessModel>, i: int, j: int)
    requires
        0 <= i < j < process::in_order(s).len(),
    ensures
        !text::comes_before(
            text::lowered(process::in_order(s)[j].name),
            text::lowered(process::in_order(s)[i].name),
        ),
        process::in_order(s).to_multiset() == s.to_multiset(),
{
    process::lemma_in_order(s);
    assert(!process::listed_before(process::in_order(s)[j], process::in_order(s)[i]));
}

/// A description is read from its object `paths`: each key there is a path, and each key of
/// its value a verb.
pub proof fn lemma_description(
    s: Seq<char>,
    d: DocumentModel,
    f: Seq<FieldModel>,
    i: int,
    inner: DocumentModel,
    p: Seq<FieldModel>,
)
    requires
        json::json_read(s) == Ok::<DocumentModel, Seq<char>>(d),
        d.fields == Some(f),
        0 <= i < f.len(),
        f[i].key == "paths"@,
        forall|j: int| 0 <= j < i ==> (#[trigger] f[j]).key != "paths"@,
        json::json_read(f[i].text) == Ok::<DocumentModel, Seq<char>>(inner),
        inner.fields == Some(p),
    ensures
        lcu::catalogue(s) matches Ok(all) && exists|paths: Seq<PathModel>|
            {
                &&& all == #[trigger] lcu::endpoints_of(paths)
                &&& paths.len() == p.len()
                &&& forall|k: int| 0 <= k < p.len() ==> (#[trigger] paths[k]).path == p[k].key
            },
{
    lemma_key(f, "paths"@, i);
    let paths = p.map_values(|x: FieldModel| lcu::path_in(x));
    assert(lcu::catalogue(s) == Ok::<Seq<EndpointModel>, Seq<char>>(lcu::endpoints_of(paths)));
}

/// The verbs of a path are the keys of its object, each with what its own object says.
pub proof fn lemma_described_path(f: FieldModel, o: DocumentModel, m: Seq<FieldModel>, v: int)
    requires
        json::json_read(f.text) == Ok::<DocumentModel, Seq<char>>(o),
        o.fields == Some(m),
        0 <= v < m.len(),
    ensures
        ({
            let p = lcu::path_in(f);
            &&& p.path == f.key
            &&& p.methods matches Some(all) && all.len() == m.len() && all[v].key == m[v].key
                && all[v].op == lcu::fields_in(m[v].text)
        }),
{
}

/// Where a stream ends, an error is kept, and any other state becomes disconnected.
pub proof fn lemma_stream_end(status: Seq<char>, rest: Seq<char>)
    ensures
        lcu_ws::ended("erro"@ + rest) == "erro"@ + rest,
        status.len() < 4 ==> lcu_ws::ended(status) == "desconectado"@,
        status.len() > 0 && status[0] != 'e' ==> lcu_ws::ended(status) == "desconectado"@,
{
    reveal_strlit("erro");
    assert(("erro"@ + rest).take(4) =~= "erro"@);
    assert("erro"@[0] == 'e');
    assert(status.len() >= 4 ==> status.take(4)[0] == status[0]);
}

/// The connection is known where the client runs and its file could be read; else the
/// reason is said.
pub proof fn lemma_discovered(pid: u32, content: Seq<char>)
    ensures
        lcu::discovered(Some(pid), Some(content)) == lcu::lockfile(content),
        lcu::discovered(None, Some(content)) == Err::<lcu::ConnModel, Seq<char>>(
            "Client (LeagueClientUx.exe) nao encontrado em execucao."@,
        ),
        lcu::discovered(Some(pid), None) == Err::<lcu::ConnModel, Seq<char>>(
            "Nao consegui obter a pasta do client. Rode o Quarry como Administrador."@,
        ),
{
}

/// A request is planned exactly if its method is one and its address is accepted.
pub proof fn lemma_planned(
    refused: Option<Seq<char>>,
    port: u16,
    auth: Option<Seq<char>>,
    method: Seq<char>,
    path: Seq<char>,
    body: Seq<char>,
    extra: Seq<(Seq<char>, Seq<char>)>,
)
    ensures
        ({
            let m = text::uppered(text::trimmed(method));
            let r = lcu::planned_with(refused, port, auth, method, path, body, extra);
            &&& r is Ok <==> web::is_method(m) && refused is None
            &&& r matches Ok(p) ==> p.headers == lcu::request_headers(auth, body, extra)
            &&& web::is_method(m) && refused is Some ==> r == Err::<lcu::PlanModel, Seq<char>>(
                "montar requisicao: "@ + refused->0,
            )
        }),
{
}

/// The state of the stream: connected once it has subscribed, and the stage and the reason
/// where it fails. What an event does not say is a question mark.
pub proof fn lemma_stream_states(m: WsModel, e: Seq<char>)
    ensures
        lcu_ws::stepped(m, InputModel::Subscribed).0.status == "conectado — recebendo eventos"@,
        lcu_ws::stepped(m, InputModel::Failed(WsStage::Connection, e)).0.status
            == "erro: conexao WS: "@ + e,
        lcu_ws::stepped(m, InputModel::Failed(WsStage::Subscription, e)).0.status
            == "erro: subscribe: "@ + e,
        lcu_ws::stepped(m, InputModel::Failed(WsStage::Reading, e)).0.status == "erro: leitura: "@
            + e,
        lcu_ws::event_in(None).event_type == "?"@,
        lcu_ws::event_in(None).uri == "?"@,
        lcu_ws::event_in(None).data.len() == 0,
{
    reveal_strlit("erro: ");
    reveal_strlit(": ");
    reveal_strlit("conexao WS");
    reveal_strlit("subscribe");
    reveal_strlit("leitura");
    reveal_strlit("erro: conexao WS: ");
    reveal_strlit("erro: subscribe: ");
    reveal_strlit("erro: leitura: ");
    assert("erro: "@ + "conexao WS"@ + ": "@ + e =~= "erro: conexao WS: "@ + e);
    assert("erro: "@ + "subscribe"@ + ": "@ + e =~= "erro: subscribe: "@ + e);
    assert("erro: "@ + "leitura"@ + ": "@ + e =~= "erro: leitura: "@ + e);
}

/// The name of a process is the code units before the first zero.
pub proof fn lemma_process_name(u: Seq<u16>, n: int)
    requires
        0 <= n <= u.len(),
        n == u.len() || u[n] == 0,
        forall|j: int| 0 <= j < n ==> #[trigger] u[j] != 0,
    ensures
        process::units_before_zero(u) == u.take(n),
    decreases n,
{
    if n > 0 {
        assert(u[0] != 0);
        let t = u.skip(1);
        assert forall|j: int| 0 <= j < n - 1 implies #[trigger] t[j] != 0 by {
            assert(t[j] == u[j + 1]);
        }
        lemma_process_name(t, n - 1);
        assert(u.take(n) =~= seq![u[0]] + t.take(n - 1));
    } else {
        assert(u.take(0) =~= Seq::<u16>::empty());
    }
}

/// What is said of the token in its file.
pub proof fn lemma_token_note(path: Seq<char>)
    ensures
        lcu::lockfile_note(true, Some(path)) == "Token em TEXTO PURO no lockfile: "@ + path
            + " — legivel por qualquer processo do usuario."@,
        lcu::lockfile_note(false, Some(path)) == "Client nao esta em execucao."@,
        lcu::lockfile_note(true, None)
            == "Client em execucao, mas a pasta nao foi obtida (rode como Admin)."@,
{
}

} // verus!
