//! Traffic through the proxy: what goes out for what came in.
use crate::bytes;
use crate::laws::games;
use crate::laws::texts;
use crate::proxy;
use crate::proxy::{
    DecisionModel,
    ExchangeModel,
    InterceptKind,
    PendingModel,
    RuleModel,
    RuleTarget,
    SharedModel,
    Stage,
    StepModel,
};
use crate::text;
use crate::web;
use vstd::prelude::*;

verus! {

/// Header lines as a user edits them: name, colon, blank and value, each on a line.
pub open spec fn header_text(h: Seq<(Seq<char>, Seq<char>)>) -> Seq<char>
    decreases h.len(),
{
    if h.len() == 0 {
        Seq::empty()
    } else {
        header_text(h.drop_last()) + h.last().0 + ": "@ + h.last().1 + "\n"@
    }
}

/// Whether a header concerns one connection alone, or the length of the body, which is
/// written anew.
pub open spec fn of_one_connection(low: Seq<char>) -> bool {
    ||| low == "connection"@
    ||| low == "proxy-connection"@
    ||| low == "keep-alive"@
    ||| low == "te"@
    ||| low == "trailers"@
    ||| low == "transfer-encoding"@
    ||| low == "upgrade"@
    ||| low == "proxy-authenticate"@
    ||| low == "proxy-authorization"@
    ||| low == "content-length"@
}

/// The headers that are passed on.
pub open spec fn passed(h: Seq<(Seq<char>, Seq<char>)>) -> Seq<(Seq<char>, Seq<char>)> {
    h.filter(|p: (Seq<char>, Seq<char>)| !of_one_connection(text::ascii_lowered(p.0)))
}

/// Whether headers can stand on lines: names without a colon and white space, values on
/// one line.
pub open spec fn on_lines(h: Seq<(Seq<char>, Seq<char>)>) -> bool {
    forall|i: int|
        0 <= i < h.len() ==> {
            let (name, value) = #[trigger] h[i];
            &&& texts::solid(name)
            &&& forall|j: int| 0 <= j < name.len() ==> #[trigger] name[j] != ':'
            &&& forall|j: int| 0 <= j < value.len() ==> #[trigger] value[j] != '\n'
            &&& value.len() > 0 ==> !text::is_space(value[0]) && !text::is_space(value.last())
        }
}

proof fn lemma_header_text(h: Seq<(Seq<char>, Seq<char>)>, n: int)
    requires
        0 <= n <= h.len(),
    ensures
        web::shown_headers(web::as_received(h), n) == header_text(h.take(n)),
        web::kept_headers(h, n) == passed(h.take(n)),
    decreases n,
{
    reveal(Seq::filter);
    if n > 0 {
        lemma_header_text(h, n - 1);
        assert(h.take(n).drop_last() =~= h.take(n - 1));
    }
}

/// The headers of a message are the edited lines, without those of one connection.
pub proof fn lemma_header_lines(h: Seq<(Seq<char>, Seq<char>)>)
    requires
        on_lines(h),
    ensures
        web::sent_headers(header_text(h)) == passed(h),
{
    assert(h.take(h.len() as int) =~= h);
    lemma_header_text(h, h.len() as int);
    assert forall|i: int| 0 <= i < h.len() implies web::is_name((#[trigger] h[i]).0)
        && web::is_value(h[i].1) by {}
    web::lemma_headers_roundtrip(h);
}

/// A waiting request that is forwarded is sent with the edited header lines and with
/// exactly the bytes of the edited text; a text that was left as it was shown leaves the
/// bytes as they were.
pub proof fn lemma_forwarded_request(
    s: SharedModel,
    x: ExchangeModel,
    h: Seq<(Seq<char>, Seq<char>)>,
    shown: Seq<char>,
    ask: bool,
)
    requires
        x.stage == Stage::AskRequest,
        on_lines(h),
    ensures
        ({
            let d = DecisionModel::Forward {
                headers: header_text(h),
                body: shown,
                intercept_response: ask,
            };
            let (after, next, step) = proxy::decided(s, x, d);
            let body = if shown == bytes::utf8_text(x.req_body) {
                x.req_body
            } else {
                vstd::utf8::encode_utf8(shown)
            };
            &&& after == s
            &&& step == StepModel::Send { method: x.method, url: x.url, headers: passed(h), body }
            &&& next.stage == Stage::Sending
            &&& next.req_body == body
            &&& next.req_headers == header_text(h)
            &&& next.intercept_response == ask
            &&& next.method == x.method && next.url == x.url && next.rules == x.rules
        }),
{
    lemma_header_lines(h);
}

/// A waiting response that is forwarded is given to the client with its status, the
/// edited header lines and exactly the bytes of the edited text, and is recorded so.
pub proof fn lemma_forwarded_response(
    s: SharedModel,
    x: ExchangeModel,
    h: Seq<(Seq<char>, Seq<char>)>,
    shown: Seq<char>,
    ask: bool,
)
    requires
        x.stage == Stage::AskResponse,
        on_lines(h),
    ensures
        ({
            let d = DecisionModel::Forward {
                headers: header_text(h),
                body: shown,
                intercept_response: ask,
            };
            let (after, next, step) = proxy::decided(s, x, d);
            let body = if shown == bytes::utf8_text(x.resp_body) {
                x.resp_body
            } else {
                vstd::utf8::encode_utf8(shown)
            };
            &&& step == StepModel::Reply { status: x.status, headers: passed(h), body }
            &&& next.stage == Stage::Over
            &&& next.resp_body == body
            &&& next.resp_headers == header_text(h)
            &&& noted(s, after, x.method, x.url, x.status, x.req_headers, x.req_body, header_text(h), body)
        }),
{
    lemma_header_lines(h);
    lemma_recorded(s, proxy::decided(
        s,
        x,
        DecisionModel::Forward {
            headers: header_text(h),
            body: shown,
            intercept_response: ask,
        },
    ).1);
}

/// Whether an exchange was added to the record, and nothing else was changed: the record
/// keeps the two thousand newest.
pub open spec fn noted(
    s: SharedModel,
    after: SharedModel,
    method: Seq<char>,
    url: Seq<char>,
    status: u16,
    req_headers: Seq<char>,
    req_body: Seq<u8>,
    resp_headers: Seq<char>,
    resp_body: Seq<u8>,
) -> bool {
    let f = after.flows.last();
    &&& after.flows.len() == if s.flows.len() < 2000 {
        s.flows.len() + 1
    } else {
        2000
    }
    &&& forall|i: int|
        0 <= i < after.flows.len() - 1 ==> #[trigger] after.flows[i] == s.flows[i + s.flows.len()
            + 1 - after.flows.len()]
    &&& f.id == s.counter
    &&& f.method == method && f.url == url && f.status == status
    &&& f.req_headers == req_headers && f.resp_headers == resp_headers
    &&& f.req_len == req_body.len() && f.resp_len == resp_body.len()
    &&& req_body.len() <= 8192 ==> f.req_body == bytes::utf8_text(req_body)
    &&& resp_body.len() <= 8192 ==> f.resp_body == bytes::utf8_text(resp_body)
    &&& s.counter < u64::MAX ==> after.counter == s.counter + 1
    &&& after.pending == s.pending && after.rules == s.rules && after.intercept == s.intercept
}

proof fn lemma_recorded(s: SharedModel, x: ExchangeModel)
    ensures
        noted(
            s,
            proxy::recorded(s, x),
            x.method,
            x.url,
            x.status,
            x.req_headers,
            x.req_body,
            x.resp_headers,
            x.resp_body,
        ),
{
    let all = s.flows.push(proxy::flow_of(x, s.counter));
    let kept = proxy::newest(all);
    assert(kept.last() == all.last());
}

/// A message that is dropped is refused with 403, says which it was, and goes nowhere.
pub proof fn lemma_dropped_message(s: SharedModel, x: ExchangeModel)
    ensures
        ({
            let (after, next, step) = proxy::decided(s, x, DecisionModel::Drop);
            &&& after == s
            &&& next.stage == Stage::Over
            &&& step matches StepModel::Refuse(r) && r.status == 403 && r.message == if x.stage
                == Stage::AskRequest {
                "request dropado"@
            } else {
                "response dropado"@
            }
        }),
{
}

/// Whether a message waits at the end of the queue under the next number.
pub open spec fn waits(
    s: SharedModel,
    after: SharedModel,
    step: StepModel,
    kind: InterceptKind,
    method: Seq<char>,
    url: Seq<char>,
    status: u16,
    headers: Seq<char>,
    body: Seq<u8>,
) -> bool {
    let p = after.pending.last();
    &&& step == StepModel::Ask(s.counter)
    &&& after.pending.len() == s.pending.len() + 1
    &&& after.pending.drop_last() == s.pending
    &&& p.id == s.counter && p.kind == kind && p.method == method && p.url == url
    &&& p.status == status && p.headers == headers && p.body == bytes::utf8_text(body)
    &&& s.counter < u64::MAX ==> after.counter == s.counter + 1
    &&& after.flows == s.flows && after.rules == s.rules && after.intercept == s.intercept
}

/// Without rules a request waits exactly while interception is on, as it came, and is sent
/// as it came otherwise; nothing of a response is known yet.
pub proof fn lemma_request_comes(
    s: SharedModel,
    url: Seq<char>,
    method: Seq<char>,
    headers: Seq<char>,
    body: Seq<u8>,
)
    requires
        s.rules.len() == 0,
    ensures
        ({
            let (after, x, step) = proxy::begun(s, url, method, headers, body);
            &&& x.method == method && x.url == url && x.req_headers == headers && x.req_body == body
            &&& x.status == 0 && x.resp_headers.len() == 0 && x.resp_body.len() == 0
            &&& !x.intercept_response
            &&& if s.intercept {
                x.stage == Stage::AskRequest && waits(
                    s,
                    after,
                    step,
                    InterceptKind::Request,
                    method,
                    url,
                    0,
                    headers,
                    body,
                )
            } else {
                after == s && x.stage == Stage::Sending && step == StepModel::Send {
                    method,
                    url,
                    headers: web::sent_headers(headers),
                    body,
                }
            }
        }),
{
    let (after, x, step) = proxy::begun(s, url, method, headers, body);
    assert(after.pending.len() > 0 && s.intercept ==> after.pending.drop_last() =~= s.pending);
}

/// Without rules a response waits exactly if that was asked for when its request was
/// forwarded, and is given to the client as it came otherwise.
pub proof fn lemma_response_comes(
    s: SharedModel,
    x: ExchangeModel,
    status: u16,
    headers: Seq<char>,
    body: Seq<u8>,
)
    requires
        x.rules.len() == 0,
    ensures
        ({
            let (after, next, step) = proxy::answered(s, x, status, headers, body);
            &&& next.status == status && next.resp_headers == headers && next.resp_body == body
            &&& next.req_headers == x.req_headers && next.req_body == x.req_body
            &&& next.method == x.method && next.url == x.url
            &&& if x.intercept_response {
                next.stage == Stage::AskResponse && waits(
                    s,
                    after,
                    step,
                    InterceptKind::Response,
                    x.method,
                    x.url,
                    status,
                    headers,
                    body,
                )
            } else {
                &&& next.stage == Stage::Over
                &&& step == StepModel::Reply { status, headers: web::sent_headers(headers), body }
                &&& noted(s, after, x.method, x.url, status, x.req_headers, x.req_body, headers, body)
            }
        }),
{
    let (after, next, step) = proxy::answered(s, x, status, headers, body);
    lemma_recorded(s, next);
    assert(after.pending.len() > 0 && x.intercept_response ==> after.pending.drop_last()
        =~= s.pending);
}

/// A server that is not reached is answered for with 502 and the reason, and the exchange
/// is recorded.
pub proof fn lemma_server_not_reached(s: SharedModel, x: ExchangeModel, error: Seq<char>)
    ensures
        ({
            let (after, next, step) = proxy::not_reached(s, x, error);
            &&& next.stage == Stage::Over
            &&& step matches StepModel::Refuse(r) && r.status == 502 && r.message
                == "upstream falhou: "@ + error
            &&& noted(
                s,
                after,
                x.method,
                x.url,
                x.status,
                x.req_headers,
                x.req_body,
                x.resp_headers,
                x.resp_body,
            )
        }),
{
    lemma_recorded(s, x);
}

/// One rule that is on replaces its pattern in the part that it is for, and in no other.
pub proof fn lemma_rule_for_its_part(
    s: SharedModel,
    x: ExchangeModel,
    r: RuleModel,
    url: Seq<char>,
    method: Seq<char>,
    status: u16,
    headers: Seq<char>,
    body: Seq<u8>,
)
    requires
        r.enabled,
        !r.is_regex,
        r.pattern.len() > 0,
        s.rules == seq![r],
        x.rules == seq![r],
    ensures
        ({
            let req = proxy::begun(s, url, method, headers, body).1;
            let resp = proxy::answered(s, x, status, headers, body).1;
            let new_headers = text::replaced(headers, r.pattern, r.replacement);
            let old_text = bytes::utf8_text(body);
            let new_text = text::replaced(old_text, r.pattern, r.replacement);
            let new_body = if new_text == old_text {
                body
            } else {
                vstd::utf8::encode_utf8(new_text)
            };
            &&& req.req_headers == if r.target == RuleTarget::RequestHeaders {
                new_headers
            } else {
                headers
            }
            &&& req.req_body == if r.target == RuleTarget::RequestBody {
                new_body
            } else {
                body
            }
            &&& resp.resp_headers == if r.target == RuleTarget::ResponseHeaders {
                new_headers
            } else {
                headers
            }
            &&& resp.resp_body == if r.target == RuleTarget::ResponseBody {
                new_body
            } else {
                body
            }
        }),
{
    reveal_with_fuel(proxy::ruled_by, 3);
}

/// Rules work one after the other, each on what the one before it left.
pub proof fn lemma_rules_in_turn(
    rules: Seq<RuleModel>,
    r: RuleModel,
    target: RuleTarget,
    s: Seq<char>,
)
    ensures
        proxy::ruled_text(rules.push(r), target, s) == proxy::ruled_text(
            seq![r],
            target,
            proxy::ruled_text(rules, target, s),
        ),
{
    reveal_with_fuel(proxy::ruled_by, 3);
    lemma_same_rules(rules, rules.push(r), target, s, rules.len() as int);
}

proof fn lemma_same_rules(
    a: Seq<RuleModel>,
    b: Seq<RuleModel>,
    target: RuleTarget,
    s: Seq<char>,
    n: int,
)
    requires
        0 <= n <= a.len(),
        n <= b.len(),
        forall|i: int| 0 <= i < n ==> a[i] == b[i],
    ensures
        proxy::ruled_by(a, target, s, n) == proxy::ruled_by(b, target, s, n),
    decreases n,
{
    if n > 0 {
        lemma_same_rules(a, b, target, s, n - 1);
    }
}

/// The address of a request: its scheme, its host and its path, the root where it has
/// none; the host line goes before the host in the request, and without either it is
/// refused with 400.
pub proof fn lemma_request_address(
    scheme: Seq<char>,
    host: Option<Seq<char>>,
    authority: Option<Seq<char>>,
    path: Option<Seq<char>>,
)
    ensures
        match proxy::target_of(scheme, host, authority, path) {
            Ok(url) => {
                &&& host is Some || authority is Some
                &&& url == scheme + "://"@ + (if host is Some {
                    host->0
                } else {
                    authority->0
                }) + (if path is Some {
                    path->0
                } else {
                    "/"@
                })
            },
            Err(r) => r.status == if host is None && authority is None {
                400u16
            } else {
                502u16
            },
        },
{
}

/// A long body is shown by its first 8192 bytes and the number of the others.
pub proof fn lemma_long_body(b: Seq<u8>)
    requires
        b.len() > 8192,
    ensures
        web::preview(b) == bytes::utf8_text(b.subrange(0, 8192)) + "\n… (+"@ + text::decimal(
            (b.len() - 8192) as nat,
        ) + " bytes)"@,
{
    assert(b.subrange(0, 8192) =~= b.take(8192));
    assert(web::preview(b) =~= bytes::utf8_text(b.subrange(0, 8192)) + "\n… (+"@ + text::decimal(
        (b.len() - 8192) as nat,
    ) + " bytes)"@);
}

/// Bytes that are valid UTF-8 are shown as the text that they encode.
pub proof fn lemma_valid_text(b: Seq<u8>)
    requires
        vstd::utf8::valid_utf8(b),
    ensures
        bytes::utf8_text(b) == vstd::utf8::decode_utf8(b),
{
}

/// The characters of a method: letters, digits and fifteen signs.
pub proof fn lemma_method_characters(c: char)
    ensures
        web::is_method_char(c) ==> 33 <= c as int <= 126,
        web::is_method_char(c) <==> {
            let n = c as int;
            ||| 48 <= n <= 57
            ||| 65 <= n <= 90
            ||| 94 <= n <= 122
            ||| n == 33 || n == 35 || n == 36 || n == 37 || n == 38 || n == 39 || n == 42 || n == 43
            ||| n == 45 || n == 46 || n == 124 || n == 126
        },
{
}

/// A message that is decided upon leaves the queue, and only it.
pub proof fn lemma_leaves_queue(q: Seq<PendingModel>, id: u64, i: int)
    requires
        0 <= i <= q.len(),
        i < q.len() ==> q[i].id == id,
        forall|j: int| 0 <= j < i ==> (#[trigger] q[j]).id != id,
    ensures
        proxy::pending_index(q, id) == if i < q.len() {
            Some(i)
        } else {
            None
        },
        proxy::without(q, id) == if i < q.len() {
            q.take(i) + q.skip(i + 1)
        } else {
            q
        },
    decreases i,
{
    if i > 0 {
        assert(q[0].id != id);
        let t = q.skip(1);
        assert forall|j: int| 0 <= j < i - 1 implies (#[trigger] t[j]).id != id by {
            assert(t[j] == q[j + 1]);
        }
        lemma_leaves_queue(t, id, i - 1);
    }
    if i < q.len() {
        assert(q.remove(i) =~= q.take(i) + q.skip(i + 1));
    }
}

/// Headers are shown one on a line; a value that is no text is shown as such.
pub proof fn lemma_shown_header(h: Seq<(Seq<char>, Option<Seq<char>>)>, n: int)
    requires
        0 < n <= h.len(),
    ensures
        web::shown_headers(h, n) == web::shown_headers(h, n - 1) + h[n - 1].0 + ": "@ + (
        if h[n - 1].1 is Some {
            h[n - 1].1->0
        } else {
            "<binário>"@
        }) + "\n"@,
        web::shown_headers(h, 0).len() == 0,
{
}

/// A request is repeated with its method and its address as they are, but for outer white
/// space; a method that is none is refused.
pub proof fn lemma_repeated(method: Seq<char>, url: Seq<char>)
    requires
        method.len() > 0,
        forall|i: int| 0 <= i < method.len() ==> 'A' <= #[trigger] method[i] <= 'Z',
        texts::solid(url),
    ensures
        proxy::repeated(method, url) matches Ok(x) ==> x.0 == method && x.1 == url,
        proxy::repeated(method, url) is Ok <==> web::uri_error(url) is None,
        proxy::repeated(Seq::empty(), url) is Err,
{
    assert(method[0] == method[0] && method[method.len() - 1] == method.last());
    texts::lemma_untrimmed(method);
    texts::lemma_untrimmed(url);
    assert(text::trimmed(Seq::<char>::empty()) == Seq::<char>::empty());
}

/// A rule that is a regular expression hands its pattern, the text and its replacement to
/// the engine and takes what comes back; one that the engine refuses changes nothing.
pub proof fn lemma_regular_rule(r: RuleModel, s: Seq<char>)
    requires
        r.enabled,
        r.is_regex,
        r.pattern.len() > 0,
    ensures
        proxy::ruled_text(seq![r], r.target, s) == match proxy::regex_replaced(
            r.pattern,
            s,
            r.replacement,
        ) {
            Some(t) => t,
            None => s,
        },
{
    reveal_with_fuel(proxy::ruled_by, 3);
}

/// A plain rule replaces every place of its pattern, from the left.
pub proof fn lemma_replacing(a: Seq<char>, pat: Seq<char>, rep: Seq<char>, rest: Seq<char>)
    requires
        pat.len() > 0,
        forall|i: int| 0 <= i < a.len() ==> !#[trigger] games::stands_at(a + pat + rest, pat, i),
    ensures
        text::replaced(a + pat + rest, pat, rep) == a + rep + text::replaced(rest, pat, rep),
{
    let s = a + pat + rest;
    let n = a.len() as int;
    games::lemma_position(s, pat);
    assert(games::stands_at(s, pat, n));
    let i = text::position(s, pat)->0;
    if i > n {
        assert(!games::stands_at(s, pat, n));
    }
    assert(s.take(n) =~= a);
    assert(s.skip(n + pat.len()) =~= rest);
}

/// A line without a colon, or without a name before it, is no header.
pub proof fn lemma_no_header(line: Seq<char>, value: Seq<char>)
    requires
        forall|i: int| 0 <= i < line.len() ==> #[trigger] line[i] != ':',
    ensures
        web::header_of(line) is None,
        web::header_of(seq![':'] + value) is None,
{
    texts::lemma_absent(line, ':');
    let s = seq![':'] + value;
    assert(s[0] == ':');
    text::lemma_first_in_is(s, text::Class::Is(':'), 0);
    assert(s.take(0) =~= Seq::<char>::empty());
    texts::lemma_untrimmed(Seq::empty());
}

/// The parts that a rule can be for, by their labels.
pub proof fn lemma_rule_labels()
    ensures
        proxy::label_text(RuleTarget::RequestHeaders) == "Headers da requisição"@,
        proxy::label_text(RuleTarget::RequestBody) == "Body da requisição"@,
        proxy::label_text(RuleTarget::ResponseHeaders) == "Headers da resposta"@,
        proxy::label_text(RuleTarget::ResponseBody) == "Body da resposta"@,
{
}

} // verus!
