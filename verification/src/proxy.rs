//! The decisions of an intercepting HTTP(S) proxy: rules that rewrite messages,
//! messages that wait for the user, the record of what went through, and the
//! course of one exchange from the client's request to the reply.
use crate::bytes;
use crate::text;
use crate::web;
use crate::web::RawHeader;
use crate::web::Refusal;
use vstd::prelude::*;

verus! {

// ---------------------------------------------------------------------------
// Rules
// ---------------------------------------------------------------------------
/// The part of a message that a rule acts on.
#[derive(Clone, Copy, Debug, PartialEq, Eq, Structural)]
pub enum RuleTarget {
    RequestHeaders,
    RequestBody,
    ResponseHeaders,
    ResponseBody,
}

/// The label of a part.
pub open spec fn label_text(t: RuleTarget) -> Seq<char> {
    match t {
        RuleTarget::RequestHeaders => "Headers da requisição"@,
        RuleTarget::RequestBody => "Body da requisição"@,
        RuleTarget::ResponseHeaders => "Headers da resposta"@,
        RuleTarget::ResponseBody => "Body da resposta"@,
    }
}

impl RuleTarget {
    /// All parts, in the order in which a message has them.
    pub const ALL: [RuleTarget; 4] = [
        RuleTarget::RequestHeaders,
        RuleTarget::RequestBody,
        RuleTarget::ResponseHeaders,
        RuleTarget::ResponseBody,
    ];

    /// The label of the part.
    pub fn label(self) -> (r: &'static str)
        ensures
            r@ == label_text(self),
    {
        match self {
            RuleTarget::RequestHeaders => "Headers da requisição",
            RuleTarget::RequestBody => "Body da requisição",
            RuleTarget::ResponseHeaders => "Headers da resposta",
            RuleTarget::ResponseBody => "Body da resposta",
        }
    }
}

/// A rule that is applied to every message.
#[derive(Debug)]
pub struct Rule {
    pub enabled: bool,
    pub target: RuleTarget,
    pub is_regex: bool,
    pub pattern: String,
    pub replacement: String,
}

/// The value of a `Rule`.
#[verifier::ext_equal]
pub struct RuleModel {
    pub enabled: bool,
    pub target: RuleTarget,
    pub is_regex: bool,
    pub pattern: Seq<char>,
    pub replacement: Seq<char>,
}

impl Rule {
    /// The value of the rule.
    pub open spec fn model(self) -> RuleModel {
        RuleModel {
            enabled: self.enabled,
            target: self.target,
            is_regex: self.is_regex,
            pattern: self.pattern@,
            replacement: self.replacement@,
        }
    }

    /// A copy of the rule.
    pub fn copy(&self) -> (r: Rule)
        ensures
            r.model() == self.model(),
    {
        Rule {
            enabled: self.enabled,
            target: self.target,
            is_regex: self.is_regex,
            pattern: self.pattern.clone(),
            replacement: self.replacement.clone(),
        }
    }
}

/// The values of rules.
pub open spec fn rule_models(v: Seq<Rule>) -> Seq<RuleModel> {
    v.map_values(|r: Rule| r.model())
}

/// A text with every match of a regular expression replaced, as the `regex`
/// crate does it; `None` if the expression is not valid.
pub uninterp spec fn regex_replaced(
    pattern: Seq<char>,
    s: Seq<char>,
    replacement: Seq<char>,
) -> Option<Seq<char>>;

/// Calls `regex::Regex::new` and `Regex::replace_all` on what it returns. The
/// contract names the result.
#[verifier::external_body]
fn replace_matches(pattern: &str, s: &str, replacement: &str) -> (r: Option<String>)
    ensures
        text::option_view(r) == regex_replaced(pattern@, s@, replacement@),
{
    match regex::Regex::new(pattern) {
        Ok(re) => Some(re.replace_all(s, replacement).into_owned()),
        Err(_) => None,
    }
}

/// A text after a replacement was tried.
pub open spec fn taken(s: Seq<char>, new: Option<Seq<char>>) -> Seq<char> {
    match new {
        Some(t) => t,
        None => s,
    }
}

/// Takes over what a replacement made of a text, if it made anything.
pub fn take_over(s: String, new: Option<String>) -> (r: String)
    ensures
        r@ == taken(s@, text::option_view(new)),
{
    match new {
        Some(t) => t,
        None => s,
    }
}

/// A text after one rule.
pub open spec fn ruled(r: RuleModel, target: RuleTarget, s: Seq<char>) -> Seq<char> {
    if !r.enabled || r.target != target || r.pattern.len() == 0 {
        s
    } else if r.is_regex {
        taken(s, regex_replaced(r.pattern, s, r.replacement))
    } else {
        text::replaced(s, r.pattern, r.replacement)
    }
}

/// A text after the first `n` rules.
pub open spec fn ruled_by(
    rules: Seq<RuleModel>,
    target: RuleTarget,
    s: Seq<char>,
    n: int,
) -> Seq<char>
    decreases n,
{
    if n <= 0 {
        s
    } else {
        ruled(rules[n - 1], target, ruled_by(rules, target, s, n - 1))
    }
}

/// What the rules make of a text; `None` if that is the text itself.
pub open spec fn applied(rules: Seq<RuleModel>, target: RuleTarget, s: Seq<char>) -> Option<
    Seq<char>,
> {
    let t = ruled_by(rules, target, s, rules.len() as int);
    if t != s {
        Some(t)
    } else {
        None
    }
}

/// Applies one rule.
fn apply_rule(r: &Rule, target: RuleTarget, s: String) -> (res: String)
    ensures
        res@ == ruled(r.model(), target, s@),
{
    let pattern: Vec<char> = text::chars_of(r.pattern.as_str());
    if !r.enabled || r.target != target || pattern.len() == 0 {
        return s;
    }
    if r.is_regex {
        let new: Option<String> = replace_matches(
            r.pattern.as_str(),
            s.as_str(),
            r.replacement.as_str(),
        );
        return take_over(s, new);
    }
    let chars: Vec<char> = text::chars_of(s.as_str());
    let replacement: Vec<char> = text::chars_of(r.replacement.as_str());
    text::string_of(&text::replace(&chars, &pattern, &replacement))
}

/// Applies the rules for a part to its text; `None` if they leave it as it is.
pub fn apply_rules(rules: &Vec<Rule>, target: RuleTarget, s: &str) -> (r: Option<String>)
    ensures
        text::option_view(r) == applied(rule_models(rules@), target, s@),
{
    let ghost all = rule_models(rules@);
    let mut out: String = s.to_owned();
    for i in 0..rules.len()
        invariant
            all == rule_models(rules@),
            out@ == ruled_by(all, target, s@, i as int),
    {
        assert(all[i as int] == rules@[i as int].model());
        out = apply_rule(&rules[i], target, out);
    }
    if text::same_str(out.as_str(), s) {
        None
    } else {
        Some(out)
    }
}

/// Rules that are switched off, aim at another part or have no pattern change
/// nothing.
pub proof fn lemma_idle_rules(rules: Seq<RuleModel>, target: RuleTarget, s: Seq<char>)
    requires
        forall|i: int|
            0 <= i < rules.len() ==> !(#[trigger] rules[i]).enabled || rules[i].target != target
                || rules[i].pattern.len() == 0,
    ensures
        applied(rules, target, s) is None,
{
    lemma_idle_until(rules, target, s, rules.len() as int);
}

proof fn lemma_idle_until(rules: Seq<RuleModel>, target: RuleTarget, s: Seq<char>, n: int)
    requires
        0 <= n <= rules.len(),
        forall|i: int|
            0 <= i < rules.len() ==> !(#[trigger] rules[i]).enabled || rules[i].target != target
                || rules[i].pattern.len() == 0,
    ensures
        ruled_by(rules, target, s, n) == s,
    decreases n,
{
    if n > 0 {
        lemma_idle_until(rules, target, s, n - 1);
    }
}

/// A part that the rules leave as it is goes on with its very bytes, also where
/// they are no text.
pub proof fn lemma_unchanged_body(rules: Seq<RuleModel>, target: RuleTarget, b: Seq<u8>)
    requires
        ruled_by(rules, target, bytes::utf8_text(b), rules.len() as int) == bytes::utf8_text(b),
    ensures
        ruled_body(rules, target, b) == b,
{
}

// ---------------------------------------------------------------------------
// What is shared
// ---------------------------------------------------------------------------
/// A request and its response as they are shown.
#[derive(Debug)]
pub struct FlowRecord {
    pub id: u64,
    pub method: String,
    pub url: String,
    pub status: u16,
    pub req_headers: String,
    pub req_body: String,
    pub resp_headers: String,
    pub resp_body: String,
    pub req_len: usize,
    pub resp_len: usize,
}

/// The value of a `FlowRecord`.
#[verifier::ext_equal]
pub struct FlowModel {
    pub id: u64,
    pub method: Seq<char>,
    pub url: Seq<char>,
    pub status: u16,
    pub req_headers: Seq<char>,
    pub req_body: Seq<char>,
    pub resp_headers: Seq<char>,
    pub resp_body: Seq<char>,
    pub req_len: nat,
    pub resp_len: nat,
}

impl FlowRecord {
    /// The value of the record.
    pub open spec fn model(self) -> FlowModel {
        FlowModel {
            id: self.id,
            method: self.method@,
            url: self.url@,
            status: self.status,
            req_headers: self.req_headers@,
            req_body: self.req_body@,
            resp_headers: self.resp_headers@,
            resp_body: self.resp_body@,
            req_len: self.req_len as nat,
            resp_len: self.resp_len as nat,
        }
    }
}

/// Which message waits.
#[derive(Clone, Copy, Debug, PartialEq, Eq, Structural)]
pub enum InterceptKind {
    Request,
    Response,
}

/// What the user decides about a waiting message.
#[derive(Debug)]
pub enum Decision {
    /// It goes on, perhaps edited. Of a request, the response may wait too.
    Forward { headers: String, body: String, intercept_response: bool },
    Drop,
}

/// The value of a `Decision`.
pub enum DecisionModel {
    Forward { headers: Seq<char>, body: Seq<char>, intercept_response: bool },
    Drop,
}

impl Decision {
    /// The value of the decision.
    pub open spec fn model(self) -> DecisionModel {
        match self {
            Decision::Forward { headers, body, intercept_response } => DecisionModel::Forward {
                headers: headers@,
                body: body@,
                intercept_response,
            },
            Decision::Drop => DecisionModel::Drop,
        }
    }
}

/// A waiting message as it is shown.
#[derive(Debug)]
pub struct PendingView {
    pub id: u64,
    pub kind: InterceptKind,
    pub method: String,
    pub url: String,
    pub status: u16,
    pub headers: String,
    pub body: String,
}

/// The value of a `PendingView`.
#[verifier::ext_equal]
pub struct PendingModel {
    pub id: u64,
    pub kind: InterceptKind,
    pub method: Seq<char>,
    pub url: Seq<char>,
    pub status: u16,
    pub headers: Seq<char>,
    pub body: Seq<char>,
}

impl PendingView {
    /// The value of the message.
    pub open spec fn model(self) -> PendingModel {
        PendingModel {
            id: self.id,
            kind: self.kind,
            method: self.method@,
            url: self.url@,
            status: self.status,
            headers: self.headers@,
            body: self.body@,
        }
    }

    /// A copy of the message.
    pub fn copy(&self) -> (r: PendingView)
        ensures
            r.model() == self.model(),
    {
        PendingView {
            id: self.id,
            kind: self.kind,
            method: self.method.clone(),
            url: self.url.clone(),
            status: self.status,
            headers: self.headers.clone(),
            body: self.body.clone(),
        }
    }
}

/// The values of waiting messages.
pub open spec fn pending_models(v: Seq<PendingView>) -> Seq<PendingModel> {
    v.map_values(|p: PendingView| p.model())
}

/// The values of records.
pub open spec fn flow_models(v: Seq<FlowRecord>) -> Seq<FlowModel> {
    v.map_values(|f: FlowRecord| f.model())
}

/// What the user's side and the proxy share.
#[derive(Debug)]
pub struct Shared {
    pub flows: Vec<FlowRecord>,
    pub intercept: bool,
    pub pending: Vec<PendingView>,
    pub rules: Vec<Rule>,
    pub counter: u64,
}

/// The value of a `Shared`.
#[verifier::ext_equal]
pub struct SharedModel {
    pub flows: Seq<FlowModel>,
    pub intercept: bool,
    pub pending: Seq<PendingModel>,
    pub rules: Seq<RuleModel>,
    pub counter: u64,
}

/// The records that are kept at most.
pub const CAP: usize = 2000;

/// The number behind another one, modulo 2^64.
pub open spec fn following(n: u64) -> u64 {
    if n == u64::MAX {
        0
    } else {
        (n + 1) as u64
    }
}

/// The newest records.
pub open spec fn newest(flows: Seq<FlowModel>) -> Seq<FlowModel> {
    if flows.len() > CAP {
        flows.skip(flows.len() - CAP)
    } else {
        flows
    }
}

/// The index of the first waiting message with a number.
pub open spec fn pending_index(q: Seq<PendingModel>, id: u64) -> Option<int>
    decreases q.len(),
{
    if q.len() == 0 {
        None
    } else if q[0].id == id {
        Some(0)
    } else {
        match pending_index(q.skip(1), id) {
            Some(i) => Some(i + 1),
            None => None,
        }
    }
}

/// The waiting messages without the first one with a number.
pub open spec fn without(q: Seq<PendingModel>, id: u64) -> Seq<PendingModel> {
    match pending_index(q, id) {
        Some(i) => q.remove(i),
        None => q,
    }
}

/// Copies rules.
fn copy_rules(rules: &Vec<Rule>) -> (r: Vec<Rule>)
    ensures
        rule_models(r@) == rule_models(rules@),
{
    let mut out: Vec<Rule> = Vec::new();
    for i in 0..rules.len()
        invariant
            out@.len() == i,
            rule_models(out@) == rule_models(rules@).take(i as int),
    {
        let c: Rule = rules[i].copy();
        let ghost before = out@;
        out.push(c);
        proof {
            assert(rule_models(out@) =~= rule_models(before).push(c.model()));
            assert(rule_models(rules@)[i as int] == c.model());
            assert(rule_models(out@) =~= rule_models(rules@).take(i + 1));
        }
    }
    proof {
        assert(rule_models(rules@).take(rules@.len() as int) =~= rule_models(rules@));
    }
    out
}

impl Shared {
    /// The value of what is shared.
    pub open spec fn model(self) -> SharedModel {
        SharedModel {
            flows: flow_models(self.flows@),
            intercept: self.intercept,
            pending: pending_models(self.pending@),
            rules: rule_models(self.rules@),
            counter: self.counter,
        }
    }

    /// Nothing recorded, nothing waiting, no rules; numbers start at one.
    pub fn new() -> (r: Self)
        ensures
            r.model() == (SharedModel {
                flows: Seq::empty(),
                intercept: false,
                pending: Seq::empty(),
                rules: Seq::empty(),
                counter: 1,
            }),
    {
        let r: Shared = Shared {
            flows: Vec::new(),
            intercept: false,
            pending: Vec::new(),
            rules: Vec::new(),
            counter: 1,
        };
        proof {
            assert(r.model().flows =~= Seq::<FlowModel>::empty());
            assert(r.model().pending =~= Seq::<PendingModel>::empty());
            assert(r.model().rules =~= Seq::<RuleModel>::empty());
        }
        r
    }

    /// Whether messages wait for the user.
    pub fn intercept_on(&self) -> (r: bool)
        ensures
            r == self.model().intercept,
    {
        self.intercept
    }

    /// Lets messages wait for the user or not.
    pub fn set_intercept(&mut self, on: bool)
        ensures
            final(self).model() == (SharedModel { intercept: on, ..old(self).model() }),
    {
        self.intercept = on;
    }

    /// The message that waits longest.
    pub fn first_pending(&self) -> (r: Option<PendingView>)
        ensures
            match r {
                Some(p) => self.model().pending.len() > 0 && p.model() == self.model().pending[0],
                None => self.model().pending.len() == 0,
            },
    {
        if self.pending.len() > 0 {
            Some(self.pending[0].copy())
        } else {
            None
        }
    }

    /// How many messages wait.
    pub fn pending_count(&self) -> (r: usize)
        ensures
            r == self.model().pending.len(),
    {
        self.pending.len()
    }

    /// Takes the message with a number out of the queue and hands back the
    /// decision for it; `None` if no such message waits.
    pub fn resolve(&mut self, id: u64, decision: Decision) -> (r: Option<Decision>)
        ensures
            final(self).model() == (SharedModel {
                pending: without(old(self).model().pending, id),
                ..old(self).model()
            }),
            r == (if pending_index(old(self).model().pending, id) is Some {
                Some(decision)
            } else {
                None
            }),
    {
        let ghost q = self.model().pending;
        let n: usize = self.pending.len();
        let mut i: usize = 0;
        proof {
            assert(q.skip(0) =~= q);
        }
        while i < n
            invariant
                n == self.pending@.len(),
                i <= n,
                q == pending_models(self.pending@),
                *self == *old(self),
                match pending_index(q.skip(i as int), id) {
                    Some(j) => pending_index(q, id) == Some(j + i),
                    None => pending_index(q, id) is None,
                },
            decreases n - i,
        {
            proof {
                assert(q[i as int] == self.pending@[i as int].model());
                assert(q.skip(i as int).skip(1) =~= q.skip(i + 1));
            }
            if self.pending[i].id == id {
                let _ = self.pending.remove(i);
                proof {
                    assert(pending_models(self.pending@) =~= q.remove(i as int));
                }
                return Some(decision);
            }
            i = i + 1;
        }
        None
    }

    /// The rules.
    pub fn rules(&self) -> (r: Vec<Rule>)
        ensures
            rule_models(r@) == self.model().rules,
    {
        copy_rules(&self.rules)
    }

    /// Replaces the rules.
    pub fn set_rules(&mut self, rules: Vec<Rule>)
        ensures
            final(self).model() == (SharedModel {
                rules: rule_models(rules@),
                ..old(self).model()
            }),
    {
        self.rules = rules;
    }

    /// Gives out the next number.
    pub fn next_id(&mut self) -> (r: u64)
        ensures
            r == old(self).model().counter,
            final(self).model() == (SharedModel {
                counter: following(old(self).model().counter),
                ..old(self).model()
            }),
    {
        let id: u64 = self.counter;
        self.counter = id.wrapping_add(1);
        id
    }

    /// Lets a message wait at the end of the queue.
    fn enqueue(&mut self, view: PendingView)
        ensures
            final(self).model() == (SharedModel {
                pending: old(self).model().pending.push(view.model()),
                ..old(self).model()
            }),
    {
        proof {
            assert(pending_models(self.pending@.push(view)) =~= pending_models(self.pending@).push(
                view.model(),
            ));
        }
        self.pending.push(view);
    }

    /// Records an exchange and drops the oldest records beyond the limit.
    pub fn record(&mut self, rec: FlowRecord)
        ensures
            final(self).model() == (SharedModel {
                flows: newest(old(self).model().flows.push(rec.model())),
                ..old(self).model()
            }),
    {
        let ghost all = self.model().flows.push(rec.model());
        proof {
            assert(flow_models(self.flows@.push(rec)) =~= all);
        }
        self.flows.push(rec);
        let ghost mut dropped: int = 0;
        proof {
            assert(all.skip(0) =~= all);
        }
        while self.flows.len() > CAP
            invariant
                0 <= dropped,
                dropped + self.flows@.len() == all.len(),
                flow_models(self.flows@) == all.skip(dropped),
                dropped > 0 ==> self.flows@.len() >= CAP,
                self.intercept == old(self).intercept,
                self.pending == old(self).pending,
                self.rules == old(self).rules,
                self.counter == old(self).counter,
            decreases self.flows@.len(),
        {
            let ghost before = self.flows@;
            let _ = self.flows.remove(0);
            proof {
                assert(flow_models(self.flows@) =~= flow_models(before).skip(1));
                assert(all.skip(dropped).skip(1) =~= all.skip(dropped + 1));
                dropped = dropped + 1;
            }
        }
    }
}

// ---------------------------------------------------------------------------
// One exchange
// ---------------------------------------------------------------------------
/// Where an exchange stands.
#[derive(Clone, Copy, Debug, PartialEq, Eq, Structural)]
pub enum Stage {
    /// The request waits for the user.
    AskRequest,
    /// The request is on its way.
    Sending,
    /// The response waits for the user.
    AskResponse,
    /// The exchange is over.
    Over,
}

/// A request and, once it is there, its response.
#[derive(Debug)]
pub struct Exchange {
    pub rules: Vec<Rule>,
    pub method: String,
    pub url: String,
    pub req_headers: String,
    pub req_body: Vec<u8>,
    pub intercept_response: bool,
    pub status: u16,
    pub resp_headers: String,
    pub resp_body: Vec<u8>,
    pub stage: Stage,
}

/// The value of an `Exchange`.
#[verifier::ext_equal]
pub struct ExchangeModel {
    pub rules: Seq<RuleModel>,
    pub method: Seq<char>,
    pub url: Seq<char>,
    pub req_headers: Seq<char>,
    pub req_body: Seq<u8>,
    pub intercept_response: bool,
    pub status: u16,
    pub resp_headers: Seq<char>,
    pub resp_body: Seq<u8>,
    pub stage: Stage,
}

/// What is to be done next in an exchange.
#[derive(Debug)]
pub enum Step {
    /// Wait for the decision about the message with this number.
    Ask(u64),
    /// Send the request to its server.
    Send { method: String, url: String, headers: Vec<(String, String)>, body: Vec<u8> },
    /// Answer the client with the response.
    Reply { status: u16, headers: Vec<(String, String)>, body: Vec<u8> },
    /// Answer the client with a message of the proxy.
    Refuse(Refusal),
}

/// The value of a `Step`.
pub enum StepModel {
    Ask(u64),
    Send {
        method: Seq<char>,
        url: Seq<char>,
        headers: Seq<(Seq<char>, Seq<char>)>,
        body: Seq<u8>,
    },
    Reply { status: u16, headers: Seq<(Seq<char>, Seq<char>)>, body: Seq<u8> },
    Refuse(web::RefusalModel),
}

impl Step {
    /// The value of the step.
    pub open spec fn model(self) -> StepModel {
        match self {
            Step::Ask(id) => StepModel::Ask(id),
            Step::Send { method, url, headers, body } => StepModel::Send {
                method: method@,
                url: url@,
                headers: web::pairs(headers@),
                body: body@,
            },
            Step::Reply { status, headers, body } => StepModel::Reply {
                status,
                headers: web::pairs(headers@),
                body: body@,
            },
            Step::Refuse(r) => StepModel::Refuse(r.model()),
        }
    }
}

/// The target of a request: the host of the tunnel, else the one that the
/// request names; a refusal without either or if it is no URI.
pub open spec fn target_of(
    scheme: Seq<char>,
    host: Option<Seq<char>>,
    authority: Option<Seq<char>>,
    path: Option<Seq<char>>,
) -> Result<Seq<char>, web::RefusalModel> {
    let named = match host {
        Some(h) => Some(h),
        None => authority,
    };
    match named {
        None => Err(web::RefusalModel { status: 400, message: "sem host"@ }),
        Some(a) => {
            let url = scheme + "://"@ + a + (match path {
                Some(p) => p,
                None => "/"@,
            });
            match web::uri_error(url) {
                Some(e) => Err(web::RefusalModel { status: 502, message: e }),
                None => Ok(url),
            }
        },
    }
}

/// A text after the rules for a part.
pub open spec fn ruled_text(rules: Seq<RuleModel>, target: RuleTarget, s: Seq<char>) -> Seq<char> {
    match applied(rules, target, s) {
        Some(t) => t,
        None => s,
    }
}

/// A body after the rules for a part, which act on its text.
pub open spec fn ruled_body(rules: Seq<RuleModel>, target: RuleTarget, b: Seq<u8>) -> Seq<u8> {
    match applied(rules, target, bytes::utf8_text(b)) {
        Some(t) => vstd::utf8::encode_utf8(t),
        None => b,
    }
}

/// A body after the user saw its text: another one only if the text was
/// edited.
pub open spec fn edited_body(b: Seq<u8>, shown: Seq<char>) -> Seq<u8> {
    if shown != bytes::utf8_text(b) {
        vstd::utf8::encode_utf8(shown)
    } else {
        b
    }
}

/// The record of an exchange.
pub open spec fn flow_of(x: ExchangeModel, id: u64) -> FlowModel {
    FlowModel {
        id,
        method: x.method,
        url: x.url,
        status: x.status,
        req_headers: x.req_headers,
        req_body: web::preview(x.req_body),
        resp_headers: x.resp_headers,
        resp_body: web::preview(x.resp_body),
        req_len: x.req_body.len(),
        resp_len: x.resp_body.len(),
    }
}

/// What is shared after an exchange was recorded.
pub open spec fn recorded(s: SharedModel, x: ExchangeModel) -> SharedModel {
    SharedModel {
        flows: newest(s.flows.push(flow_of(x, s.counter))),
        counter: following(s.counter),
        ..s
    }
}

/// The message of an exchange that waits for the user.
pub open spec fn waiting(x: ExchangeModel, kind: InterceptKind, id: u64) -> PendingModel {
    PendingModel {
        id,
        kind,
        method: x.method,
        url: x.url,
        status: if kind == InterceptKind::Request {
            0
        } else {
            x.status
        },
        headers: if kind == InterceptKind::Request {
            x.req_headers
        } else {
            x.resp_headers
        },
        body: bytes::utf8_text(
            if kind == InterceptKind::Request {
                x.req_body
            } else {
                x.resp_body
            },
        ),
    }
}

/// What is shared after a message began to wait.
pub open spec fn queued(s: SharedModel, x: ExchangeModel, kind: InterceptKind) -> SharedModel {
    SharedModel {
        pending: s.pending.push(waiting(x, kind, s.counter)),
        counter: following(s.counter),
        ..s
    }
}

/// The request of an exchange on its way.
pub open spec fn sending(x: ExchangeModel) -> (ExchangeModel, StepModel) {
    (
        ExchangeModel { stage: Stage::Sending, ..x },
        StepModel::Send {
            method: x.method,
            url: x.url,
            headers: web::sent_headers(x.req_headers),
            body: x.req_body,
        },
    )
}

/// The response of an exchange on its way to the client.
pub open spec fn replying(s: SharedModel, x: ExchangeModel) -> (
    SharedModel,
    ExchangeModel,
    StepModel,
) {
    (
        recorded(s, x),
        ExchangeModel { stage: Stage::Over, ..x },
        StepModel::Reply {
            status: x.status,
            headers: web::sent_headers(x.resp_headers),
            body: x.resp_body,
        },
    )
}

/// A new exchange: the rules act on the request, then it waits for the user or
/// is sent.
pub open spec fn begun(
    s: SharedModel,
    url: Seq<char>,
    method: Seq<char>,
    headers: Seq<char>,
    body: Seq<u8>,
) -> (SharedModel, ExchangeModel, StepModel) {
    let x = ExchangeModel {
        rules: s.rules,
        method,
        url,
        req_headers: ruled_text(s.rules, RuleTarget::RequestHeaders, headers),
        req_body: ruled_body(s.rules, RuleTarget::RequestBody, body),
        intercept_response: false,
        status: 0,
        resp_headers: Seq::empty(),
        resp_body: Seq::empty(),
        stage: Stage::AskRequest,
    };
    if s.intercept {
        (queued(s, x, InterceptKind::Request), x, StepModel::Ask(s.counter))
    } else {
        (s, sending(x).0, sending(x).1)
    }
}

/// An exchange after a decision about the message that waits.
pub open spec fn decided(s: SharedModel, x: ExchangeModel, d: DecisionModel) -> (
    SharedModel,
    ExchangeModel,
    StepModel,
) {
    let request = x.stage == Stage::AskRequest;
    match d {
        DecisionModel::Drop => (
            s,
            ExchangeModel { stage: Stage::Over, ..x },
            StepModel::Refuse(
                web::RefusalModel {
                    status: 403,
                    message: if request {
                        "request dropado"@
                    } else {
                        "response dropado"@
                    },
                },
            ),
        ),
        DecisionModel::Forward { headers, body, intercept_response } => if request {
            let next = ExchangeModel {
                req_headers: headers,
                req_body: edited_body(x.req_body, body),
                intercept_response,
                ..x
            };
            (s, sending(next).0, sending(next).1)
        } else {
            replying(
                s,
                ExchangeModel {
                    resp_headers: headers,
                    resp_body: edited_body(x.resp_body, body),
                    ..x
                },
            )
        },
    }
}

/// An exchange after the server answered: the rules act on the response, then
/// it waits for the user or goes to the client.
pub open spec fn answered(
    s: SharedModel,
    x: ExchangeModel,
    status: u16,
    headers: Seq<char>,
    body: Seq<u8>,
) -> (SharedModel, ExchangeModel, StepModel) {
    let next = ExchangeModel {
        status,
        resp_headers: ruled_text(x.rules, RuleTarget::ResponseHeaders, headers),
        resp_body: ruled_body(x.rules, RuleTarget::ResponseBody, body),
        ..x
    };
    if x.intercept_response {
        (
            queued(s, next, InterceptKind::Response),
            ExchangeModel { stage: Stage::AskResponse, ..next },
            StepModel::Ask(s.counter),
        )
    } else {
        replying(s, next)
    }
}

/// An exchange whose server was not reached.
pub open spec fn not_reached(s: SharedModel, x: ExchangeModel, error: Seq<char>) -> (
    SharedModel,
    ExchangeModel,
    StepModel,
) {
    (
        recorded(s, x),
        ExchangeModel { stage: Stage::Over, ..x },
        StepModel::Refuse(
            web::RefusalModel { status: 502, message: "upstream falhou: "@ + error },
        ),
    )
}

/// Applies the rules for a part to a text.
fn rule_text(rules: &Vec<Rule>, target: RuleTarget, s: String) -> (r: String)
    ensures
        r@ == ruled_text(rule_models(rules@), target, s@),
{
    match apply_rules(rules, target, s.as_str()) {
        Some(t) => t,
        None => s,
    }
}

/// Applies the rules for a part to a body.
fn rule_body(rules: &Vec<Rule>, target: RuleTarget, b: Vec<u8>) -> (r: Vec<u8>)
    ensures
        r@ == ruled_body(rule_models(rules@), target, b@),
{
    let shown: String = bytes::utf8_string(&b);
    match apply_rules(rules, target, shown.as_str()) {
        Some(t) => web::utf8_bytes(t.as_str()),
        None => b,
    }
}

/// Takes over the text that the user saw of a body.
fn edit_body(b: &mut Vec<u8>, shown: &str)
    ensures
        final(b)@ == edited_body(old(b)@, shown@),
{
    let orig: String = bytes::utf8_string(b);
    if !text::same_str(shown, orig.as_str()) {
        *b = web::utf8_bytes(shown);
    }
}

/// Copies bytes.
fn copy_bytes(b: &Vec<u8>) -> (r: Vec<u8>)
    ensures
        r@ == b@,
{
    let mut out: Vec<u8> = Vec::new();
    bytes::push_bytes(&mut out, b);
    proof {
        assert(out@ =~= b@);
    }
    out
}

/// Finds the target of a request.
pub fn find_target(
    scheme: &str,
    host: Option<String>,
    authority: Option<String>,
    path: Option<String>,
) -> (r: Result<String, Refusal>)
    ensures
        match r {
            Ok(u) => target_of(
                scheme@,
                text::option_view(host),
                text::option_view(authority),
                text::option_view(path),
            ) == Ok::<Seq<char>, web::RefusalModel>(u@),
            Err(e) => target_of(
                scheme@,
                text::option_view(host),
                text::option_view(authority),
                text::option_view(path),
            ) == Err::<Seq<char>, web::RefusalModel>(e.model()),
        },
{
    let named: Option<String> = match host {
        Some(h) => Some(h),
        None => authority,
    };
    match named {
        None => Err(Refusal { status: 400, message: "sem host".to_owned() }),
        Some(a) => {
            let mut url: String = scheme.to_owned();
            url.append("://");
            url.append(a.as_str());
            match path {
                Some(p) => {
                    url.append(p.as_str());
                },
                None => {
                    url.append("/");
                },
            }
            match web::refused_uri(url.as_str()) {
                Some(e) => Err(Refusal { status: 502, message: e }),
                None => Ok(url),
            }
        },
    }
}

impl Exchange {
    /// The value of the exchange.
    pub open spec fn model(self) -> ExchangeModel {
        ExchangeModel {
            rules: rule_models(self.rules@),
            method: self.method@,
            url: self.url@,
            req_headers: self.req_headers@,
            req_body: self.req_body@,
            intercept_response: self.intercept_response,
            status: self.status,
            resp_headers: self.resp_headers@,
            resp_body: self.resp_body@,
            stage: self.stage,
        }
    }

    /// Begins the exchange of a request to a target.
    pub fn begin(
        shared: &mut Shared,
        url: String,
        method: String,
        headers: &Vec<RawHeader>,
        body: Vec<u8>,
    ) -> (r: (Exchange, Step))
        ensures
            (final(shared).model(), r.0.model(), r.1.model()) == begun(
                old(shared).model(),
                url@,
                method@,
                web::shown_headers(web::raw_views(headers@), headers@.len() as int),
                body@,
            ),
    {
        let rules: Vec<Rule> = shared.rules();
        let req_headers: String = rule_text(
            &rules,
            RuleTarget::RequestHeaders,
            web::fmt_headers(headers),
        );
        let req_body: Vec<u8> = rule_body(&rules, RuleTarget::RequestBody, body);
        let mut x: Exchange = Exchange {
            rules,
            method,
            url,
            req_headers,
            req_body,
            intercept_response: false,
            status: 0,
            resp_headers: String::new(),
            resp_body: Vec::new(),
            stage: Stage::AskRequest,
        };
        proof {
            assert(x.model().resp_body =~= Seq::<u8>::empty());
            assert(x.model().resp_headers =~= Seq::<char>::empty());
        }
        let step: Step = if shared.intercept_on() {
            x.ask(shared, InterceptKind::Request)
        } else {
            x.send()
        };
        (x, step)
    }

    /// Lets a message wait for the user.
    fn ask(&self, shared: &mut Shared, kind: InterceptKind) -> (r: Step)
        ensures
            final(shared).model() == queued(old(shared).model(), self.model(), kind),
            r.model() == StepModel::Ask(old(shared).model().counter),
    {
        let request: bool = match kind {
            InterceptKind::Request => true,
            InterceptKind::Response => false,
        };
        let id: u64 = shared.next_id();
        let view: PendingView = PendingView {
            id,
            kind,
            method: self.method.clone(),
            url: self.url.clone(),
            status: if request {
                0
            } else {
                self.status
            },
            headers: if request {
                self.req_headers.clone()
            } else {
                self.resp_headers.clone()
            },
            body: if request {
                bytes::utf8_string(&self.req_body)
            } else {
                bytes::utf8_string(&self.resp_body)
            },
        };
        shared.enqueue(view);
        Step::Ask(id)
    }

    /// Sends the request.
    fn send(&mut self) -> (r: Step)
        ensures
            (final(self).model(), r.model()) == sending(old(self).model()),
    {
        self.stage = Stage::Sending;
        Step::Send {
            method: self.method.clone(),
            url: self.url.clone(),
            headers: web::filtered_header_lines(self.req_headers.as_str()),
            body: copy_bytes(&self.req_body),
        }
    }

    /// Records the exchange.
    fn note(&self, shared: &mut Shared)
        ensures
            final(shared).model() == recorded(old(shared).model(), self.model()),
    {
        let id: u64 = shared.next_id();
        let rec: FlowRecord = FlowRecord {
            id,
            method: self.method.clone(),
            url: self.url.clone(),
            status: self.status,
            req_headers: self.req_headers.clone(),
            req_body: web::body_preview(&self.req_body),
            resp_headers: self.resp_headers.clone(),
            resp_body: web::body_preview(&self.resp_body),
            req_len: self.req_body.len(),
            resp_len: self.resp_body.len(),
        };
        proof {
            assert(rec.model() =~= flow_of(self.model(), id));
        }
        shared.record(rec);
    }

    /// Records the exchange and answers the client.
    fn reply(&mut self, shared: &mut Shared) -> (r: Step)
        ensures
            (final(shared).model(), final(self).model(), r.model()) == replying(
                old(shared).model(),
                old(self).model(),
            ),
    {
        self.note(shared);
        self.stage = Stage::Over;
        Step::Reply {
            status: self.status,
            headers: web::filtered_header_lines(self.resp_headers.as_str()),
            body: copy_bytes(&self.resp_body),
        }
    }

    /// Takes in the decision about the message that waits.
    pub fn decide(&mut self, shared: &mut Shared, decision: Decision) -> (r: Step)
        requires
            old(self).stage == Stage::AskRequest || old(self).stage == Stage::AskResponse,
        ensures
            (final(shared).model(), final(self).model(), r.model()) == decided(
                old(shared).model(),
                old(self).model(),
                decision.model(),
            ),
    {
        let request: bool = self.stage == Stage::AskRequest;
        match decision {
            Decision::Drop => {
                self.stage = Stage::Over;
                let message: String = if request {
                    "request dropado".to_owned()
                } else {
                    "response dropado".to_owned()
                };
                Step::Refuse(Refusal { status: 403, message })
            },
            Decision::Forward { headers, body, intercept_response } => if request {
                self.req_headers = headers;
                edit_body(&mut self.req_body, body.as_str());
                self.intercept_response = intercept_response;
                self.send()
            } else {
                self.resp_headers = headers;
                edit_body(&mut self.resp_body, body.as_str());
                self.reply(shared)
            },
        }
    }

    /// Takes in the response of the server.
    pub fn answer(
        &mut self,
        shared: &mut Shared,
        status: u16,
        headers: &Vec<RawHeader>,
        body: Vec<u8>,
    ) -> (r: Step)
        requires
            old(self).stage == Stage::Sending,
        ensures
            (final(shared).model(), final(self).model(), r.model()) == answered(
                old(shared).model(),
                old(self).model(),
                status,
                web::shown_headers(web::raw_views(headers@), headers@.len() as int),
                body@,
            ),
    {
        self.status = status;
        self.resp_headers = rule_text(
            &self.rules,
            RuleTarget::ResponseHeaders,
            web::fmt_headers(headers),
        );
        self.resp_body = rule_body(&self.rules, RuleTarget::ResponseBody, body);
        if self.intercept_response {
            let step: Step = self.ask(shared, InterceptKind::Response);
            self.stage = Stage::AskResponse;
            step
        } else {
            self.reply(shared)
        }
    }

    /// Takes in that the server was not reached.
    pub fn fail(&mut self, shared: &mut Shared, error: &str) -> (r: Step)
        requires
            old(self).stage == Stage::Sending,
        ensures
            (final(shared).model(), final(self).model(), r.model()) == not_reached(
                old(shared).model(),
                old(self).model(),
                error@,
            ),
    {
        self.note(shared);
        self.stage = Stage::Over;
        let mut message: String = "upstream falhou: ".to_owned();
        message.append(error);
        Step::Refuse(Refusal { status: 502, message })
    }
}

/// What a request to the proxy itself leads to.
#[derive(Debug)]
pub enum Entry {
    /// A tunnel to a host, inside which TLS ends here.
    Tunnel(String),
    /// A refusal.
    Refuse(Refusal),
    /// A request in plain HTTP.
    Plain,
}

/// Decides what a request leads to, given whether its method is `CONNECT` and
/// the host that it names.
pub fn enter(connect: bool, host: Option<String>) -> (r: Entry)
    ensures
        match r {
            Entry::Tunnel(h) => connect && text::option_view(host) == Some(h@),
            Entry::Refuse(e) => connect && host is None && e.model() == (web::RefusalModel {
                status: 400,
                message: "CONNECT sem authority"@,
            }),
            Entry::Plain => !connect,
        },
{
    if connect {
        match host {
            Some(h) => Entry::Tunnel(h),
            None => Entry::Refuse(
                Refusal { status: 400, message: "CONNECT sem authority".to_owned() },
            ),
        }
    } else {
        Entry::Plain
    }
}

// ---------------------------------------------------------------------------
// Repeater
// ---------------------------------------------------------------------------
/// The outcome of a single request.
#[derive(Debug)]
pub struct RepeaterResult {
    pub status: u16,
    pub headers: String,
    pub body: String,
}

/// The value of a `RepeaterResult`.
pub struct RepeaterModel {
    pub status: u16,
    pub headers: Seq<char>,
    pub body: Seq<char>,
}

/// Whether a single request has been answered.
#[derive(Debug)]
pub enum RepeaterPoll {
    Pending,
    Done(RepeaterResult),
    Closed,
}

impl RepeaterResult {
    /// The value of the outcome.
    pub open spec fn model(self) -> RepeaterModel {
        RepeaterModel { status: self.status, headers: self.headers@, body: self.body@ }
    }

    /// The outcome of a request that failed.
    pub fn failed(error: &str) -> (r: Self)
        ensures
            r.model() == (RepeaterModel {
                status: 0,
                headers: Seq::empty(),
                body: "erro: "@ + error@,
            }),
    {
        let mut body: String = "erro: ".to_owned();
        body.append(error);
        let headers: String = String::new();
        proof {
            assert(headers@ =~= Seq::<char>::empty());
        }
        RepeaterResult { status: 0, headers, body }
    }

    /// The outcome of a request that was answered.
    pub fn answered(status: u16, headers: &Vec<RawHeader>, body: &[u8]) -> (r: Self)
        ensures
            r.model() == (RepeaterModel {
                status,
                headers: web::shown_headers(web::raw_views(headers@), headers@.len() as int),
                body: web::preview(body@),
            }),
    {
        RepeaterResult {
            status,
            headers: web::fmt_headers(headers),
            body: web::body_preview(body),
        }
    }
}

/// A single request, ready to be sent.
#[derive(Debug)]
pub struct Outgoing {
    pub method: String,
    pub url: String,
    pub headers: Vec<(String, String)>,
    pub body: Vec<u8>,
}

/// The request that the user wrote; a message if its method or its target is
/// none.
pub open spec fn repeated(method: Seq<char>, url: Seq<char>) -> Result<
    (Seq<char>, Seq<char>),
    Seq<char>,
> {
    let m = text::trimmed(method);
    let u = text::trimmed(url);
    if !web::is_method(m) {
        Err("invalid HTTP method"@)
    } else {
        match web::uri_error(u) {
            Some(e) => Err(e),
            None => Ok((m, u)),
        }
    }
}

/// Prepares the request that the user wrote.
pub fn prepare(method: &str, url: &str, headers: &str, body: &str) -> (r: Result<
    Outgoing,
    RepeaterResult,
>)
    ensures
        match r {
            Ok(o) => repeated(method@, url@) == Ok::<(Seq<char>, Seq<char>), Seq<char>>(
                (o.method@, o.url@),
            ) && web::pairs(o.headers@) == web::sent_headers(headers@) && o.body@
                == vstd::utf8::encode_utf8(body@),
            Err(e) => match repeated(method@, url@) {
                Ok(_) => false,
                Err(t) => e.model() == (RepeaterModel {
                    status: 0,
                    headers: Seq::empty(),
                    body: "erro: "@ + t,
                }),
            },
        },
{
    let m: String = text::string_of(text::trim(&text::chars_of(method)));
    let u: String = text::string_of(text::trim(&text::chars_of(url)));
    if !web::accepted_method(m.as_str()) {
        return Err(RepeaterResult::failed("invalid HTTP method"));
    }
    match web::refused_uri(u.as_str()) {
        Some(e) => Err(RepeaterResult::failed(e.as_str())),
        None => Ok(
            Outgoing {
                method: m,
                url: u,
                headers: web::filtered_header_lines(headers),
                body: web::utf8_bytes(body),
            },
        ),
    }
}

// ---------------------------------------------------------------------------
// Laws
// ---------------------------------------------------------------------------
/// Without rules and without interception a request is sent on as it came,
/// but for the headers that are never sent on.
pub proof fn lemma_transparent_request(
    s: SharedModel,
    url: Seq<char>,
    method: Seq<char>,
    headers: Seq<char>,
    body: Seq<u8>,
)
    requires
        s.rules.len() == 0,
        !s.intercept,
    ensures
        begun(s, url, method, headers, body).0 == s,
        begun(s, url, method, headers, body).2 == (StepModel::Send {
            method,
            url,
            headers: web::sent_headers(headers),
            body,
        }),
{
    lemma_idle_rules(s.rules, RuleTarget::RequestHeaders, headers);
    lemma_idle_rules(s.rules, RuleTarget::RequestBody, bytes::utf8_text(body));
}

/// The headers of a request that is sent on as it came are those that were
/// received, in their order, but for those that are never sent on.
pub proof fn lemma_transparent_headers(
    s: SharedModel,
    url: Seq<char>,
    method: Seq<char>,
    headers: Seq<(Seq<char>, Seq<char>)>,
    body: Seq<u8>,
)
    requires
        s.rules.len() == 0,
        !s.intercept,
        forall|i: int|
            0 <= i < headers.len() ==> web::is_name((#[trigger] headers[i]).0) && web::is_value(
                headers[i].1,
            ),
    ensures
        begun(
            s,
            url,
            method,
            web::shown_headers(web::as_received(headers), headers.len() as int),
            body,
        ).2 == (StepModel::Send {
            method,
            url,
            headers: web::kept_headers(headers, headers.len() as int),
            body,
        }),
{
    let shown = web::shown_headers(web::as_received(headers), headers.len() as int);
    lemma_transparent_request(s, url, method, shown, body);
    web::lemma_headers_roundtrip(headers);
}

/// Without rules and without interception a response reaches the client as it
/// came, but for the headers that are never sent on.
pub proof fn lemma_transparent_response(
    s: SharedModel,
    x: ExchangeModel,
    status: u16,
    headers: Seq<char>,
    body: Seq<u8>,
)
    requires
        x.rules.len() == 0,
        !x.intercept_response,
    ensures
        answered(s, x, status, headers, body).2 == (StepModel::Reply {
            status,
            headers: web::sent_headers(headers),
            body,
        }),
{
    lemma_idle_rules(x.rules, RuleTarget::ResponseHeaders, headers);
    lemma_idle_rules(x.rules, RuleTarget::ResponseBody, bytes::utf8_text(body));
}

/// A message that the user forwards as it was shown goes on with its very
/// bytes, also where they are no text.
pub proof fn lemma_unedited_body(b: Seq<u8>)
    ensures
        edited_body(b, bytes::utf8_text(b)) == b,
{
}

/// A dropped message reaches nobody: the client is refused and nothing is
/// recorded.
pub proof fn lemma_dropped(s: SharedModel, x: ExchangeModel)
    ensures
        decided(s, x, DecisionModel::Drop).0 == s,
        decided(s, x, DecisionModel::Drop).1.stage == Stage::Over,
        decided(s, x, DecisionModel::Drop).2 matches StepModel::Refuse(r) && r.status == 403,
{
}

/// The record never grows beyond its limit, and its last entry is the newest.
pub proof fn lemma_record_bounded(s: SharedModel, x: ExchangeModel)
    requires
        s.flows.len() <= CAP,
    ensures
        recorded(s, x).flows.len() <= CAP,
        recorded(s, x).flows.len() > 0,
        recorded(s, x).flows.last() == flow_of(x, s.counter),
{
}

/// Whether the messages that wait have numbers of their own: in the order in
/// which they came, and all of them given out before.
pub open spec fn numbered(s: SharedModel) -> bool {
    &&& forall|i: int, j: int|
        0 <= i < j < s.pending.len() ==> (#[trigger] s.pending[i]).id < (#[trigger] s.pending[j]).id
    &&& forall|i: int| 0 <= i < s.pending.len() ==> (#[trigger] s.pending[i]).id < s.counter
}

/// No two waiting messages have the same number, so that a decision concerns
/// one message only: whatever happens keeps it so, as long as there are numbers.
pub proof fn lemma_numbers(
    s: SharedModel,
    x: ExchangeModel,
    url: Seq<char>,
    method: Seq<char>,
    status: u16,
    headers: Seq<char>,
    body: Seq<u8>,
    d: DecisionModel,
    error: Seq<char>,
    id: u64,
)
    requires
        numbered(s),
        s.counter < u64::MAX,
    ensures
        numbered(begun(s, url, method, headers, body).0),
        numbered(decided(s, x, d).0),
        numbered(answered(s, x, status, headers, body).0),
        numbered(not_reached(s, x, error).0),
        numbered(SharedModel { pending: without(s.pending, id), ..s }),
        pending_index(s.pending, s.counter) is None,
{
    lemma_pending_index(s.pending, id);
    lemma_pending_index(s.pending, s.counter);
    let q = without(s.pending, id);
    assert forall|i: int, j: int| 0 <= i < j < q.len() implies (#[trigger] q[i]).id < (
    #[trigger] q[j]).id by {
        if let Some(k) = pending_index(s.pending, id) {
            let a = if i < k {
                i
            } else {
                i + 1
            };
            let b = if j < k {
                j
            } else {
                j + 1
            };
            assert(q[i] == s.pending[a] && q[j] == s.pending[b]);
        }
    }
    assert forall|i: int| 0 <= i < q.len() implies (#[trigger] q[i]).id < s.counter by {
        if let Some(k) = pending_index(s.pending, id) {
            let a = if i < k {
                i
            } else {
                i + 1
            };
            assert(q[i] == s.pending[a]);
        }
    }
}

/// Deciding about one message leaves the others waiting, in their order: those
/// before it and those behind it.
pub proof fn lemma_queue_order(q: Seq<PendingModel>, id: u64, i: int, j: int)
    requires
        0 <= i < j < q.len(),
        pending_index(q, id) != Some(i),
        pending_index(q, id) != Some(j),
    ensures
        exists|a: int, b: int|
            0 <= a < b < without(q, id).len() && without(q, id)[a] == q[i] && without(q, id)[b]
                == q[j],
{
    lemma_pending_index(q, id);
    match pending_index(q, id) {
        None => {
            assert(without(q, id)[i] == q[i] && without(q, id)[j] == q[j]);
        },
        Some(k) => {
            let a = if i < k {
                i
            } else {
                i - 1
            };
            let b = if j < k {
                j
            } else {
                j - 1
            };
            assert(without(q, id)[a] == q[i] && without(q, id)[b] == q[j]);
        },
    }
}

proof fn lemma_pending_index(q: Seq<PendingModel>, id: u64)
    ensures
        pending_index(q, id) matches Some(k) ==> 0 <= k < q.len() && q[k].id == id,
    decreases q.len(),
{
    if q.len() > 0 && q[0].id != id {
        lemma_pending_index(q.skip(1), id);
    }
}

} // verus!
