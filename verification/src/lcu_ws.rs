//! The stream of events of the local API: frames `[8, "OnJsonApiEvent", {..}]`
//! become events, of which the newest are kept.
use crate::json;
use crate::json::Document;
use crate::json::FieldModel;
use crate::text;
use vstd::prelude::*;

verus! {

/// The events that are kept at most.
pub const MAX_EVENTS: usize = 1000;

/// An event.
#[derive(Debug)]
pub struct WsEvent {
    /// `Create`, `Update` or `Delete`.
    pub event_type: String,
    /// What is concerned.
    pub uri: String,
    /// The start of the data, as compact JSON.
    pub data: String,
}

/// The value of a `WsEvent`.
#[verifier::ext_equal]
pub struct EventModel {
    pub event_type: Seq<char>,
    pub uri: Seq<char>,
    pub data: Seq<char>,
}

impl WsEvent {
    /// The value of the event.
    pub open spec fn model(self) -> EventModel {
        EventModel { event_type: self.event_type@, uri: self.uri@, data: self.data@ }
    }
}

/// The values of events.
pub open spec fn event_models(v: Seq<WsEvent>) -> Seq<EventModel> {
    v.map_values(|e: WsEvent| e.model())
}

/// The string in a field, `?` if there is none.
pub open spec fn string_in(payload: Option<Seq<FieldModel>>, key: Seq<char>) -> Seq<char> {
    match json::field_with(payload, key) {
        Some(f) => match f.string {
            Some(s) => s,
            None => "?"@,
        },
        None => "?"@,
    }
}

/// A text of which at most 240 bytes are shown.
pub open spec fn shortened(s: Seq<char>) -> Seq<char> {
    if vstd::utf8::encode_utf8(s).len() > 240 {
        text::fitting(s, 240) + "…"@
    } else {
        s
    }
}

/// The event of a payload.
pub open spec fn event_in(payload: Option<Seq<FieldModel>>) -> EventModel {
    EventModel {
        event_type: string_in(payload, "eventType"@),
        uri: string_in(payload, "uri"@),
        data: match json::field_with(payload, "data"@) {
            Some(f) => shortened(f.text),
            None => Seq::empty(),
        },
    }
}

/// The event of a frame; `None` if it is no list of three items.
pub open spec fn frame_event(d: json::DocumentModel) -> Option<EventModel> {
    match d.items {
        None => None,
        Some(items) => if items.len() < 3 {
            None
        } else {
            Some(event_in(items[2]))
        },
    }
}

/// The event of a text; `None` if it is no JSON or no frame.
pub open spec fn event_of(s: Seq<char>) -> Option<EventModel> {
    match json::json_read(s) {
        Ok(d) => frame_event(d),
        Err(_) => None,
    }
}

/// The value of an optional event.
pub open spec fn event_view(e: Option<WsEvent>) -> Option<EventModel> {
    match e {
        Some(x) => Some(x.model()),
        None => None,
    }
}

/// Takes the string in a field.
fn take_string(payload: &Option<Vec<json::Field>>, key: &str) -> (r: String)
    ensures
        r@ == string_in(json::fields_view(*payload), key@),
{
    match json::get(payload, key) {
        Some(f) => match &f.string {
            Some(s) => s.clone(),
            None => "?".to_owned(),
        },
        None => "?".to_owned(),
    }
}

/// Shortens a text.
fn shorten(s: &str) -> (r: String)
    ensures
        r@ == shortened(s@),
{
    if s.as_bytes().len() > 240 {
        let mut r: String = text::string_of(text::fit(&text::chars_of(s), 240));
        r.append("…");
        r
    } else {
        s.to_owned()
    }
}

/// Reads the event of a frame.
pub fn read_frame(d: &Document) -> (r: Option<WsEvent>)
    ensures
        event_view(r) == frame_event(d.model()),
{
    match &d.items {
        None => None,
        Some(items) => {
            let ghost all = d.model().items->0;
            assert(all.len() == items@.len());
            if items.len() < 3 {
                return None;
            }
            let payload: &Option<Vec<json::Field>> = &items[2];
            assert(all[2] == json::fields_view(*payload));
            let event_type: String = take_string(payload, "eventType");
            let uri: String = take_string(payload, "uri");
            let data: String = match json::get(payload, "data") {
                Some(f) => shorten(f.text.as_str()),
                None => {
                    let none: String = String::new();
                    assert(none@ =~= Seq::<char>::empty());
                    none
                },
            };
            Some(WsEvent { event_type, uri, data })
        },
    }
}

/// Reads the event of a text.
pub fn parse_event(s: &str) -> (r: Option<WsEvent>)
    ensures
        event_view(r) == event_of(s@),
{
    match json::read_json(s) {
        Ok(d) => read_frame(&d),
        Err(_) => None,
    }
}

/// The state of a stream.
#[derive(Debug)]
pub struct WsHandle {
    /// Whether the stream is to end.
    pub stopped: bool,
    pub events: Vec<WsEvent>,
    /// Connecting, connected, ended or an error.
    pub status_text: String,
}

/// The value of a `WsHandle`.
#[verifier::ext_equal]
pub struct WsModel {
    pub stopped: bool,
    pub events: Seq<EventModel>,
    pub status: Seq<char>,
}

/// What a stream sends first, to be told of all events.
pub const SUBSCRIPTION: &'static str = "[5,\"OnJsonApiEvent\"]";

/// Where a stream may fail.
#[derive(Clone, Copy, Debug, PartialEq, Eq, Structural)]
pub enum WsStage {
    Runtime,
    Url,
    Auth,
    Connection,
    Subscription,
    Reading,
}

/// What is said of a failure.
pub open spec fn stage_text(stage: WsStage) -> Seq<char> {
    match stage {
        WsStage::Runtime => "runtime tokio"@,
        WsStage::Url => "url invalida"@,
        WsStage::Auth => "auth invalido"@,
        WsStage::Connection => "conexao WS"@,
        WsStage::Subscription => "subscribe"@,
        WsStage::Reading => "leitura"@,
    }
}

/// What happened to a stream.
#[derive(Debug)]
pub enum WsInput {
    /// It was connected.
    Connected,
    /// What it sends first was sent.
    Subscribed,
    /// Nothing came for a while.
    Silence,
    /// A text came.
    Text(String),
    /// Something else came.
    Other,
    /// It is over.
    Ended,
    /// It failed, and why.
    Failed(WsStage, String),
}

/// The value of a `WsInput`.
pub enum InputModel {
    Connected,
    Subscribed,
    Silence,
    Text(Seq<char>),
    Other,
    Ended,
    Failed(WsStage, Seq<char>),
}

impl WsInput {
    /// The value of the input.
    pub open spec fn model(self) -> InputModel {
        match self {
            WsInput::Connected => InputModel::Connected,
            WsInput::Subscribed => InputModel::Subscribed,
            WsInput::Silence => InputModel::Silence,
            WsInput::Text(t) => InputModel::Text(t@),
            WsInput::Other => InputModel::Other,
            WsInput::Ended => InputModel::Ended,
            WsInput::Failed(stage, e) => InputModel::Failed(stage, e@),
        }
    }
}

/// What is to be done next with a stream.
#[derive(Clone, Copy, Debug, PartialEq, Eq, Structural)]
pub enum WsAction {
    /// Send the subscription.
    Subscribe,
    /// Wait a while for what comes.
    Read,
    /// Say that it is over.
    Close,
    /// Nothing more.
    Finish,
}

/// A stream after a text came.
pub open spec fn told(m: WsModel, s: Seq<char>) -> WsModel {
    match event_of(s) {
        Some(e) => WsModel { events: newest(m.events.push(e)), ..m },
        None => m,
    }
}

/// How a stream goes on: it is closed once it is to end.
pub open spec fn going_on(m: WsModel) -> (WsModel, WsAction) {
    (
        m,
        if m.stopped {
            WsAction::Close
        } else {
            WsAction::Read
        },
    )
}

/// A stream after something happened, and what is to be done next.
pub open spec fn stepped(m: WsModel, i: InputModel) -> (WsModel, WsAction) {
    match i {
        InputModel::Connected => (m, WsAction::Subscribe),
        InputModel::Subscribed => going_on(
            WsModel { status: "conectado — recebendo eventos"@, ..m },
        ),
        InputModel::Silence => going_on(m),
        InputModel::Text(s) => going_on(told(m, s)),
        InputModel::Other => going_on(m),
        InputModel::Ended => (WsModel { status: ended(m.status), ..m }, WsAction::Finish),
        InputModel::Failed(stage, e) => (
            WsModel { status: "erro: "@ + stage_text(stage) + ": "@ + e, ..m },
            WsAction::Finish,
        ),
    }
}

/// The address of the stream at a port of this machine.
pub fn stream_url(port: u16) -> (r: String)
    ensures
        r@ == "wss://127.0.0.1:"@ + text::decimal(port as nat) + "/"@,
{
    let mut s: String = "wss://127.0.0.1:".to_owned();
    s.append(text::write_decimal(port as u64).as_str());
    s.append("/");
    s
}

/// Finds what is said of a failure.
fn stage_name(stage: WsStage) -> (r: &'static str)
    ensures
        r@ == stage_text(stage),
{
    match stage {
        WsStage::Runtime => "runtime tokio",
        WsStage::Url => "url invalida",
        WsStage::Auth => "auth invalido",
        WsStage::Connection => "conexao WS",
        WsStage::Subscription => "subscribe",
        WsStage::Reading => "leitura",
    }
}

/// The newest events.
pub open spec fn newest(events: Seq<EventModel>) -> Seq<EventModel> {
    if events.len() > MAX_EVENTS {
        events.skip(events.len() - MAX_EVENTS)
    } else {
        events
    }
}

/// What a stream that ended says: that it is not connected, unless an error
/// was noted.
pub open spec fn ended(status: Seq<char>) -> Seq<char> {
    if status.len() >= 4 && status.take(4) == "erro"@ {
        status
    } else {
        "desconectado"@
    }
}

impl WsHandle {
    /// The value of the stream.
    pub open spec fn model(self) -> WsModel {
        WsModel {
            stopped: self.stopped,
            events: event_models(self.events@),
            status: self.status_text@,
        }
    }

    /// A stream that is being connected.
    pub fn new() -> (r: Self)
        ensures
            r.model() == (WsModel {
                stopped: false,
                events: Seq::empty(),
                status: "conectando…"@,
            }),
    {
        let r: WsHandle = WsHandle {
            stopped: false,
            events: Vec::new(),
            status_text: "conectando…".to_owned(),
        };
        proof {
            assert(r.model().events =~= Seq::<EventModel>::empty());
        }
        r
    }

    /// Lets the stream end.
    pub fn stop(&mut self)
        ensures
            final(self).model() == (WsModel { stopped: true, ..old(self).model() }),
    {
        self.stopped = true;
    }

    /// What the stream is doing.
    pub fn status(&self) -> (r: String)
        ensures
            r@ == self.model().status,
    {
        self.status_text.clone()
    }

    /// Notes what the stream is doing.
    pub fn set_status(&mut self, status: String)
        ensures
            final(self).model() == (WsModel { status: status@, ..old(self).model() }),
    {
        self.status_text = status;
    }

    /// Notes that the stream ended.
    pub fn end(&mut self)
        ensures
            final(self).model() == (WsModel {
                status: ended(old(self).model().status),
                ..old(self).model()
            }),
    {
        let chars: Vec<char> = text::chars_of(self.status_text.as_str());
        let erro: Vec<char> = text::chars_of("erro");
        proof {
            reveal_strlit("erro");
        }
        if !text::starts_with(&chars, &erro) {
            self.status_text = "desconectado".to_owned();
        }
    }

    /// Takes in a text of the stream and drops the oldest events beyond the
    /// limit.
    pub fn receive(&mut self, s: &str)
        ensures
            final(self).model() == told(old(self).model(), s@),
    {
        let e: WsEvent = match parse_event(s) {
            Some(e) => e,
            None => {
                return;
            },
        };
        let ghost all = self.model().events.push(e.model());
        proof {
            assert(event_models(self.events@.push(e)) =~= all);
        }
        self.events.push(e);
        let ghost mut dropped: int = 0;
        proof {
            assert(all.skip(0) =~= all);
        }
        while self.events.len() > MAX_EVENTS
            invariant
                0 <= dropped,
                dropped + self.events@.len() == all.len(),
                event_models(self.events@) == all.skip(dropped),
                dropped > 0 ==> self.events@.len() >= MAX_EVENTS,
                self.stopped == old(self).stopped,
                self.status_text == old(self).status_text,
            decreases self.events@.len(),
        {
            let ghost before = self.events@;
            let _ = self.events.remove(0);
            proof {
                assert(event_models(self.events@) =~= event_models(before).skip(1));
                assert(all.skip(dropped).skip(1) =~= all.skip(dropped + 1));
                dropped = dropped + 1;
            }
        }
    }
}

impl WsHandle {
    /// Says how the stream goes on.
    fn go_on(&self) -> (a: WsAction)
        ensures
            (self.model(), a) == going_on(self.model()),
    {
        if self.stopped {
            WsAction::Close
        } else {
            WsAction::Read
        }
    }

    /// Takes in what happened and says what is to be done next.
    pub fn step(&mut self, i: WsInput) -> (a: WsAction)
        ensures
            (final(self).model(), a) == stepped(old(self).model(), i.model()),
    {
        match i {
            WsInput::Connected => WsAction::Subscribe,
            WsInput::Subscribed => {
                self.set_status("conectado — recebendo eventos".to_owned());
                self.go_on()
            },
            WsInput::Silence => self.go_on(),
            WsInput::Text(s) => {
                self.receive(s.as_str());
                self.go_on()
            },
            WsInput::Other => self.go_on(),
            WsInput::Ended => {
                self.end();
                WsAction::Finish
            },
            WsInput::Failed(stage, e) => {
                let mut status: String = "erro: ".to_owned();
                status.append(stage_name(stage));
                status.append(": ");
                status.append(e.as_str());
                self.set_status(status);
                WsAction::Finish
            },
        }
    }
}

/// A stream that is to end waits for nothing more once it is connected: it is
/// closed or over.
pub proof fn lemma_stopped(m: WsModel, i: InputModel)
    requires
        m.stopped,
    ensures
        stepped(m, i).0.stopped,
        stepped(m, i).1 != WsAction::Read,
{
}

/// What failed stays shown when the stream is over.
pub proof fn lemma_failure_stays(m: WsModel, stage: WsStage, e: Seq<char>)
    ensures
        stepped(stepped(m, InputModel::Failed(stage, e)).0, InputModel::Ended).0 == stepped(
            m,
            InputModel::Failed(stage, e),
        ).0,
{
    let s = stepped(m, InputModel::Failed(stage, e)).0.status;
    reveal_strlit("erro");
    reveal_strlit("erro: ");
    assert(s.take(4) =~= "erro"@);
}

/// Whatever happens, no more events are kept than the limit.
pub proof fn lemma_stream_bounded(m: WsModel, i: InputModel)
    requires
        m.events.len() <= MAX_EVENTS,
    ensures
        stepped(m, i).0.events.len() <= MAX_EVENTS,
{
}

/// The events never grow beyond their limit, and the last one is the newest.
pub proof fn lemma_events_bounded(events: Seq<EventModel>, e: EventModel)
    requires
        events.len() <= MAX_EVENTS,
    ensures
        newest(events.push(e)).len() <= MAX_EVENTS,
        newest(events.push(e)).last() == e,
{
}

/// What is shown of some data is short: 240 bytes and a mark at most.
pub proof fn lemma_shortened(s: Seq<char>)
    ensures
        vstd::utf8::encode_utf8(s).len() <= 240 ==> shortened(s) == s,
        vstd::utf8::encode_utf8(s).len() > 240 ==> ({
            let k = text::fitting(s, 240).len() as int;
            &&& shortened(s) == s.take(k) + "…"@
            &&& vstd::utf8::encode_utf8(s.take(k)).len() <= 240
        }),
{
    text::lemma_fitting(s, 240);
}

} // verus!
