//! Client of the local API of a game client: where it listens, how requests
//! are authorised and built, the catalogue of its endpoints and the audit of
//! what it exposes.
use crate::bytes;
use crate::json;
use crate::json::Field;
use crate::json::FieldModel;
use crate::order;
use crate::process;
use crate::process::ProcessInfo;
use crate::text;
use crate::web;
use crate::web::RawHeader;
use vstd::prelude::*;

verus! {

// ---------------------------------------------------------------------------
// Connection
// ---------------------------------------------------------------------------
/// Where the API listens and the token that it asks for.
#[derive(Debug)]
pub struct LcuConn {
    pub pid: u32,
    pub port: u16,
    pub token: String,
}

/// The value of an `LcuConn`.
#[verifier::ext_equal]
pub struct ConnModel {
    pub pid: u32,
    pub port: u16,
    pub token: Seq<char>,
}

/// The character of a digit in base 64.
pub open spec fn base64_char(k: int) -> char {
    if k < 26 {
        (65 + k) as char
    } else if k < 52 {
        (97 + k - 26) as char
    } else if k < 62 {
        (48 + k - 52) as char
    } else if k == 62 {
        '+'
    } else {
        '/'
    }
}

/// The four characters of three bytes.
pub open spec fn base64_group(a: int, b: int, c: int) -> Seq<char> {
    seq![
        base64_char(a / 4),
        base64_char(a % 4 * 16 + b / 16),
        base64_char(b % 16 * 4 + c / 64),
        base64_char(c % 64),
    ]
}

/// Bytes in base 64, with `=` for what is missing of the last three.
pub open spec fn base64_text(b: Seq<u8>) -> Seq<char>
    decreases b.len(),
{
    if b.len() == 0 {
        Seq::empty()
    } else if b.len() == 1 {
        base64_group(b[0] as int, 0, 0).update(2, '=').update(3, '=')
    } else if b.len() == 2 {
        base64_group(b[0] as int, b[1] as int, 0).update(3, '=')
    } else {
        base64_group(b[0] as int, b[1] as int, b[2] as int) + base64_text(b.skip(3))
    }
}

/// The digit of a character in base 64.
pub open spec fn base64_digit(c: char) -> int {
    if 'A' <= c <= 'Z' {
        c as int - 65
    } else if 'a' <= c <= 'z' {
        c as int - 97 + 26
    } else if '0' <= c <= '9' {
        c as int - 48 + 52
    } else if c == '+' {
        62
    } else {
        63
    }
}

/// The bytes of a text in base 64.
pub open spec fn base64_bytes(s: Seq<char>) -> Seq<u8>
    decreases s.len(),
{
    if s.len() < 4 {
        Seq::empty()
    } else {
        let p = base64_digit(s[0]);
        let q = base64_digit(s[1]);
        let r = base64_digit(s[2]);
        let t = base64_digit(s[3]);
        if s[2] == '=' {
            seq![(p * 4 + q / 16) as u8]
        } else if s[3] == '=' {
            seq![(p * 4 + q / 16) as u8, (q % 16 * 16 + r / 4) as u8]
        } else {
            seq![(p * 4 + q / 16) as u8, (q % 16 * 16 + r / 4) as u8, (r % 4 * 64 + t) as u8]
                + base64_bytes(s.skip(4))
        }
    }
}

/// Finds the character of a digit in base 64.
fn digit64(k: u32) -> (r: char)
    requires
        k < 64,
    ensures
        r == base64_char(k as int),
{
    if k < 26 {
        (65 + k as u8) as char
    } else if k < 52 {
        (97 + (k as u8 - 26)) as char
    } else if k < 62 {
        (48 + (k as u8 - 52)) as char
    } else if k == 62 {
        '+'
    } else {
        '/'
    }
}

/// Writes bytes in base 64.
pub fn base64(input: &[u8]) -> (r: String)
    ensures
        r@ == base64_text(input@),
{
    let len: usize = input.len();
    let mut out: String = String::new();
    let mut i: usize = 0;
    proof {
        assert(input@.skip(0) =~= input@);
        assert(out@ + base64_text(input@.skip(0)) =~= base64_text(input@));
    }
    while i < len
        invariant
            len == input@.len(),
            i <= len,
            out@ + base64_text(input@.skip(i as int)) == base64_text(input@),
        decreases len - i,
    {
        let ghost rest = input@.skip(i as int);
        let ghost before = out@;
        let left: usize = len - i;
        let a: u32 = input[i] as u32;
        let b: u32 = if left > 1 {
            input[i + 1] as u32
        } else {
            0
        };
        let c: u32 = if left > 2 {
            input[i + 2] as u32
        } else {
            0
        };
        out.push(digit64(a / 4));
        out.push(digit64(a % 4 * 16 + b / 16));
        out.push(
            if left > 1 {
                digit64(b % 16 * 4 + c / 64)
            } else {
                '='
            },
        );
        out.push(
            if left > 2 {
                digit64(c % 64)
            } else {
                '='
            },
        );
        if left <= 3 {
            proof {
                if left == 3 {
                    assert(base64_text(rest.skip(3)) =~= Seq::<char>::empty());
                }
                let group = base64_group(a as int, b as int, c as int);
                if left == 1 {
                    assert(out@ =~= before + group.update(2, '=').update(3, '='));
                } else if left == 2 {
                    assert(out@ =~= before + group.update(3, '='));
                } else {
                    assert(out@ =~= before + (group + Seq::<char>::empty()));
                }
                assert(out@ == before + base64_text(rest));
            }
            return out;
        }
        i = i + 3;
        proof {
            assert(rest.skip(3) =~= input@.skip(i as int));
            assert(out@ =~= before + base64_group(a as int, b as int, c as int));
            assert(out@ + base64_text(input@.skip(i as int)) =~= before + base64_text(rest));
        }
    }
    proof {
        assert(input@.skip(len as int) =~= Seq::<u8>::empty());
        assert(out@ + Seq::<char>::empty() =~= out@);
    }
    out
}

proof fn lemma_digit64(k: int)
    requires
        0 <= k < 64,
    ensures
        base64_digit(base64_char(k)) == k,
        base64_char(k) != '=',
{
}

/// Bytes written in base 64 can be read back.
pub proof fn lemma_base64_roundtrip(b: Seq<u8>)
    ensures
        base64_bytes(base64_text(b)) == b,
    decreases b.len(),
{
    if b.len() > 0 {
        let x = b[0] as int;
        let y = if b.len() > 1 {
            b[1] as int
        } else {
            0
        };
        let z = if b.len() > 2 {
            b[2] as int
        } else {
            0
        };
        lemma_digit64(x / 4);
        lemma_digit64(x % 4 * 16 + y / 16);
        lemma_digit64(y % 16 * 4 + z / 64);
        lemma_digit64(z % 64);
        let s = base64_text(b);
        if b.len() > 2 {
            lemma_base64_roundtrip(b.skip(3));
            assert(s.skip(4) =~= base64_text(b.skip(3)));
            assert(base64_bytes(s) =~= seq![b[0], b[1], b[2]] + b.skip(3));
            assert(b =~= seq![b[0], b[1], b[2]] + b.skip(3));
        } else if b.len() == 2 {
            assert(base64_bytes(s) =~= b);
        } else {
            assert(base64_bytes(s) =~= b);
        }
    }
}

impl LcuConn {
    /// The value of the connection.
    pub open spec fn model(self) -> ConnModel {
        ConnModel { pid: self.pid, port: self.port, token: self.token@ }
    }

    /// The `Authorization` header for the user `riot` and the token.
    pub fn auth_header(&self) -> (r: String)
        ensures
            r@ == "Basic "@ + base64_text(vstd::utf8::encode_utf8("riot:"@ + self.token@)),
    {
        let mut user: String = "riot:".to_owned();
        user.append(self.token.as_str());
        let mut r: String = "Basic ".to_owned();
        r.append(base64(user.as_str().as_bytes()).as_str());
        r
    }
}

/// The connection that a lockfile describes: `name:pid:port:token:protocol`.
pub open spec fn lockfile(content: Seq<char>) -> Result<ConnModel, Seq<char>> {
    let parts = text::pieces(text::trimmed(content), ':');
    if parts.len() < 5 {
        Err("lockfile em formato inesperado."@)
    } else {
        match text::unsigned(parts[1], 10, u32::MAX as int) {
            None => Err("pid invalido no lockfile"@),
            Some(pid) => match text::unsigned(parts[2], 10, u16::MAX as int) {
                None => Err("porta invalida no lockfile"@),
                Some(port) => Ok(
                    ConnModel { pid: pid as u32, port: port as u16, token: parts[3] },
                ),
            },
        }
    }
}

/// The value of a read lockfile.
pub open spec fn conn_result(r: Result<LcuConn, String>) -> Result<ConnModel, Seq<char>> {
    match r {
        Ok(c) => Ok(c.model()),
        Err(e) => Err(e@),
    }
}

/// Reads a lockfile.
pub fn parse_lockfile(content: &str) -> (r: Result<LcuConn, String>)
    ensures
        conn_result(r) == lockfile(content@),
{
    let chars: Vec<char> = text::chars_of(content);
    let parts: Vec<&[char]> = text::split(text::trim(&chars), ':');
    let ghost all = text::pieces(text::trimmed(content@), ':');
    assert(text::views(parts@).len() == parts@.len());
    if parts.len() < 5 {
        return Err("lockfile em formato inesperado.".to_owned());
    }
    proof {
        assert forall|i: int| 0 <= i < parts@.len() implies all[i] == #[trigger] parts@[i]@ by {
            assert(text::views(parts@)[i] == parts@[i]@);
        }
    }
    let pid: u32 = match text::parse_unsigned(parts[1], 10, u32::MAX as u64) {
        Some(v) => v as u32,
        None => {
            return Err("pid invalido no lockfile".to_owned());
        },
    };
    let port: u16 = match text::parse_unsigned(parts[2], 10, u16::MAX as u64) {
        Some(v) => v as u16,
        None => {
            return Err("porta invalida no lockfile".to_owned());
        },
    };
    Ok(LcuConn { pid, port, token: text::string_of(parts[3]) })
}

/// A lockfile in the documented format gives back the pid, the port and the
/// token that stand in it.
pub proof fn lemma_lockfile_format(
    name: Seq<char>,
    pid: u32,
    port: u16,
    token: Seq<char>,
    protocol: Seq<char>,
)
    requires
        !name.contains(':'),
        !token.contains(':'),
        !protocol.contains(':'),
        name.len() > 0,
        !text::is_space(name[0]),
        protocol.len() > 0,
        !text::is_space(protocol.last()),
    ensures
        lockfile(
            name + seq![':'] + (text::decimal(pid as nat) + seq![':'] + (text::decimal(port as nat)
                + seq![':'] + (token + seq![':'] + protocol))),
        ) == Ok::<ConnModel, Seq<char>>(ConnModel { pid, port, token }),
{
    let d = token + seq![':'] + protocol;
    let c = text::decimal(port as nat) + seq![':'] + d;
    let b = text::decimal(pid as nat) + seq![':'] + c;
    let a = name + seq![':'] + b;
    text::lemma_decimal_roundtrip(pid as nat, u32::MAX as int);
    text::lemma_decimal_roundtrip(port as nat, u16::MAX as int);
    lemma_decimal_no_colon(pid as nat);
    lemma_decimal_no_colon(port as nat);
    text::lemma_pieces_first(name, b, ':');
    text::lemma_pieces_first(text::decimal(pid as nat), c, ':');
    text::lemma_pieces_first(text::decimal(port as nat), d, ':');
    text::lemma_pieces_first(token, protocol, ':');
    text::lemma_pieces_len(protocol, ':');
    assert(a[0] == name[0]);
    assert(a.last() == protocol.last());
    assert(text::trimmed_start(a, text::Class::Space) == a);
    assert(text::trimmed_end(a, text::Class::Space) == a);
    let p4 = text::pieces(protocol, ':');
    let p3 = seq![token] + p4;
    let p2 = seq![text::decimal(port as nat)] + p3;
    let p1 = seq![text::decimal(pid as nat)] + p2;
    let p0 = seq![name] + p1;
    assert(text::pieces(a, ':') == p0);
    assert(p0[1] == p1[0] && p0[2] == p2[0] && p0[3] == p3[0]);
}

proof fn lemma_decimal_no_colon(n: nat)
    ensures
        !text::decimal(n).contains(':'),
{
    text::lemma_written_roundtrip(n, 10);
    assert(text::digit_of(':') == 36);
}

/// The number of the client's process: of the one with the user interface, else
/// of the other.
pub open spec fn client_process(s: Seq<process::ProcessModel>) -> Option<u32> {
    match process::pid_of(s, "LeagueClientUx.exe"@) {
        Some(p) => Some(p),
        None => process::pid_of(s, "LeagueClient.exe"@),
    }
}

/// Finds the client's process.
pub fn find_client(procs: &Vec<ProcessInfo>) -> (r: Option<u32>)
    ensures
        r == client_process(process::process_models(procs@)),
{
    match process::find_pid(procs, "LeagueClientUx.exe") {
        Some(p) => Some(p),
        None => process::find_pid(procs, "LeagueClient.exe"),
    }
}

/// The connection to the client, given the number of its process and the
/// content of its lockfile, as far as they were found.
pub open spec fn discovered(pid: Option<u32>, content: Option<Seq<char>>) -> Result<
    ConnModel,
    Seq<char>,
> {
    if pid is None {
        Err("Client (LeagueClientUx.exe) nao encontrado em execucao."@)
    } else {
        match content {
            None => Err(
                "Nao consegui obter a pasta do client. Rode o Quarry como Administrador."@,
            ),
            Some(c) => lockfile(c),
        }
    }
}

/// Finds the connection to the client; `content` is what its lockfile holds,
/// `None` if the folder of the client is not known.
pub fn discover(pid: Option<u32>, content: Option<String>) -> (r: Result<LcuConn, String>)
    ensures
        conn_result(r) == discovered(pid, text::option_view(content)),
{
    if pid.is_none() {
        return Err("Client (LeagueClientUx.exe) nao encontrado em execucao.".to_owned());
    }
    match content {
        None => Err(
            "Nao consegui obter a pasta do client. Rode o Quarry como Administrador.".to_owned(),
        ),
        Some(c) => parse_lockfile(c.as_str()),
    }
}

// ---------------------------------------------------------------------------
// Catalogue
// ---------------------------------------------------------------------------
/// An endpoint of the API.
#[derive(Debug)]
pub struct Endpoint {
    pub method: String,
    pub path: String,
    pub summary: String,
}

/// The value of an `Endpoint`.
#[verifier::ext_equal]
pub struct EndpointModel {
    pub method: Seq<char>,
    pub path: Seq<char>,
    pub summary: Seq<char>,
}

impl Endpoint {
    /// The value of the endpoint.
    pub open spec fn model(self) -> EndpointModel {
        EndpointModel { method: self.method@, path: self.path@, summary: self.summary@ }
    }
}

/// The values of endpoints.
pub open spec fn endpoint_models(v: Seq<Endpoint>) -> Seq<EndpointModel> {
    v.map_values(|e: Endpoint| e.model())
}

/// The method that a key of a path stands for; other keys are none.
pub open spec fn verb_of(key: Seq<char>) -> Option<Seq<char>> {
    if key == "get"@ {
        Some("GET"@)
    } else if key == "post"@ {
        Some("POST"@)
    } else if key == "put"@ {
        Some("PUT"@)
    } else if key == "patch"@ {
        Some("PATCH"@)
    } else if key == "delete"@ {
        Some("DELETE"@)
    } else if key == "head"@ {
        Some("HEAD"@)
    } else if key == "options"@ {
        Some("OPTIONS"@)
    } else {
        None
    }
}

/// The first line of a text.
pub open spec fn first_line(s: Seq<char>) -> Seq<char> {
    if text::lines_of(s).len() > 0 {
        text::lines_of(s)[0]
    } else {
        Seq::empty()
    }
}

/// The summary of an operation: the first line of its `summary`, or of its
/// `description` where it has none.
pub open spec fn summary_in(op: Option<Seq<FieldModel>>) -> Seq<char> {
    let field = match json::field_with(op, "summary"@) {
        Some(f) => Some(f),
        None => json::field_with(op, "description"@),
    };
    match field {
        Some(f) => match f.string {
            Some(s) => first_line(s),
            None => Seq::empty(),
        },
        None => Seq::empty(),
    }
}

/// The fields of a JSON text, if it is an object.
pub open spec fn fields_in(s: Seq<char>) -> Option<Seq<FieldModel>> {
    match json::json_read(s) {
        Ok(d) => d.fields,
        Err(_) => None,
    }
}

/// One key of a path and what stands under it: the fields of an operation,
/// where it is an object.
#[derive(Debug)]
pub struct MethodItem {
    pub key: String,
    pub op: Option<Vec<Field>>,
}

/// The value of a `MethodItem`.
#[verifier::ext_equal]
pub struct MethodModel {
    pub key: Seq<char>,
    pub op: Option<Seq<FieldModel>>,
}

impl MethodItem {
    /// The value of the key and its operation.
    pub open spec fn model(self) -> MethodModel {
        MethodModel { key: self.key@, op: json::fields_view(self.op) }
    }
}

/// The values of keys and their operations.
pub open spec fn method_models(v: Seq<MethodItem>) -> Seq<MethodModel> {
    v.map_values(|m: MethodItem| m.model())
}

/// A path and what stands under it: its keys, where it is an object.
#[derive(Debug)]
pub struct PathItem {
    pub path: String,
    pub methods: Option<Vec<MethodItem>>,
}

/// The value of a `PathItem`.
#[verifier::ext_equal]
pub struct PathModel {
    pub path: Seq<char>,
    pub methods: Option<Seq<MethodModel>>,
}

impl PathItem {
    /// The value of the path.
    pub open spec fn model(self) -> PathModel {
        PathModel {
            path: self.path@,
            methods: match self.methods {
                Some(v) => Some(method_models(v@)),
                None => None,
            },
        }
    }
}

/// The values of paths.
pub open spec fn path_models(v: Seq<PathItem>) -> Seq<PathModel> {
    v.map_values(|p: PathItem| p.model())
}

/// A key of a path, read from its JSON text.
pub open spec fn method_in(f: FieldModel) -> MethodModel {
    MethodModel { key: f.key, op: fields_in(f.text) }
}

/// A path, read from its JSON text.
pub open spec fn path_in(f: FieldModel) -> PathModel {
    PathModel {
        path: f.key,
        methods: match fields_in(f.text) {
            Some(m) => Some(m.map_values(|x: FieldModel| method_in(x))),
            None => None,
        },
    }
}

/// Whether no two keys of a path are the same.
pub open spec fn methods_differ(m: Seq<MethodModel>) -> bool {
    forall|i: int, j: int| 0 <= i < j < m.len() ==> (#[trigger] m[i]).key != (#[trigger] m[j]).key
}

/// Whether no two paths are the same, nor two keys of one of them.
pub open spec fn paths_differ(paths: Seq<PathModel>) -> bool {
    &&& forall|i: int, j: int|
        0 <= i < j < paths.len() ==> (#[trigger] paths[i]).path != (#[trigger] paths[j]).path
    &&& forall|i: int|
        0 <= i < paths.len() ==> ((#[trigger] paths[i]).methods matches Some(m) ==> methods_differ(
            m,
        ))
}

/// The endpoints of a path among the first `n` of its keys.
pub open spec fn operations_until(path: Seq<char>, methods: Seq<MethodModel>, n: int) -> Seq<
    EndpointModel,
>
    decreases n,
{
    if n <= 0 {
        Seq::empty()
    } else {
        let before = operations_until(path, methods, n - 1);
        match verb_of(methods[n - 1].key) {
            Some(method) => before.push(
                EndpointModel { method, path, summary: summary_in(methods[n - 1].op) },
            ),
            None => before,
        }
    }
}

/// The endpoints of the first `n` paths.
pub open spec fn endpoints_until(paths: Seq<PathModel>, n: int) -> Seq<EndpointModel>
    decreases n,
{
    if n <= 0 {
        Seq::empty()
    } else {
        let before = endpoints_until(paths, n - 1);
        match paths[n - 1].methods {
            Some(methods) => before + operations_until(
                paths[n - 1].path,
                methods,
                methods.len() as int,
            ),
            None => before,
        }
    }
}

/// The endpoints of paths, in order.
pub open spec fn endpoints_of(paths: Seq<PathModel>) -> Seq<EndpointModel> {
    order::in_order(endpoints_until(paths, paths.len() as int), by_path())
}

/// Whether an endpoint comes before another one: by path, then by method.
pub open spec fn endpoint_before(a: EndpointModel, b: EndpointModel) -> bool {
    text::comes_before(a.path, b.path) || (a.path == b.path && text::comes_before(
        a.method,
        b.method,
    ))
}

/// The order of endpoints.
pub open spec fn by_path() -> spec_fn(EndpointModel, EndpointModel) -> bool {
    |a: EndpointModel, b: EndpointModel| endpoint_before(a, b)
}

/// The catalogue of endpoints that a description of the API holds.
pub open spec fn catalogue(s: Seq<char>) -> Result<Seq<EndpointModel>, Seq<char>> {
    match json::json_read(s) {
        Err(e) => Err("JSON invalido do swagger: "@ + e),
        Ok(d) => match json::field_with(d.fields, "paths"@) {
            None => Err("swagger sem objeto 'paths'"@),
            Some(f) => match fields_in(f.text) {
                None => Err("swagger sem objeto 'paths'"@),
                Some(paths) => Ok(
                    endpoints_of(paths.map_values(|x: FieldModel| path_in(x))),
                ),
            },
        },
    }
}

/// Finds the method that a key of a path stands for.
fn verb(key: &str) -> (r: Option<&'static str>)
    ensures
        match r {
            Some(m) => verb_of(key@) == Some(m@),
            None => verb_of(key@) is None,
        },
{
    if text::same_str(key, "get") {
        Some("GET")
    } else if text::same_str(key, "post") {
        Some("POST")
    } else if text::same_str(key, "put") {
        Some("PUT")
    } else if text::same_str(key, "patch") {
        Some("PATCH")
    } else if text::same_str(key, "delete") {
        Some("DELETE")
    } else if text::same_str(key, "head") {
        Some("HEAD")
    } else if text::same_str(key, "options") {
        Some("OPTIONS")
    } else {
        None
    }
}

/// Takes the first line of a text.
fn take_first_line(s: &str) -> (r: String)
    ensures
        r@ == first_line(s@),
{
    let chars: Vec<char> = text::chars_of(s);
    let lines: Vec<&[char]> = text::lines(&chars);
    assert(text::views(lines@).len() == lines@.len());
    if lines.len() > 0 {
        assert(text::views(lines@)[0] == lines@[0]@);
        text::string_of(lines[0])
    } else {
        String::new()
    }
}

/// The summary of an operation with these fields.
pub fn summary_of(op: &Option<Vec<Field>>) -> (r: String)
    ensures
        r@ == summary_in(json::fields_view(*op)),
{
    let field: Option<&Field> = match json::get(op, "summary") {
        Some(f) => Some(f),
        None => json::get(op, "description"),
    };
    match field {
        Some(f) => match &f.string {
            Some(s) => take_first_line(s.as_str()),
            None => String::new(),
        },
        None => String::new(),
    }
}

/// The endpoint of a path, a key and the fields of the operation; `None` if the
/// key is no method.
pub fn operation(path: &str, key: &str, op: &Option<Vec<Field>>) -> (r: Option<Endpoint>)
    ensures
        match r {
            Some(e) => verb_of(key@) is Some && e.model() == (EndpointModel {
                method: verb_of(key@)->0,
                path: path@,
                summary: summary_in(json::fields_view(*op)),
            }),
            None => verb_of(key@) is None,
        },
{
    match verb(key) {
        Some(m) => Some(
            Endpoint { method: m.to_owned(), path: path.to_owned(), summary: summary_of(op) },
        ),
        None => None,
    }
}

/// Reads the fields of a JSON text.
fn read_fields(s: &str) -> (r: Option<Vec<Field>>)
    ensures
        json::fields_view(r) == fields_in(s@),
        r matches Some(f) ==> json::keys_differ(json::field_models(f@)),
{
    match json::read_json(s) {
        Ok(d) => d.fields,
        Err(_) => None,
    }
}

/// Appends the endpoints of a path.
fn push_operations(path: &str, methods: &Vec<MethodItem>, out: &mut Vec<Endpoint>)
    ensures
        endpoint_models(final(out)@) == endpoint_models(old(out)@) + operations_until(
            path@,
            method_models(methods@),
            methods@.len() as int,
        ),
{
    let ghost start = endpoint_models(out@);
    let ghost all = method_models(methods@);
    proof {
        assert(endpoint_models(out@) =~= start + operations_until(path@, all, 0));
    }
    for i in 0..methods.len()
        invariant
            all == method_models(methods@),
            endpoint_models(out@) == start + operations_until(path@, all, i as int),
    {
        let ghost before = out@;
        assert(all[i as int] == methods@[i as int].model());
        match operation(path, methods[i].key.as_str(), &methods[i].op) {
            Some(e) => {
                out.push(e);
                proof {
                    assert(endpoint_models(out@) =~= endpoint_models(before).push(e.model()));
                    assert(endpoint_models(out@) =~= start + operations_until(path@, all, i + 1));
                }
            },
            None => {},
        }
    }
}

/// Compares two endpoints.
fn comes_first(a: &Endpoint, b: &Endpoint) -> (r: bool)
    ensures
        r == endpoint_before(a.model(), b.model()),
{
    text::str_before(a.path.as_str(), b.path.as_str()) || (text::same_str(
        a.path.as_str(),
        b.path.as_str(),
    ) && text::str_before(a.method.as_str(), b.method.as_str()))
}

/// Puts an endpoint into a list in order.
fn insert_endpoint(out: &mut Vec<Endpoint>, e: Endpoint)
    ensures
        endpoint_models(final(out)@) == order::inserted(
            endpoint_models(old(out)@),
            e.model(),
            by_path(),
        ),
{
    let ghost models = endpoint_models(out@);
    let mut i: usize = out.len();
    while i > 0 && comes_first(&e, &out[i - 1])
        invariant
            i <= out@.len(),
            out@ == old(out)@,
            models == endpoint_models(out@),
            forall|j: int|
                i <= j < models.len() ==> endpoint_before(e.model(), #[trigger] models[j]),
        decreases i,
    {
        assert(models[i - 1] == out@[i - 1].model());
        i = i - 1;
    }
    proof {
        if i > 0 {
            assert(models[i - 1] == out@[i - 1].model());
        }
        order::lemma_inserted_at(models, e.model(), by_path(), i as int);
    }
    out.insert(i, e);
    proof {
        assert(endpoint_models(out@) =~= models.insert(i as int, e.model()));
    }
}

/// Puts endpoints in order.
fn sort_endpoints(v: Vec<Endpoint>) -> (r: Vec<Endpoint>)
    ensures
        endpoint_models(r@) == order::in_order(endpoint_models(v@), by_path()),
{
    let ghost all = endpoint_models(v@);
    let mut rest: Vec<Endpoint> = v;
    let mut out: Vec<Endpoint> = Vec::new();
    let ghost mut done: int = 0;
    proof {
        assert(all.take(0) =~= Seq::<EndpointModel>::empty());
        assert(endpoint_models(out@) =~= Seq::<EndpointModel>::empty());
        assert(all.skip(0) =~= all);
    }
    while rest.len() > 0
        invariant
            0 <= done <= all.len(),
            endpoint_models(rest@) == all.skip(done),
            endpoint_models(out@) == order::in_order(all.take(done), by_path()),
        decreases rest@.len(),
    {
        let ghost before = rest@;
        let e: Endpoint = rest.remove(0);
        proof {
            assert(endpoint_models(before).len() == before.len());
            assert(all.skip(done).len() == all.len() - done);
            assert(endpoint_models(before)[0] == e.model());
            assert(all[done] == all.skip(done)[0]);
            assert(all.take(done + 1).drop_last() =~= all.take(done));
            assert(all.take(done + 1).last() == e.model());
        }
        insert_endpoint(&mut out, e);
        proof {
            assert(endpoint_models(rest@) =~= endpoint_models(before).skip(1));
            assert(all.skip(done).skip(1) =~= all.skip(done + 1));
            done = done + 1;
        }
    }
    proof {
        assert(rest@.len() == endpoint_models(rest@).len());
        assert(all.take(all.len() as int) =~= all);
    }
    out
}

/// The value of a read catalogue.
pub open spec fn endpoints_result(r: Result<Vec<Endpoint>, String>) -> Result<
    Seq<EndpointModel>,
    Seq<char>,
> {
    match r {
        Ok(v) => Ok(endpoint_models(v@)),
        Err(e) => Err(e@),
    }
}

/// Lists the endpoints of paths, in order. What is no method or no object is
/// left out.
pub fn list_endpoints(paths: &Vec<PathItem>) -> (r: Vec<Endpoint>)
    ensures
        endpoint_models(r@) == endpoints_of(path_models(paths@)),
{
    let ghost all = path_models(paths@);
    let mut out: Vec<Endpoint> = Vec::new();
    proof {
        assert(endpoint_models(out@) =~= Seq::<EndpointModel>::empty());
    }
    for i in 0..paths.len()
        invariant
            all == path_models(paths@),
            endpoint_models(out@) == endpoints_until(all, i as int),
    {
        assert(all[i as int] == paths@[i as int].model());
        match &paths[i].methods {
            Some(methods) => {
                push_operations(paths[i].path.as_str(), methods, &mut out);
                assert(method_models(methods@).len() == methods@.len());
            },
            None => {},
        }
    }
    sort_endpoints(out)
}

/// Reads the keys of a path.
fn read_methods(fields: &Vec<Field>) -> (r: Vec<MethodItem>)
    ensures
        method_models(r@) == json::field_models(fields@).map_values(
            |x: FieldModel| method_in(x),
        ),
        json::keys_differ(json::field_models(fields@)) ==> methods_differ(method_models(r@)),
{
    let mut out: Vec<MethodItem> = Vec::new();
    for i in 0..fields.len()
        invariant
            out@.len() == i,
            forall|j: int|
                0 <= j < i ==> (#[trigger] out@[j]).model() == method_in(fields@[j].model()),
    {
        let op: Option<Vec<Field>> = read_fields(fields[i].text.as_str());
        out.push(MethodItem { key: fields[i].key.clone(), op });
    }
    let ghost from = json::field_models(fields@);
    assert(method_models(out@) =~= from.map_values(|x: FieldModel| method_in(x)));
    proof {
        assert forall|i: int| 0 <= i < from.len() implies method_models(out@)[i].key
            == (#[trigger] from[i]).key by {}
    }
    out
}

/// Reads paths.
fn read_paths(fields: &Vec<Field>) -> (r: Vec<PathItem>)
    ensures
        path_models(r@) == json::field_models(fields@).map_values(|x: FieldModel| path_in(x)),
        json::keys_differ(json::field_models(fields@)) ==> paths_differ(path_models(r@)),
{
    let mut out: Vec<PathItem> = Vec::new();
    for i in 0..fields.len()
        invariant
            out@.len() == i,
            forall|j: int|
                0 <= j < i ==> (#[trigger] out@[j]).model() == path_in(fields@[j].model()),
            forall|j: int|
                0 <= j < i ==> ((#[trigger] out@[j]).model().methods matches Some(m)
                    ==> methods_differ(m)),
    {
        let methods: Option<Vec<MethodItem>> = match read_fields(fields[i].text.as_str()) {
            Some(f) => Some(read_methods(&f)),
            None => None,
        };
        out.push(PathItem { path: fields[i].key.clone(), methods });
    }
    let ghost from = json::field_models(fields@);
    assert(path_models(out@) =~= from.map_values(|x: FieldModel| path_in(x)));
    proof {
        assert forall|i: int| 0 <= i < from.len() implies path_models(out@)[i].path
            == (#[trigger] from[i]).key by {}
        assert forall|i: int| 0 <= i < path_models(out@).len() implies ((
        #[trigger] path_models(out@)[i]).methods matches Some(m) ==> methods_differ(m)) by {
            assert(path_models(out@)[i] == out@[i].model());
        }
    }
    out
}

/// Reads the description of the API into a catalogue in order, with one endpoint
/// for a path and a method. What is not recognised is left out.
pub fn parse_openapi(json: &str) -> (r: Result<Vec<Endpoint>, String>)
    ensures
        endpoints_result(r) == catalogue(json@),
        r matches Ok(v) ==> strictly_ordered(endpoint_models(v@)),
{
    let d: json::Document = match json::read_json(json) {
        Ok(d) => d,
        Err(e) => {
            let mut m: String = "JSON invalido do swagger: ".to_owned();
            m.append(e.as_str());
            return Err(m);
        },
    };
    match json::get(&d.fields, "paths") {
        None => Err("swagger sem objeto 'paths'".to_owned()),
        Some(f) => match read_fields(f.text.as_str()) {
            None => Err("swagger sem objeto 'paths'".to_owned()),
            Some(paths) => {
                let items: Vec<PathItem> = read_paths(&paths);
                proof {
                    lemma_endpoints_strict(path_models(items@));
                }
                Ok(list_endpoints(&items))
            },
        },
    }
}

proof fn lemma_by_path()
    ensures
        order::is_order(by_path()),
{
    let lt = by_path();
    assert forall|a: EndpointModel, b: EndpointModel| !(#[trigger] lt(a, b) && lt(b, a)) by {
        text::lemma_order_total(a.path, b.path);
        text::lemma_order_total(a.method, b.method);
    }
    assert forall|a: EndpointModel, b: EndpointModel, c: EndpointModel|
        #![trigger lt(a, b), lt(b, c)]
        !lt(a, b) && !lt(b, c) implies !lt(a, c) by {
        text::lemma_order_total(a.path, b.path);
        text::lemma_order_total(b.path, c.path);
        text::lemma_order_total(a.path, c.path);
        text::lemma_order_negative(a.path, b.path, c.path);
        if a.path == b.path && b.path == c.path {
            text::lemma_order_negative(a.method, b.method, c.method);
        } else if a.path == c.path {
            text::lemma_order_total(b.path, a.path);
        }
    }
}

/// Whether each endpoint comes before those behind it.
pub open spec fn strictly_ordered(v: Seq<EndpointModel>) -> bool {
    forall|i: int, j: int|
        0 <= i < j < v.len() ==> endpoint_before(#[trigger] v[i], #[trigger] v[j])
}

/// Where no two paths are the same, nor two keys of one of them, the endpoints
/// are strictly in order: there is one for a path and a method.
pub proof fn lemma_endpoints_strict(paths: Seq<PathModel>)
    requires
        paths_differ(paths),
    ensures
        strictly_ordered(endpoints_of(paths)),
{
    let all = endpoints_until(paths, paths.len() as int);
    let lt = by_path();
    lemma_by_path();
    lemma_endpoints_differ(paths, paths.len() as int);
    assert forall|a: int, b: int| 0 <= a < b < all.len() implies lt(
        #[trigger] all[a],
        #[trigger] all[b],
    ) || lt(all[b], all[a]) by {
        text::lemma_order_total(all[a].path, all[b].path);
        text::lemma_order_total(all[a].method, all[b].method);
    }
    assert forall|i: int, j: int| 0 <= i < j < endpoints_of(paths).len() implies endpoint_before(
        #[trigger] endpoints_of(paths)[i],
        #[trigger] endpoints_of(paths)[j],
    ) by {
        order::lemma_in_order_strict(all, lt, i, j);
    }
}

/// No two endpoints of different paths or keys are the same, and each has the
/// path of one of the first `n`.
proof fn lemma_endpoints_differ(paths: Seq<PathModel>, n: int)
    requires
        0 <= n <= paths.len(),
        paths_differ(paths),
    ensures
        forall|i: int|
            0 <= i < endpoints_until(paths, n).len() ==> exists|k: int|
                0 <= k < n && (#[trigger] paths[k]).path == (#[trigger] endpoints_until(
                    paths,
                    n,
                )[i]).path,
        forall|i: int, j: int|
            0 <= i < j < endpoints_until(paths, n).len() ==> (#[trigger] endpoints_until(
                paths,
                n,
            )[i]).path != (#[trigger] endpoints_until(paths, n)[j]).path || endpoints_until(
                paths,
                n,
            )[i].method != endpoints_until(paths, n)[j].method,
    decreases n,
{
    if n > 0 {
        let before = endpoints_until(paths, n - 1);
        let all = endpoints_until(paths, n);
        let path = paths[n - 1].path;
        lemma_endpoints_differ(paths, n - 1);
        match paths[n - 1].methods {
            None => {
                assert(all == before);
            },
            Some(methods) => {
                let m = methods.len() as int;
                let added = operations_until(path, methods, m);
                lemma_operations_differ(path, methods, m);
                assert forall|i: int| 0 <= i < all.len() implies exists|k: int|
                    0 <= k < n && (#[trigger] paths[k]).path == (#[trigger] all[i]).path by {
                    if i < before.len() {
                        assert(all[i] == before[i]);
                        let k = choose|k: int|
                            0 <= k < n - 1 && (#[trigger] paths[k]).path == before[i].path;
                        assert(paths[k].path == all[i].path);
                    } else {
                        assert(all[i] == added[i - before.len()]);
                        assert(paths[n - 1].path == all[i].path);
                    }
                }
                assert forall|i: int, j: int| 0 <= i < j < all.len() implies (
                #[trigger] all[i]).path != (#[trigger] all[j]).path || all[i].method
                    != all[j].method by {
                    if j < before.len() {
                        assert(all[i] == before[i] && all[j] == before[j]);
                    } else if i < before.len() {
                        assert(all[i] == before[i] && all[j] == added[j - before.len()]);
                        let k = choose|k: int|
                            0 <= k < n - 1 && (#[trigger] paths[k]).path == before[i].path;
                        assert(paths[k].path != paths[n - 1].path);
                    } else {
                        assert(all[i] == added[i - before.len()]);
                        assert(all[j] == added[j - before.len()]);
                    }
                }
            },
        }
    }
}

proof fn lemma_operations_differ(path: Seq<char>, methods: Seq<MethodModel>, n: int)
    requires
        0 <= n <= methods.len(),
        methods_differ(methods),
    ensures
        forall|i: int|
            0 <= i < operations_until(path, methods, n).len() ==> (#[trigger] operations_until(
                path,
                methods,
                n,
            )[i]).path == path && exists|k: int|
                0 <= k < n && verb_of((#[trigger] methods[k]).key) == Some(
                    operations_until(path, methods, n)[i].method,
                ),
        forall|i: int, j: int|
            0 <= i < j < operations_until(path, methods, n).len() ==> (#[trigger] operations_until(
                path,
                methods,
                n,
            )[i]).method != (#[trigger] operations_until(path, methods, n)[j]).method,
    decreases n,
{
    if n > 0 {
        let before = operations_until(path, methods, n - 1);
        let all = operations_until(path, methods, n);
        lemma_operations_differ(path, methods, n - 1);
        assert forall|i: int| 0 <= i < all.len() implies (#[trigger] all[i]).path == path && exists|
            k: int,
        |
            0 <= k < n && verb_of((#[trigger] methods[k]).key) == Some(all[i].method) by {
            if i < before.len() {
                assert(all[i] == before[i]);
                let k = choose|k: int|
                    0 <= k < n - 1 && verb_of((#[trigger] methods[k]).key) == Some(
                        before[i].method,
                    );
                assert(verb_of(methods[k].key) == Some(all[i].method));
            } else {
                assert(verb_of(methods[n - 1].key) == Some(all[i].method));
            }
        }
        assert forall|i: int, j: int| 0 <= i < j < all.len() implies (#[trigger] all[i]).method != (
        #[trigger] all[j]).method by {
            assert(all[i] == before[i]);
            if j < before.len() {
                assert(all[j] == before[j]);
            } else {
                let k = choose|k: int|
                    0 <= k < n - 1 && verb_of((#[trigger] methods[k]).key) == Some(
                        before[i].method,
                    );
                assert(methods[k].key != methods[n - 1].key);
                lemma_verbs_differ(methods[k].key, methods[n - 1].key);
            }
        }
    }
}

proof fn lemma_verbs_differ(a: Seq<char>, b: Seq<char>)
    requires
        a != b,
        verb_of(a) is Some,
        verb_of(b) is Some,
    ensures
        verb_of(a) != verb_of(b),
{
    reveal_strlit("GET");
    reveal_strlit("POST");
    reveal_strlit("PUT");
    reveal_strlit("PATCH");
    reveal_strlit("DELETE");
    reveal_strlit("HEAD");
    reveal_strlit("OPTIONS");
    let x = verb_of(a)->0;
    let y = verb_of(b)->0;
    if x == y {
        assert(x[0] == y[0] && x[1] == y[1] && x.len() == y.len());
    }
}

/// A catalogue is in order, by path and then by method.
pub proof fn lemma_catalogue(s: Seq<char>)
    requires
        catalogue(s) is Ok,
    ensures
        forall|i: int, j: int|
            0 <= i < j < catalogue(s)->Ok_0.len() ==> !endpoint_before(
                #[trigger] catalogue(s)->Ok_0[j],
                #[trigger] catalogue(s)->Ok_0[i],
            ),
{
    let f = json::field_with(json::json_read(s)->Ok_0.fields, "paths"@)->0;
    let paths = fields_in(f.text)->0.map_values(|x: FieldModel| path_in(x));
    let all = endpoints_until(paths, paths.len() as int);
    lemma_by_path();
    assert forall|i: int, j: int| 0 <= i < j < catalogue(s)->Ok_0.len() implies !endpoint_before(
        #[trigger] catalogue(s)->Ok_0[j],
        #[trigger] catalogue(s)->Ok_0[i],
    ) by {
        order::lemma_in_order_sorted(all, by_path(), i, j);
    }
}

// ---------------------------------------------------------------------------
// Requests
// ---------------------------------------------------------------------------
/// The outcome of a request.
#[derive(Debug)]
pub struct LcuResult {
    pub status: u16,
    pub body: String,
    /// The headers of the response.
    pub headers: Vec<(String, String)>,
}

/// The value of an `LcuResult`.
#[verifier::ext_equal]
pub struct ResultModel {
    pub status: u16,
    pub body: Seq<char>,
    pub headers: Seq<(Seq<char>, Seq<char>)>,
}

/// Whether a request has been answered.
#[derive(Debug)]
pub enum LcuPoll {
    Pending,
    Done(Result<LcuResult, String>),
    Closed,
}

/// The value of the first header with a name, up to ASCII case.
pub open spec fn header_value(h: Seq<(Seq<char>, Seq<char>)>, name: Seq<char>) -> Option<Seq<char>>
    decreases h.len(),
{
    if h.len() == 0 {
        None
    } else if text::same_ignoring_case(h[0].0, name) {
        Some(h[0].1)
    } else {
        header_value(h.skip(1), name)
    }
}

/// The headers of a response; a value that is no text counts as empty.
pub open spec fn plain_headers(h: Seq<(Seq<char>, Option<Seq<char>>)>) -> Seq<
    (Seq<char>, Seq<char>),
> {
    h.map_values(
        |x: (Seq<char>, Option<Seq<char>>)|
            (
                x.0,
                match x.1 {
                    Some(v) => v,
                    None => Seq::empty(),
                },
            ),
    )
}

impl LcuResult {
    /// The value of the outcome.
    pub open spec fn model(self) -> ResultModel {
        ResultModel {
            status: self.status,
            body: self.body@,
            headers: web::pairs(self.headers@),
        }
    }

    /// The outcome of a response.
    pub fn received(status: u16, headers: &Vec<RawHeader>, body: &[u8]) -> (r: Self)
        ensures
            r.model() == (ResultModel {
                status,
                body: bytes::utf8_text(body@),
                headers: plain_headers(web::raw_views(headers@)),
            }),
    {
        let ghost want = plain_headers(web::raw_views(headers@));
        let mut out: Vec<(String, String)> = Vec::new();
        for i in 0..headers.len()
            invariant
                want == plain_headers(web::raw_views(headers@)),
                want.len() == headers@.len(),
                out@.len() == i,
                web::pairs(out@) == want.take(i as int),
        {
            let name: String = headers[i].0.clone();
            let value: String = match &headers[i].1 {
                Some(v) => v.clone(),
                None => {
                    let none: String = String::new();
                    assert(none@ =~= Seq::<char>::empty());
                    none
                },
            };
            let ghost before = out@;
            proof {
                assert(web::raw_views(headers@)[i as int] == (
                    headers@[i as int].0@,
                    text::option_view(headers@[i as int].1),
                ));
                assert(want[i as int] == (name@, value@));
            }
            out.push((name, value));
            proof {
                assert(web::pairs(out@) =~= web::pairs(before).push(want[i as int]));
                assert(want.take(i + 1) =~= want.take(i as int).push(want[i as int]));
            }
        }
        proof {
            assert(want.take(want.len() as int) =~= want);
        }
        LcuResult { status, body: bytes::utf8_string(body), headers: out }
    }

    /// The value of the first header with a name, up to ASCII case.
    pub fn header(&self, name: &str) -> (r: Option<&str>)
        ensures
            match r {
                Some(v) => header_value(self.model().headers, name@) == Some(v@),
                None => header_value(self.model().headers, name@) is None,
            },
    {
        let ghost all = web::pairs(self.headers@);
        let n: usize = self.headers.len();
        let mut i: usize = 0;
        proof {
            assert(all.skip(0) =~= all);
        }
        while i < n
            invariant
                n == self.headers@.len(),
                i <= n,
                all == web::pairs(self.headers@),
                header_value(all.skip(i as int), name@) == header_value(all, name@),
            decreases n - i,
        {
            proof {
                assert(all.skip(i as int)[0] == (
                    self.headers@[i as int].0@,
                    self.headers@[i as int].1@,
                ));
                assert(all.skip(i as int).skip(1) =~= all.skip(i + 1));
            }
            if text::same_str_any_case(self.headers[i].0.as_str(), name) {
                return Some(self.headers[i].1.as_str());
            }
            i = i + 1;
        }
        None
    }
}

/// A request to the API, ready to be sent.
#[derive(Debug)]
pub struct Plan {
    pub method: String,
    pub uri: String,
    pub headers: Vec<(String, String)>,
    pub body: String,
}

/// The value of a `Plan`.
#[verifier::ext_equal]
pub struct PlanModel {
    pub method: Seq<char>,
    pub uri: Seq<char>,
    pub headers: Seq<(Seq<char>, Seq<char>)>,
    pub body: Seq<char>,
}

impl Plan {
    /// The value of the request.
    pub open spec fn model(self) -> PlanModel {
        PlanModel {
            method: self.method@,
            uri: self.uri@,
            headers: web::pairs(self.headers@),
            body: self.body@,
        }
    }
}

/// Whether a header is among the given ones, whatever the case of its letters.
pub open spec fn is_given(extra: Seq<(Seq<char>, Seq<char>)>, name: Seq<char>) -> bool {
    exists|i: int|
        0 <= i < extra.len() && text::same_ignoring_case((#[trigger] extra[i]).0, name)
}

/// Headers with one more, unless it is among the given ones.
pub open spec fn with_default(
    h: Seq<(Seq<char>, Seq<char>)>,
    extra: Seq<(Seq<char>, Seq<char>)>,
    name: Seq<char>,
    value: Seq<char>,
) -> Seq<(Seq<char>, Seq<char>)> {
    if is_given(extra, name) {
        h
    } else {
        h.push((name, value))
    }
}

/// The headers of a request: what it accepts, its authorisation, the type of
/// its body if it has one, and the given ones, which take the place of those.
pub open spec fn request_headers(
    auth: Option<Seq<char>>,
    body: Seq<char>,
    extra: Seq<(Seq<char>, Seq<char>)>,
) -> Seq<(Seq<char>, Seq<char>)> {
    let accept = with_default(Seq::empty(), extra, "Accept"@, "application/json"@);
    let authorised = match auth {
        Some(a) => with_default(accept, extra, "Authorization"@, a),
        None => accept,
    };
    let typed = if body.len() > 0 {
        with_default(authorised, extra, "Content-Type"@, "application/json"@)
    } else {
        authorised
    };
    typed + extra
}

/// The target of a request to a port of this machine.
pub open spec fn target_of(port: u16, path: Seq<char>) -> Seq<char> {
    let root = if path.len() > 0 && path[0] == '/' {
        path
    } else {
        "/"@ + path
    };
    "https://127.0.0.1:"@ + text::decimal(port as nat) + root
}

/// A request to a port of this machine, given what there is to say against its
/// target; a message if its method is none or its target is no URI.
pub open spec fn planned_with(
    refused: Option<Seq<char>>,
    port: u16,
    auth: Option<Seq<char>>,
    method: Seq<char>,
    path: Seq<char>,
    body: Seq<char>,
    extra: Seq<(Seq<char>, Seq<char>)>,
) -> Result<PlanModel, Seq<char>> {
    let m = text::uppered(text::trimmed(method));
    if !web::is_method(m) {
        Err("metodo HTTP invalido"@)
    } else {
        match refused {
            Some(e) => Err("montar requisicao: "@ + e),
            None => Ok(
                PlanModel {
                    method: m,
                    uri: target_of(port, path),
                    headers: request_headers(auth, body, extra),
                    body,
                },
            ),
        }
    }
}

/// A request to a port of this machine; a message if its method is none or its
/// target is no URI.
pub open spec fn planned(
    port: u16,
    auth: Option<Seq<char>>,
    method: Seq<char>,
    path: Seq<char>,
    body: Seq<char>,
    extra: Seq<(Seq<char>, Seq<char>)>,
) -> Result<PlanModel, Seq<char>> {
    planned_with(web::uri_error(target_of(port, path)), port, auth, method, path, body, extra)
}

/// The value of a planned request.
pub open spec fn plan_result(r: Result<Plan, String>) -> Result<PlanModel, Seq<char>> {
    match r {
        Ok(p) => Ok(p.model()),
        Err(e) => Err(e@),
    }
}

/// Appends a header.
fn push_header(out: &mut Vec<(String, String)>, name: &str, value: &str)
    ensures
        web::pairs(final(out)@) == web::pairs(old(out)@).push((name@, value@)),
{
    let ghost before = out@;
    out.push((name.to_owned(), value.to_owned()));
    proof {
        assert(web::pairs(out@) =~= web::pairs(before).push((name@, value@)));
    }
}

/// Appends a header, unless it is among the given ones.
fn push_default(
    out: &mut Vec<(String, String)>,
    extra: &Vec<(String, String)>,
    name: &str,
    value: &str,
)
    ensures
        web::pairs(final(out)@) == with_default(
            web::pairs(old(out)@),
            web::pairs(extra@),
            name@,
            value@,
        ),
{
    let ghost all = web::pairs(extra@);
    for i in 0..extra.len()
        invariant
            all == web::pairs(extra@),
            *out == *old(out),
            forall|j: int|
                0 <= j < i ==> !text::same_ignoring_case((#[trigger] all[j]).0, name@),
    {
        assert(all[i as int] == (extra@[i as int].0@, extra@[i as int].1@));
        if text::same_str_any_case(extra[i].0.as_str(), name) {
            return;
        }
    }
    push_header(out, name, value);
}

/// Finds the target of a request to a port of this machine.
fn target(port: u16, path: &str) -> (r: String)
    ensures
        r@ == target_of(port, path@),
{
    let chars: Vec<char> = text::chars_of(path);
    let root: String = if chars.len() > 0 && chars[0] == '/' {
        path.to_owned()
    } else {
        let mut s: String = "/".to_owned();
        s.append(path);
        s
    };
    let mut uri: String = "https://127.0.0.1:".to_owned();
    uri.append(text::write_decimal(port as u64).as_str());
    uri.append(root.as_str());
    uri
}

/// Plans a request to a port of this machine. Headers are taken as they are:
/// what cannot stand in one is refused when the request is sent.
pub fn plan_request(
    port: u16,
    auth: Option<String>,
    method: &str,
    path: &str,
    body: String,
    extra: &Vec<(String, String)>,
) -> (r: Result<Plan, String>)
    ensures
        plan_result(r) == planned(
            port,
            text::option_view(auth),
            method@,
            path@,
            body@,
            web::pairs(extra@),
        ),
{
    let refused: Option<String> = web::refused_uri(target(port, path).as_str());
    plan_with(refused, port, auth, method, path, body, extra)
}

/// Plans a request to a port of this machine, given what there is to say
/// against its target.
pub fn plan_with(
    refused: Option<String>,
    port: u16,
    auth: Option<String>,
    method: &str,
    path: &str,
    body: String,
    extra: &Vec<(String, String)>,
) -> (r: Result<Plan, String>)
    ensures
        plan_result(r) == planned_with(
            text::option_view(refused),
            port,
            text::option_view(auth),
            method@,
            path@,
            body@,
            web::pairs(extra@),
        ),
{
    let m: String = text::string_of(&text::uppercase(text::trim(&text::chars_of(method))));
    if !web::accepted_method(m.as_str()) {
        return Err("metodo HTTP invalido".to_owned());
    }
    match refused {
        Some(e) => {
            let mut m: String = "montar requisicao: ".to_owned();
            m.append(e.as_str());
            return Err(m);
        },
        None => {},
    }
    let uri: String = target(port, path);
    let mut headers: Vec<(String, String)> = Vec::new();
    proof {
        assert(web::pairs(headers@) =~= Seq::<(Seq<char>, Seq<char>)>::empty());
    }
    push_default(&mut headers, extra, "Accept", "application/json");
    match &auth {
        Some(a) => {
            push_default(&mut headers, extra, "Authorization", a.as_str());
        },
        None => {},
    }
    if body.as_str().unicode_len() > 0 {
        push_default(&mut headers, extra, "Content-Type", "application/json");
    }
    let ghost typed = web::pairs(headers@);
    let ghost all = web::pairs(extra@);
    proof {
        assert(typed + all.take(0) =~= typed);
    }
    for i in 0..extra.len()
        invariant
            all == web::pairs(extra@),
            web::pairs(headers@) == typed + all.take(i as int),
    {
        push_header(&mut headers, extra[i].0.as_str(), extra[i].1.as_str());
        proof {
            assert(all[i as int] == (extra@[i as int].0@, extra@[i as int].1@));
            assert(web::pairs(headers@) =~= typed + all.take(i + 1));
        }
    }
    proof {
        assert(all.take(all.len() as int) =~= all);
    }
    Ok(Plan { method: m, uri, headers, body })
}

/// A given header takes the place of a default: no other header of a request
/// has its name.
pub proof fn lemma_given_header(
    auth: Option<Seq<char>>,
    body: Seq<char>,
    extra: Seq<(Seq<char>, Seq<char>)>,
    i: int,
)
    requires
        0 <= i < request_headers(auth, body, extra).len(),
        is_given(extra, request_headers(auth, body, extra)[i].0),
    ensures
        i >= request_headers(auth, body, extra).len() - extra.len(),
{
}

// ---------------------------------------------------------------------------
// Audit
// ---------------------------------------------------------------------------
/// What one endpoint gave away.
#[derive(Debug)]
pub struct Finding {
    pub label: String,
    pub path: String,
    pub status: u16,
    /// Whether the endpoint answered with something sensitive.
    pub leaked: bool,
    pub note: String,
}

/// The value of a `Finding`.
#[verifier::ext_equal]
pub struct FindingModel {
    pub label: Seq<char>,
    pub path: Seq<char>,
    pub status: u16,
    pub leaked: bool,
    pub note: Seq<char>,
}

impl Finding {
    /// The value of the finding.
    pub open spec fn model(self) -> FindingModel {
        FindingModel {
            label: self.label@,
            path: self.path@,
            status: self.status,
            leaked: self.leaked,
            note: self.note@,
        }
    }
}

/// The report of an audit.
#[derive(Debug)]
pub struct AuditReport {
    /// Where the token lies in plain text.
    pub lockfile_note: String,
    pub findings: Vec<Finding>,
}

/// The label and the path of each sensitive endpoint.
pub open spec fn sensitive() -> Seq<(Seq<char>, Seq<char>)> {
    seq![
        ("Access token RSO (JWT da conta)"@, "/lol-rso-auth/v1/authorization/access-token"@),
        ("Entitlements + access token"@, "/entitlements/v1/token"@),
        ("Summoner atual (PII: nome, puuid)"@, "/lol-summoner/v1/current-summoner"@),
        ("Sessao de login (account/puuid)"@, "/lol-login/v1/session"@),
        ("Perfil de chat (PII)"@, "/lol-chat/v1/me"@),
    ]
}

/// Lists the sensitive endpoints.
pub fn probes() -> (r: Vec<(String, String)>)
    ensures
        web::pairs(r@) == sensitive(),
{
    let mut out: Vec<(String, String)> = Vec::new();
    push_header(
        &mut out,
        "Access token RSO (JWT da conta)",
        "/lol-rso-auth/v1/authorization/access-token",
    );
    push_header(&mut out, "Entitlements + access token", "/entitlements/v1/token");
    push_header(
        &mut out,
        "Summoner atual (PII: nome, puuid)",
        "/lol-summoner/v1/current-summoner",
    );
    push_header(&mut out, "Sessao de login (account/puuid)", "/lol-login/v1/session");
    push_header(&mut out, "Perfil de chat (PII)", "/lol-chat/v1/me");
    proof {
        assert(web::pairs(out@) =~= sensitive());
    }
    out
}

/// Whether an answer holds something: a success with more than an empty
/// object or list.
pub open spec fn holds_data(status: u16, body: Seq<char>) -> bool {
    let b = text::trimmed(body);
    200 <= status < 300 && vstd::utf8::encode_utf8(b).len() > 2 && b != "{}"@ && b != "[]"@
}

/// What one endpoint gave away, given its answer or why there was none.
pub open spec fn found(
    label: Seq<char>,
    path: Seq<char>,
    answer: Result<ResultModel, Seq<char>>,
) -> FindingModel {
    match answer {
        Ok(r) => {
            let leaked = holds_data(r.status, r.body);
            FindingModel {
                label,
                path,
                status: r.status,
                leaked,
                note: if leaked {
                    "expos "@ + text::decimal(
                        vstd::utf8::encode_utf8(text::trimmed(r.body)).len(),
                    ) + " bytes de dados"@
                } else {
                    "sem conteudo sensivel / nao autorizado"@
                },
            }
        },
        Err(e) => FindingModel { label, path, status: 0, leaked: false, note: e },
    }
}

/// The value of an answer.
pub open spec fn answer_view(r: Result<LcuResult, String>) -> Result<ResultModel, Seq<char>> {
    match r {
        Ok(x) => Ok(x.model()),
        Err(e) => Err(e@),
    }
}

/// Judges the answer of one endpoint.
pub fn judge(label: &str, path: &str, answer: Result<LcuResult, String>) -> (r: Finding)
    ensures
        r.model() == found(label@, path@, answer_view(answer)),
{
    match answer {
        Ok(x) => {
            let body: String = text::string_of(text::trim(&text::chars_of(x.body.as_str())));
            let len: usize = body.as_str().as_bytes().len();
            let leaked: bool = 200 <= x.status && x.status < 300 && len > 2 && !text::same_str(
                body.as_str(),
                "{}",
            ) && !text::same_str(body.as_str(), "[]");
            let note: String = if leaked {
                let mut n: String = "expos ".to_owned();
                n.append(text::write_decimal(len as u64).as_str());
                n.append(" bytes de dados");
                n
            } else {
                "sem conteudo sensivel / nao autorizado".to_owned()
            };
            Finding {
                label: label.to_owned(),
                path: path.to_owned(),
                status: x.status,
                leaked,
                note,
            }
        },
        Err(e) => Finding {
            label: label.to_owned(),
            path: path.to_owned(),
            status: 0,
            leaked: false,
            note: e,
        },
    }
}

/// Where the token lies in plain text, given whether the client runs and the
/// path of its lockfile.
pub open spec fn lockfile_note(running: bool, path: Option<Seq<char>>) -> Seq<char> {
    if !running {
        "Client nao esta em execucao."@
    } else {
        match path {
            Some(p) => "Token em TEXTO PURO no lockfile: "@ + p
                + " — legivel por qualquer processo do usuario."@,
            None => "Client em execucao, mas a pasta nao foi obtida (rode como Admin)."@,
        }
    }
}

/// Says where the token lies in plain text.
pub fn lockfile_location_note(running: bool, path: Option<String>) -> (r: String)
    ensures
        r@ == lockfile_note(running, text::option_view(path)),
{
    if !running {
        return "Client nao esta em execucao.".to_owned();
    }
    match path {
        Some(p) => {
            let mut r: String = "Token em TEXTO PURO no lockfile: ".to_owned();
            r.append(p.as_str());
            r.append(" — legivel por qualquer processo do usuario.");
            r
        },
        None => "Client em execucao, mas a pasta nao foi obtida (rode como Admin).".to_owned(),
    }
}

} // verus!
