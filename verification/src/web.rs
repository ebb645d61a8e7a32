//! HTTP messages as text: methods, targets, headers and bodies.
use crate::bytes;
use crate::text;
use vstd::prelude::*;

verus! {

/// What `http::Uri` has to say against a text, if it is no URI.
pub uninterp spec fn uri_error(s: Seq<char>) -> Option<Seq<char>>;

/// Calls `<http::Uri as FromStr>::from_str` and keeps the text of its error.
/// The contract names the result.
#[verifier::external_body]
pub(crate) fn refused_uri(s: &str) -> (r: Option<String>)
    ensures
        text::option_view(r) == uri_error(s@),
{
    match s.parse::<http::Uri>() {
        Ok(_) => None,
        Err(e) => Some(e.to_string()),
    }
}

/// A character that the name of a method may have.
pub open spec fn is_method_char(c: char) -> bool {
    ||| 'a' <= c <= 'z'
    ||| 'A' <= c <= 'Z'
    ||| '0' <= c <= '9'
    ||| c == '!' || c == '#' || c == '$' || c == '%' || c == '&' || c == '\'' || c == '*'
    ||| c == '+' || c == '-' || c == '.' || c == '^' || c == '_' || c == '`' || c == '|'
    ||| c == '~'
}

/// Whether a text is the name of a method.
pub open spec fn is_method(s: Seq<char>) -> bool {
    s.len() > 0 && forall|i: int| 0 <= i < s.len() ==> is_method_char(#[trigger] s[i])
}

/// Calls `http::Method::from_bytes`. The contract says that it accepts the
/// texts of one or more token characters and no others.
#[verifier::external_body]
pub(crate) fn accepted_method(s: &str) -> (r: bool)
    ensures
        r == is_method(s@),
{
    http::Method::from_bytes(s.as_bytes()).is_ok()
}

/// The values of pairs of texts.
pub open spec fn pairs(v: Seq<(String, String)>) -> Seq<(Seq<char>, Seq<char>)> {
    v.map_values(|p: (String, String)| (p.0@, p.1@))
}

/// Whether a header, in lower case, speaks of one connection only.
pub open spec fn is_hop_by_hop(k: Seq<char>) -> bool {
    ||| k == "connection"@
    ||| k == "keep-alive"@
    ||| k == "proxy-authenticate"@
    ||| k == "proxy-authorization"@
    ||| k == "proxy-connection"@
    ||| k == "te"@
    ||| k == "trailers"@
    ||| k == "transfer-encoding"@
    ||| k == "upgrade"@
}

/// The header that a line stands for, if it is to be sent on.
pub open spec fn header_of(line: Seq<char>) -> Option<(Seq<char>, Seq<char>)> {
    match text::cut(line, text::Class::Is(':')) {
        None => None,
        Some((k, v)) => {
            let name = text::trimmed(k);
            let low = text::ascii_lowered(name);
            if name.len() == 0 || is_hop_by_hop(low) || low == "content-length"@ {
                None
            } else {
                Some((name, text::trimmed(v)))
            }
        },
    }
}

/// The headers to be sent on among the first `n` lines.
pub open spec fn headers_until(lines: Seq<Seq<char>>, n: int) -> Seq<(Seq<char>, Seq<char>)>
    decreases n,
{
    if n <= 0 {
        Seq::empty()
    } else {
        match header_of(lines[n - 1]) {
            Some(h) => headers_until(lines, n - 1).push(h),
            None => headers_until(lines, n - 1),
        }
    }
}

/// The headers to be sent on of a text: its lines `name: value`, without those
/// that speak of one connection only and without the length of the body, which
/// is computed anew.
pub open spec fn sent_headers(s: Seq<char>) -> Seq<(Seq<char>, Seq<char>)> {
    headers_until(text::lines_of(s), text::lines_of(s).len() as int)
}

/// Compares a header in lower case with those that speak of one connection.
fn hop_by_hop(k: &[char]) -> (r: bool)
    ensures
        r == is_hop_by_hop(k@),
{
    text::is_text(k, "connection") || text::is_text(k, "keep-alive") || text::is_text(
        k,
        "proxy-authenticate",
    ) || text::is_text(k, "proxy-authorization") || text::is_text(k, "proxy-connection")
        || text::is_text(k, "te") || text::is_text(k, "trailers") || text::is_text(
        k,
        "transfer-encoding",
    ) || text::is_text(k, "upgrade")
}

/// Reads the header of a line.
fn parse_header(line: &[char]) -> (r: Option<(String, String)>)
    ensures
        match r {
            Some((k, v)) => header_of(line@) == Some((k@, v@)),
            None => header_of(line@) is None,
        },
{
    match text::split_once(line, text::Class::Is(':')) {
        None => None,
        Some((k, v)) => {
            let name: &[char] = text::trim(k);
            let low: Vec<char> = text::ascii_lowercase(name);
            if name.len() == 0 || hop_by_hop(&low) || text::is_text(&low, "content-length") {
                None
            } else {
                Some((text::string_of(name), text::string_of(text::trim(v))))
            }
        },
    }
}

/// Reads the headers to be sent on.
pub fn filtered_header_lines(s: &str) -> (r: Vec<(String, String)>)
    ensures
        pairs(r@) == sent_headers(s@),
{
    let chars: Vec<char> = text::chars_of(s);
    let lines: Vec<&[char]> = text::lines(&chars);
    let ghost all = text::lines_of(s@);
    let mut out: Vec<(String, String)> = Vec::new();
    proof {
        assert(pairs(out@) =~= Seq::<(Seq<char>, Seq<char>)>::empty());
    }
    for i in 0..lines.len()
        invariant
            text::views(lines@) == all,
            pairs(out@) == headers_until(all, i as int),
    {
        assert(all[i as int] == lines@[i as int]@);
        match parse_header(lines[i]) {
            Some(h) => {
                proof {
                    assert(pairs(out@.push(h)) =~= pairs(out@).push((h.0@, h.1@)));
                }
                out.push(h);
            },
            None => {},
        }
    }
    out
}

/// No header that is sent on is empty, speaks of one connection only or gives
/// the length of the body.
pub proof fn lemma_headers_filtered(s: Seq<char>, i: int)
    requires
        0 <= i < sent_headers(s).len(),
    ensures
        ({
            let low = text::ascii_lowered(sent_headers(s)[i].0);
            &&& sent_headers(s)[i].0.len() > 0
            &&& !is_hop_by_hop(low)
            &&& low != "content-length"@
        }),
{
    lemma_headers_until(text::lines_of(s), text::lines_of(s).len() as int, i);
}

proof fn lemma_headers_until(lines: Seq<Seq<char>>, n: int, i: int)
    requires
        0 <= i < headers_until(lines, n).len(),
    ensures
        ({
            let low = text::ascii_lowered(headers_until(lines, n)[i].0);
            &&& headers_until(lines, n)[i].0.len() > 0
            &&& !is_hop_by_hop(low)
            &&& low != "content-length"@
        }),
    decreases n,
{
    if n > 0 && i < headers_until(lines, n - 1).len() {
        lemma_headers_until(lines, n - 1, i);
    }
}

/// A header as received: its value may not be text.
pub type RawHeader = (String, Option<String>);

/// The values of received headers.
pub open spec fn raw_views(v: Seq<RawHeader>) -> Seq<(Seq<char>, Option<Seq<char>>)> {
    v.map_values(|h: RawHeader| (h.0@, text::option_view(h.1)))
}

/// The first `n` headers as text, one line each.
pub open spec fn shown_headers(h: Seq<(Seq<char>, Option<Seq<char>>)>, n: int) -> Seq<char>
    decreases n,
{
    if n <= 0 {
        Seq::empty()
    } else {
        shown_headers(h, n - 1) + h[n - 1].0 + ": "@ + (match h[n - 1].1 {
            Some(v) => v,
            None => "<binário>"@,
        }) + "\n"@
    }
}

/// Writes headers as text.
pub fn fmt_headers(h: &Vec<RawHeader>) -> (r: String)
    ensures
        r@ == shown_headers(raw_views(h@), h@.len() as int),
{
    let ghost all = raw_views(h@);
    let mut s: String = String::new();
    for i in 0..h.len()
        invariant
            all == raw_views(h@),
            s@ == shown_headers(all, i as int),
    {
        assert(all[i as int] == (h@[i as int].0@, text::option_view(h@[i as int].1)));
        s.append(h[i].0.as_str());
        s.append(": ");
        match &h[i].1 {
            Some(v) => {
                s.append(v.as_str());
            },
            None => {
                s.append("<binário>");
            },
        }
        s.append("\n");
    }
    s
}

/// Whether a text can be the name of a header.
pub open spec fn is_name(n: Seq<char>) -> bool {
    n.len() > 0 && forall|i: int|
        0 <= i < n.len() ==> #[trigger] n[i] != ':' && !text::is_space(n[i])
}

/// Whether a text can be the value of a header: one line without space around
/// it.
pub open spec fn is_value(v: Seq<char>) -> bool {
    &&& forall|i: int| 0 <= i < v.len() ==> #[trigger] v[i] != '\n'
    &&& v.len() > 0 ==> !text::is_space(v[0]) && !text::is_space(v.last())
}

/// The first `n` headers, without those that are never sent on.
pub open spec fn kept_headers(h: Seq<(Seq<char>, Seq<char>)>, n: int) -> Seq<
    (Seq<char>, Seq<char>),
>
    decreases n,
{
    if n <= 0 {
        Seq::empty()
    } else {
        let low = text::ascii_lowered(h[n - 1].0);
        let before = kept_headers(h, n - 1);
        if is_hop_by_hop(low) || low == "content-length"@ {
            before
        } else {
            before.push(h[n - 1])
        }
    }
}

/// Headers as received, all of them text.
pub open spec fn as_received(h: Seq<(Seq<char>, Seq<char>)>) -> Seq<
    (Seq<char>, Option<Seq<char>>),
> {
    h.map_values(|p: (Seq<char>, Seq<char>)| (p.0, Some(p.1)))
}

/// Headers that are written as text and read again are the same, in their
/// order, but for those that are never sent on.
pub proof fn lemma_headers_roundtrip(h: Seq<(Seq<char>, Seq<char>)>)
    requires
        forall|i: int|
            0 <= i < h.len() ==> is_name((#[trigger] h[i]).0) && is_value(h[i].1),
    ensures
        sent_headers(shown_headers(as_received(h), h.len() as int)) == kept_headers(
            h,
            h.len() as int,
        ),
{
    lemma_shown_lines(h, h.len() as int);
}

proof fn lemma_shown_lines(h: Seq<(Seq<char>, Seq<char>)>, n: int)
    requires
        0 <= n <= h.len(),
        forall|i: int|
            0 <= i < h.len() ==> is_name((#[trigger] h[i]).0) && is_value(h[i].1),
    ensures
        ({
            let s = shown_headers(as_received(h), n);
            &&& s.len() == 0 || s.last() == '\n'
            &&& text::lines_of(s).len() == n
            &&& headers_until(text::lines_of(s), n) == kept_headers(h, n)
        }),
    decreases n,
{
    if n > 0 {
        lemma_shown_lines(h, n - 1);
        let before = shown_headers(as_received(h), n - 1);
        let (name, value) = h[n - 1];
        assert(is_name(h[n - 1].0) && is_value(h[n - 1].1));
        let line = name + ": "@ + value;
        let s = shown_headers(as_received(h), n);
        reveal_strlit(": ");
        reveal_strlit("\n");
        assert(as_received(h)[n - 1] == (name, Some(value)));
        assert(s =~= before + line.push('\n'));
        assert forall|i: int| 0 <= i < line.len() implies #[trigger] line[i] != '\n' by {
            if i < name.len() {
                assert(line[i] == name[i]);
                assert(!text::is_space(name[i]));
            } else if i >= name.len() + 2 {
                assert(line[i] == value[i - name.len() - 2]);
            }
        }
        if value.len() > 0 {
            assert(line.last() == value.last());
        }
        text::lemma_one_line(line);
        text::lemma_lines_append(before, line.push('\n'));
        lemma_header_line(name, value);
        let lines = text::lines_of(s);
        assert(lines.len() == n);
        assert(lines[n - 1] == line);
        lemma_headers_prefix(text::lines_of(before), lines, n - 1);
    }
}

proof fn lemma_headers_prefix(a: Seq<Seq<char>>, b: Seq<Seq<char>>, n: int)
    requires
        0 <= n <= a.len() <= b.len(),
        forall|i: int| 0 <= i < n ==> a[i] == b[i],
    ensures
        headers_until(a, n) == headers_until(b, n),
    decreases n,
{
    if n > 0 {
        lemma_headers_prefix(a, b, n - 1);
    }
}

/// The header of a line that was written from a name and a value.
proof fn lemma_header_line(name: Seq<char>, value: Seq<char>)
    requires
        is_name(name),
        is_value(value),
    ensures
        header_of(name + ": "@ + value) == (if is_hop_by_hop(text::ascii_lowered(name))
            || text::ascii_lowered(name) == "content-length"@ {
            None
        } else {
            Some((name, value))
        }),
{
    reveal_strlit(": ");
    let line = name + ": "@ + value;
    let k = text::Class::Is(':');
    let n = name.len() as int;
    assert forall|i: int| 0 <= i < n implies !text::in_class(#[trigger] line[i], k) by {
        assert(line[i] == name[i]);
    }
    assert(line[n] == ':');
    text::lemma_first_in_is(line, k, n);
    assert(line.take(n) =~= name);
    let rest = line.skip(n + 1);
    assert(rest.len() == value.len() + 1);
    assert(rest[0] == ' ');
    assert(rest.skip(1) =~= value);
    assert(text::trimmed_start(rest, text::Class::Space) == text::trimmed_start(
        value,
        text::Class::Space,
    ));
    assert(text::trimmed(rest) == value);
    assert(!text::is_space(name[0]) && !text::is_space(name[n - 1]));
    assert(text::trimmed(name) == name);
}

/// A body as it is shown: its first 8192 bytes as text, and how many more
/// there are.
pub open spec fn preview(b: Seq<u8>) -> Seq<char> {
    if b.len() > 8192 {
        bytes::utf8_text(b.take(8192)) + ("\n… (+"@ + text::decimal((b.len() - 8192) as nat)
            + " bytes)"@)
    } else {
        bytes::utf8_text(b)
    }
}

/// Shows a body.
pub fn body_preview(b: &[u8]) -> (r: String)
    ensures
        r@ == preview(b@),
{
    let n: usize = b.len();
    if n > 8192 {
        let head: &[u8] = vstd::slice::slice_subrange(b, 0, 8192);
        proof {
            assert(head@ =~= b@.take(8192));
        }
        let mut s: String = bytes::utf8_string(head);
        let mut more: String = "\n… (+".to_owned();
        more.append(text::write_decimal((n - 8192) as u64).as_str());
        more.append(" bytes)");
        s.append(more.as_str());
        s
    } else {
        bytes::utf8_string(b)
    }
}

/// An answer of the program itself: a status and a message.
#[derive(Debug)]
pub struct Refusal {
    pub status: u16,
    pub message: String,
}

/// The value of a `Refusal`.
pub struct RefusalModel {
    pub status: u16,
    pub message: Seq<char>,
}

impl Refusal {
    /// The value of the answer.
    pub open spec fn model(self) -> RefusalModel {
        RefusalModel { status: self.status, message: self.message@ }
    }

    /// The body of the answer.
    pub fn body(&self) -> (r: String)
        ensures
            r@ == "Quarry proxy: "@ + self.message@,
    {
        let mut r: String = "Quarry proxy: ".to_owned();
        r.append(self.message.as_str());
        r
    }
}

/// The UTF-8 bytes of a text.
pub fn utf8_bytes(s: &str) -> (r: Vec<u8>)
    ensures
        r@ == vstd::utf8::encode_utf8(s@),
{
    let b: &[u8] = s.as_bytes();
    let mut out: Vec<u8> = Vec::new();
    bytes::push_bytes(&mut out, b);
    proof {
        assert(out@ =~= b@);
    }
    out
}

} // verus!
