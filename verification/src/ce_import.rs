//! Import of Cheat Engine tables (`.CT`).
//!
//! A table is XML: `<CheatTable><CheatEntries><CheatEntry>...`. An entry has a
//! description, a variable type, an address (absolute, `module.exe+offset` or
//! the base of a pointer) and, if it is a pointer, a list of `<Offset>`.
//! Entries may be nested; the tree is flattened.
use crate::text;
use crate::value::ValueType;
use vstd::prelude::*;

verus! {

/// `char::from_u32`: the character with a code point, unless that is a
/// surrogate or above the last one.
pub assume_specification[ char::from_u32 ](i: u32) -> (r: Option<char>)
    ensures
        r == char_with(i as int),
;

/// The character with a code point.
pub open spec fn char_with(n: int) -> Option<char> {
    if 0 <= n <= 0xD7FF || 0xE000 <= n <= 0x10FFFF {
        Some(n as char)
    } else {
        None
    }
}

/// An imported entry, whose address is not resolved yet.
#[derive(Debug)]
pub struct CeEntry {
    pub desc: String,
    /// `None` for a type that has no equivalent.
    pub value_type: Option<ValueType>,
    /// The module that the address is relative to.
    pub module: Option<String>,
    /// The offset in the module, or the absolute address.
    pub base: u64,
    /// The offsets of a pointer, from the base to the target.
    pub offsets: Vec<u64>,
    /// The bytes to read of a string, zero for a number.
    pub str_len: usize,
}

/// The value of a `CeEntry`.
#[verifier::ext_equal]
pub struct EntryModel {
    pub desc: Seq<char>,
    pub value_type: Option<ValueType>,
    pub module: Option<Seq<char>>,
    pub base: u64,
    pub offsets: Seq<u64>,
    pub str_len: usize,
}

impl CeEntry {
    /// The value of the entry.
    pub open spec fn model(self) -> EntryModel {
        EntryModel {
            desc: self.desc@,
            value_type: self.value_type,
            module: text::option_view(self.module),
            base: self.base,
            offsets: self.offsets@,
            str_len: self.str_len,
        }
    }

    /// Whether the entry is a pointer: it has an offset.
    pub fn is_pointer(&self) -> (r: bool)
        ensures
            r == (self.model().offsets.len() > 0),
    {
        self.offsets.len() > 0
    }
}

/// A piece of XML.
#[derive(Debug)]
pub enum Tok {
    Start(String),
    End(String),
    Text(String),
}

/// The value of a `Tok`.
pub enum TokModel {
    Start(Seq<char>),
    End(Seq<char>),
    Text(Seq<char>),
}

impl Tok {
    /// The value of the piece.
    pub open spec fn model(self) -> TokModel {
        match self {
            Tok::Start(n) => TokModel::Start(n@),
            Tok::End(n) => TokModel::End(n@),
            Tok::Text(t) => TokModel::Text(t@),
        }
    }
}

/// The values of pieces.
pub open spec fn tok_models(v: Seq<Tok>) -> Seq<TokModel> {
    v.map_values(|t: Tok| t.model())
}

// ---------------------------------------------------------------------------
// XML
// ---------------------------------------------------------------------------
/// The name of a tag: up to the first space or `/`, in lower case.
pub open spec fn name_of(s: Seq<char>) -> Seq<char> {
    text::ascii_lowered(s.take(text::first_in(s, text::Class::SpaceOr('/'))))
}

/// Reads the name of a tag.
fn tag_name(s: &[char]) -> (r: String)
    ensures
        r@ == name_of(s@),
{
    let end: usize = text::find(s, text::Class::SpaceOr('/'));
    text::string_of(&text::ascii_lowercase(text::up_to(s, end)))
}

/// The code point of a numeric entity, without `&` and `;`.
pub open spec fn entity_code(ent: Seq<char>) -> Option<int> {
    let hexadecimal = if ent.len() > 1 && ent[0] == '#' && (ent[1] == 'x' || ent[1] == 'X') {
        text::unsigned(ent.skip(2), 16, u32::MAX as int)
    } else {
        None
    };
    match hexadecimal {
        Some(n) => Some(n),
        None => if ent.len() > 0 && ent[0] == '#' {
            text::unsigned(ent.skip(1), 10, u32::MAX as int)
        } else {
            None
        },
    }
}

/// The character of an entity, without `&` and `;`.
pub open spec fn entity(ent: Seq<char>) -> Option<char> {
    if ent == "lt"@ {
        Some('<')
    } else if ent == "gt"@ {
        Some('>')
    } else if ent == "amp"@ {
        Some('&')
    } else if ent == "quot"@ {
        Some('"')
    } else if ent == "apos"@ {
        Some('\'')
    } else {
        match entity_code(ent) {
            Some(n) => char_with(n),
            None => None,
        }
    }
}

/// A text with its entities replaced; an unknown entity stays, and so does `&`
/// without `;` behind it.
pub open spec fn unescaped(s: Seq<char>) -> Seq<char>
    decreases s.len(),
    via unescaped_decreases
{
    let amp = text::first_in(s, text::Class::Is('&'));
    if amp >= s.len() {
        s
    } else {
        let rest = s.skip(amp);
        let semi = text::first_in(rest, text::Class::Is(';'));
        if semi < rest.len() {
            let shown = match entity(rest.subrange(1, semi)) {
                Some(c) => seq![c],
                None => rest.take(semi + 1),
            };
            s.take(amp) + shown + unescaped(rest.skip(semi + 1))
        } else {
            s.take(amp) + seq!['&'] + unescaped(rest.skip(1))
        }
    }
}

#[via_fn]
proof fn unescaped_decreases(s: Seq<char>) {
    text::lemma_first_in(s, text::Class::Is('&'));
    let amp = text::first_in(s, text::Class::Is('&'));
    if amp < s.len() {
        text::lemma_first_in(s.skip(amp), text::Class::Is(';'));
    }
}

/// Reads the code point of a numeric entity.
fn parse_code(ent: &[char]) -> (r: Option<u32>)
    ensures
        match r {
            Some(n) => entity_code(ent@) == Some(n as int),
            None => entity_code(ent@) is None,
        },
{
    if ent.len() > 1 && ent[0] == '#' && (ent[1] == 'x' || ent[1] == 'X') {
        match text::parse_unsigned(text::from_index(ent, 2), 16, u32::MAX as u64) {
            Some(n) => {
                return Some(n as u32);
            },
            None => {},
        }
    }
    if ent.len() > 0 && ent[0] == '#' {
        match text::parse_unsigned(text::from_index(ent, 1), 10, u32::MAX as u64) {
            Some(n) => Some(n as u32),
            None => None,
        }
    } else {
        None
    }
}

/// Reads an entity.
fn parse_entity(ent: &[char]) -> (r: Option<char>)
    ensures
        r == entity(ent@),
{
    if text::is_text(ent, "lt") {
        Some('<')
    } else if text::is_text(ent, "gt") {
        Some('>')
    } else if text::is_text(ent, "amp") {
        Some('&')
    } else if text::is_text(ent, "quot") {
        Some('"')
    } else if text::is_text(ent, "apos") {
        Some('\'')
    } else {
        match parse_code(ent) {
            Some(n) => char::from_u32(n),
            None => None,
        }
    }
}

/// Replaces the entities of a text: one without `&` stays as it is, what stands
/// before the first `&` is kept, and a text that is written with entities reads
/// back as itself.
pub fn unescape(s: &str) -> (r: String)
    ensures
        r@ == unescaped(s@),
        !s@.contains('&') ==> r@ == s@,
        forall|p: Seq<char>, t: Seq<char>|
            !p.contains('&') && s@ == #[trigger] (p + t) ==> r@ == p + unescaped(t),
        forall|t: Seq<char>| s@ == #[trigger] escaped(t) ==> r@ == t,
{
    proof {
        if !s@.contains('&') {
            lemma_nothing_to_unescape(s@);
        }
        assert forall|p: Seq<char>, t: Seq<char>|
            !p.contains('&') && s@ == #[trigger] (p + t) implies unescaped(s@) == p + unescaped(
            t,
        ) by {
            lemma_unescape_prefix(p, t);
        }
        assert forall|t: Seq<char>| s@ == #[trigger] escaped(t) implies unescaped(s@) == t by {
            lemma_escaped_roundtrip(t);
        }
    }
    text::string_of(&replace_entities(&text::chars_of(s)))
}

/// Replaces the entities of some characters.
fn replace_entities(s: &[char]) -> (r: Vec<char>)
    ensures
        r@ == unescaped(s@),
{
    let mut out: Vec<char> = Vec::new();
    let mut i: usize = 0;
    let n: usize = s.len();
    proof {
        assert(s@.skip(0) =~= s@);
        assert(out@ + unescaped(s@.skip(0)) =~= unescaped(s@));
    }
    while i < n
        invariant
            n == s@.len(),
            i <= n,
            out@ + unescaped(s@.skip(i as int)) == unescaped(s@),
        decreases n - i,
    {
        let here: &[char] = text::from_index(s, i);
        let amp: usize = text::find(here, text::Class::Is('&'));
        let ghost before = out@;
        text::push_all(&mut out, text::up_to(here, amp));
        if amp >= here.len() {
            proof {
                assert(here@.take(amp as int) =~= here@);
            }
            return out;
        }
        let rest: &[char] = text::from_index(here, amp);
        let semi: usize = text::find(rest, text::Class::Is(';'));
        proof {
            text::lemma_first_in(rest@, text::Class::Is(';'));
            assert(rest@[0] == '&');
        }
        if semi < rest.len() {
            let ent: &[char] = vstd::slice::slice_subrange(rest, 1, semi);
            match parse_entity(ent) {
                Some(c) => {
                    out.push(c);
                    proof {
                        assert(out@ =~= before + (here@.take(amp as int) + seq![c]));
                    }
                },
                None => {
                    text::push_all(&mut out, text::up_to(rest, semi + 1));
                    proof {
                        assert(out@ =~= before + (here@.take(amp as int) + rest@.take(semi + 1)));
                    }
                },
            }
            i = i + amp + semi + 1;
            proof {
                assert(rest@.skip(semi + 1) =~= s@.skip(i as int));
                assert(out@ + unescaped(s@.skip(i as int)) =~= before + unescaped(here@));
            }
        } else {
            out.push('&');
            i = i + amp + 1;
            proof {
                assert(rest@.skip(1) =~= s@.skip(i as int));
                assert(out@ + unescaped(s@.skip(i as int)) =~= before + unescaped(here@));
            }
        }
    }
    proof {
        assert(s@.skip(n as int) =~= Seq::<char>::empty());
        assert(unescaped(s@.skip(n as int)) =~= Seq::<char>::empty());
        assert(out@ =~= unescaped(s@));
    }
    out
}

/// A text without `&` is not changed.
pub proof fn lemma_nothing_to_unescape(s: Seq<char>)
    requires
        !s.contains('&'),
    ensures
        unescaped(s) == s,
{
    text::lemma_first_in(s, text::Class::Is('&'));
    if text::first_in(s, text::Class::Is('&')) < s.len() {
        assert(s.contains('&'));
    }
}

/// What stands before the first `&` is kept.
pub proof fn lemma_unescape_prefix(p: Seq<char>, t: Seq<char>)
    requires
        !p.contains('&'),
    ensures
        unescaped(p + t) == p + unescaped(t),
{
    let k = text::Class::Is('&');
    let amp = text::first_in(t, k);
    let s = p + t;
    text::lemma_first_in(t, k);
    assert forall|i: int| 0 <= i < p.len() + amp implies !text::in_class(#[trigger] s[i], k) by {
        if i < p.len() {
            assert(p.contains(p[i]));
        } else {
            assert(s[i] == t[i - p.len()]);
        }
    }
    text::lemma_first_in_is(s, k, p.len() + amp);
    if amp < t.len() {
        assert(s.skip(p.len() + amp) =~= t.skip(amp));
        assert(s.take(p.len() + amp) =~= p + t.take(amp));
        let rest = t.skip(amp);
        let semi = text::first_in(rest, text::Class::Is(';'));
        if semi < rest.len() {
            let shown = match entity(rest.subrange(1, semi)) {
                Some(c) => seq![c],
                None => rest.take(semi + 1),
            };
            let tail = unescaped(rest.skip(semi + 1));
            assert(p + t.take(amp) + shown + tail =~= p + (t.take(amp) + shown + tail));
        } else {
            let tail = unescaped(rest.skip(1));
            assert(p + t.take(amp) + seq!['&'] + tail =~= p + (t.take(amp) + seq!['&'] + tail));
        }
    }
}

/// A character as it is written in a text with entities.
pub open spec fn escape_of(c: char) -> Seq<char> {
    if c == '&' {
        "&amp;"@
    } else if c == '<' {
        "&lt;"@
    } else if c == '>' {
        "&gt;"@
    } else if c == '"' {
        "&quot;"@
    } else if c == '\'' {
        "&apos;"@
    } else {
        seq![c]
    }
}

/// A text with entities in place of the characters that XML keeps for itself.
pub open spec fn escaped(s: Seq<char>) -> Seq<char>
    decreases s.len(),
{
    if s.len() == 0 {
        s
    } else {
        escape_of(s[0]) + escaped(s.skip(1))
    }
}

/// A known entity is replaced by its character.
proof fn lemma_entity(ent: Seq<char>, c: char, tail: Seq<char>)
    requires
        entity(ent) == Some(c),
        !ent.contains(';'),
    ensures
        unescaped(seq!['&'] + ent + seq![';'] + tail) == seq![c] + unescaped(tail),
{
    let s = seq!['&'] + ent + seq![';'] + tail;
    text::lemma_first_in_is(s, text::Class::Is('&'), 0);
    assert(s.skip(0) =~= s);
    assert(s.take(0) =~= Seq::<char>::empty());
    let k = text::Class::Is(';');
    let n = ent.len() as int;
    assert forall|i: int| 0 <= i < n + 1 implies !text::in_class(#[trigger] s[i], k) by {
        if i > 0 {
            assert(s[i] == ent[i - 1]);
            assert(ent.contains(ent[i - 1]));
        }
    }
    text::lemma_first_in_is(s, k, n + 1);
    assert(s.subrange(1, n + 1) =~= ent);
    assert(s.skip(n + 2) =~= tail);
    assert(Seq::<char>::empty() + seq![c] + unescaped(tail) =~= seq![c] + unescaped(tail));
}

/// A text that is written with entities reads back as itself.
pub proof fn lemma_escaped_roundtrip(s: Seq<char>)
    ensures
        unescaped(escaped(s)) == s,
    decreases s.len(),
{
    if s.len() == 0 {
        lemma_nothing_to_unescape(s);
    } else {
        let c = s[0];
        let tail = escaped(s.skip(1));
        lemma_escaped_roundtrip(s.skip(1));
        assert(s =~= seq![c] + s.skip(1));
        let ent = if c == '&' {
            "amp"@
        } else if c == '<' {
            "lt"@
        } else if c == '>' {
            "gt"@
        } else if c == '"' {
            "quot"@
        } else {
            "apos"@
        };
        reveal_strlit("&amp;");
        reveal_strlit("&lt;");
        reveal_strlit("&gt;");
        reveal_strlit("&quot;");
        reveal_strlit("&apos;");
        reveal_strlit("amp");
        reveal_strlit("lt");
        reveal_strlit("gt");
        reveal_strlit("quot");
        reveal_strlit("apos");
        if c == '&' || c == '<' || c == '>' || c == '"' || c == '\'' {
            assert(ent == "amp"@ ==> ent[0] == 'a' && ent[1] == 'm');
            assert(ent == "apos"@ ==> ent.len() == 4);
            assert(ent == "quot"@ ==> ent[0] == 'q');
            assert(ent == "gt"@ ==> ent[0] == 'g');
            assert(escape_of(c) =~= seq!['&'] + ent + seq![';']);
            lemma_entity(ent, c, tail);
        } else {
            lemma_unescape_prefix(seq![c], tail);
        }
    }
}

/// The pieces that a tag stands for, without its brackets: one that ends in
/// `/` starts and ends.
pub open spec fn tag(inner: Seq<char>) -> Seq<TokModel> {
    let t = text::trimmed(inner);
    if t.len() > 0 && t[0] == '/' {
        seq![TokModel::End(name_of(t.skip(1)))]
    } else if t.len() > 0 && t.last() == '/' {
        seq![TokModel::Start(name_of(t)), TokModel::End(name_of(t))]
    } else {
        seq![TokModel::Start(name_of(t))]
    }
}

/// The piece that a text between tags stands for; a blank one is dropped.
pub open spec fn between(s: Seq<char>) -> Seq<TokModel> {
    let t = unescaped(s);
    if text::trimmed(t).len() == 0 {
        Seq::empty()
    } else {
        seq![TokModel::Text(t)]
    }
}

/// Whether a text starts with the opening of a comment.
pub open spec fn opens_comment(s: Seq<char>) -> bool {
    s.len() >= 4 && s.take(4) == "<!--"@
}

/// Whether a text starts with the opening of a CDATA section.
pub open spec fn opens_cdata(s: Seq<char>) -> bool {
    s.len() >= 9 && s.take(9) == "<![CDATA["@
}

/// The pieces of a text. Attributes, comments, CDATA sections and declarations
/// are dropped; an opening without an end ends the text.
pub open spec fn tokens(s: Seq<char>) -> Seq<TokModel>
    decreases s.len(),
    via tokens_decreases
{
    let close = text::first_in(s, text::Class::Is('>'));
    if s.len() == 0 {
        Seq::empty()
    } else if s[0] != '<' {
        let n = text::first_in(s, text::Class::Is('<'));
        between(s.take(n)) + tokens(s.skip(n))
    } else if opens_comment(s) {
        match text::position(s, "-->"@) {
            Some(e) => tokens(s.skip(e + 3)),
            None => Seq::empty(),
        }
    } else if opens_cdata(s) {
        match text::position(s, "]]>"@) {
            Some(e) => tokens(s.skip(e + 3)),
            None => Seq::empty(),
        }
    } else if close >= s.len() {
        Seq::empty()
    } else if s.len() > 1 && (s[1] == '?' || s[1] == '!') {
        tokens(s.skip(close + 1))
    } else {
        tag(s.subrange(1, close)) + tokens(s.skip(close + 1))
    }
}

#[via_fn]
proof fn tokens_decreases(s: Seq<char>) {
    text::lemma_first_in(s, text::Class::Is('>'));
    text::lemma_first_in(s, text::Class::Is('<'));
    text::lemma_position(s, "-->"@);
    text::lemma_position(s, "]]>"@);
    reveal_strlit("-->");
    reveal_strlit("]]>");
    if s.len() > 0 && s[0] != '<' {
        assert(text::first_in(s, text::Class::Is('<')) > 0);
    }
}

/// Appends the pieces that a tag stands for.
fn push_tag(inner: &[char], out: &mut Vec<Tok>)
    ensures
        tok_models(final(out)@) == tok_models(old(out)@) + tag(inner@),
{
    let ghost before = out@;
    let t: &[char] = text::trim(inner);
    let n: usize = t.len();
    if n > 0 && t[0] == '/' {
        let end: Tok = Tok::End(tag_name(text::from_index(t, 1)));
        out.push(end);
        proof {
            assert(tok_models(out@) =~= tok_models(before) + tag(inner@));
        }
    } else {
        let name: String = tag_name(t);
        let again: String = name.clone();
        out.push(Tok::Start(name));
        if n > 0 && t[n - 1] == '/' {
            out.push(Tok::End(again));
        }
        proof {
            assert(tok_models(out@) =~= tok_models(before) + tag(inner@));
        }
    }
}

/// Appends the piece that a text between tags stands for.
fn push_between(s: &[char], out: &mut Vec<Tok>)
    ensures
        tok_models(final(out)@) == tok_models(old(out)@) + between(s@),
{
    let ghost before = out@;
    let t: String = unescape(text::string_of(s).as_str());
    if text::trim(&text::chars_of(t.as_str())).len() > 0 {
        out.push(Tok::Text(t));
    }
    proof {
        assert(tok_models(out@) =~= tok_models(before) + between(s@));
    }
}

/// Cuts a text into pieces.
fn tokenize(xml: &[char]) -> (r: Vec<Tok>)
    ensures
        tok_models(r@) == tokens(xml@),
{
    let comment: Vec<char> = text::chars_of("<!--");
    let comment_end: Vec<char> = text::chars_of("-->");
    let cdata: Vec<char> = text::chars_of("<![CDATA[");
    let cdata_end: Vec<char> = text::chars_of("]]>");
    proof {
        reveal_strlit("<!--");
        reveal_strlit("-->");
        reveal_strlit("<![CDATA[");
        reveal_strlit("]]>");
    }
    let mut out: Vec<Tok> = Vec::new();
    let n: usize = xml.len();
    let mut i: usize = 0;
    proof {
        assert(xml@.skip(0) =~= xml@);
        assert(tok_models(out@) + tokens(xml@.skip(0)) =~= tokens(xml@));
    }
    while i < n
        invariant
            n == xml@.len(),
            i <= n,
            comment@ == "<!--"@,
            comment@.len() == 4,
            comment_end@ == "-->"@,
            comment_end@.len() == 3,
            cdata@ == "<![CDATA["@,
            cdata@.len() == 9,
            cdata_end@ == "]]>"@,
            cdata_end@.len() == 3,
            tok_models(out@) + tokens(xml@.skip(i as int)) == tokens(xml@),
        decreases n - i,
    {
        let rest: &[char] = text::from_index(xml, i);
        let ghost before = tok_models(out@);
        proof {
            text::lemma_first_in(rest@, text::Class::Is('>'));
            text::lemma_first_in(rest@, text::Class::Is('<'));
        }
        if rest[0] != '<' {
            let len: usize = text::find(rest, text::Class::Is('<'));
            push_between(text::up_to(rest, len), &mut out);
            i = i + len;
            proof {
                assert(rest@.skip(len as int) =~= xml@.skip(i as int));
                assert(tok_models(out@) + tokens(xml@.skip(i as int)) =~= before + tokens(rest@));
            }
        } else if text::starts_with(rest, &comment) {
            match text::find_text(rest, &comment_end) {
                Some(end) => {
                    i = i + end + 3;
                    proof {
                        assert(rest@.skip(end + 3) =~= xml@.skip(i as int));
                    }
                },
                None => {
                    proof {
                        assert(before + tokens(rest@) =~= before);
                    }
                    return out;
                },
            }
        } else if text::starts_with(rest, &cdata) {
            match text::find_text(rest, &cdata_end) {
                Some(end) => {
                    i = i + end + 3;
                    proof {
                        assert(rest@.skip(end + 3) =~= xml@.skip(i as int));
                    }
                },
                None => {
                    proof {
                        assert(before + tokens(rest@) =~= before);
                    }
                    return out;
                },
            }
        } else {
            let close: usize = text::find(rest, text::Class::Is('>'));
            if close >= rest.len() {
                proof {
                    assert(before + tokens(rest@) =~= before);
                }
                return out;
            }
            if !(rest.len() > 1 && (rest[1] == '?' || rest[1] == '!')) {
                push_tag(vstd::slice::slice_subrange(rest, 1, close), &mut out);
            }
            i = i + close + 1;
            proof {
                assert(rest@.skip(close + 1) =~= xml@.skip(i as int));
                assert(tok_models(out@) + tokens(xml@.skip(i as int)) =~= before + tokens(rest@));
            }
        }
    }
    proof {
        assert(xml@.skip(n as int) =~= Seq::<char>::empty());
        assert(tok_models(out@) + tokens(xml@.skip(n as int)) =~= tok_models(out@));
    }
    out
}

// ---------------------------------------------------------------------------
// Entries
// ---------------------------------------------------------------------------
/// A text without the quotes around it.
pub open spec fn unquoted(s: Seq<char>) -> Seq<char> {
    let t = text::trimmed(s);
    if t.len() > 1 && t[0] == '"' && t.last() == '"' {
        t.subrange(1, t.len() - 1)
    } else {
        t
    }
}

/// The value of a hexadecimal number, with or without `0x`.
pub open spec fn hex_value(s: Seq<char>) -> Option<int> {
    let t = text::trimmed(s);
    if t.len() > 1 && t[0] == '0' && (t[1] == 'x' || t[1] == 'X') {
        text::unsigned(t.skip(2), 16, u64::MAX as int)
    } else {
        text::unsigned(t, 16, u64::MAX as int)
    }
}

/// The type that a name stands for.
pub open spec fn type_of(t: Seq<char>, unicode: bool) -> Option<ValueType> {
    let low = text::ascii_lowered(text::trimmed(t));
    if low == "byte"@ {
        Some(ValueType::I8)
    } else if low == "2 bytes"@ {
        Some(ValueType::I16)
    } else if low == "4 bytes"@ {
        Some(ValueType::I32)
    } else if low == "8 bytes"@ {
        Some(ValueType::I64)
    } else if low == "float"@ {
        Some(ValueType::F32)
    } else if low == "double"@ {
        Some(ValueType::F64)
    } else if low == "string"@ {
        Some(
            if unicode {
                ValueType::StringUtf16
            } else {
                ValueType::StringUtf8
            },
        )
    } else {
        None
    }
}

/// The module and the offset of an address: `module+offset`, an absolute
/// number or a module alone.
pub open spec fn address_of(s: Seq<char>) -> Option<(Option<Seq<char>>, u64)> {
    let t = text::trimmed(s);
    let plus = text::first_in(t, text::Class::Is('+'));
    if t.len() == 0 {
        None
    } else if plus < t.len() {
        let module = text::trimmed(unquoted(t.take(plus)));
        match hex_value(t.skip(plus + 1)) {
            None => None,
            Some(off) => if module.len() == 0 {
                Some((None, off as u64))
            } else {
                Some((Some(module), off as u64))
            },
        }
    } else {
        match hex_value(t) {
            Some(v) => Some((None, v as u64)),
            None => {
                let module = text::trimmed(unquoted(t));
                if module.len() == 0 {
                    None
                } else {
                    Some((Some(module), 0))
                }
            },
        }
    }
}

/// An entry that is still open.
#[derive(Debug)]
pub struct Builder {
    pub desc: String,
    pub var_type: String,
    pub address: String,
    pub offsets: Vec<u64>,
    pub length: Option<usize>,
    pub unicode: bool,
}

/// The value of a `Builder`.
#[verifier::ext_equal]
pub struct BuilderModel {
    pub desc: Seq<char>,
    pub var_type: Seq<char>,
    pub address: Seq<char>,
    pub offsets: Seq<u64>,
    pub length: Option<usize>,
    pub unicode: bool,
}

/// A builder of which nothing is known yet.
pub open spec fn blank() -> BuilderModel {
    BuilderModel {
        desc: Seq::empty(),
        var_type: Seq::empty(),
        address: Seq::empty(),
        offsets: Seq::empty(),
        length: None,
        unicode: false,
    }
}

impl Builder {
    /// The value of the builder.
    pub open spec fn model(self) -> BuilderModel {
        BuilderModel {
            desc: self.desc@,
            var_type: self.var_type@,
            address: self.address@,
            offsets: self.offsets@,
            length: self.length,
            unicode: self.unicode,
        }
    }

    /// A builder of which nothing is known yet.
    fn new() -> (r: Builder)
        ensures
            r.model() == blank(),
    {
        let r: Builder = Builder {
            desc: String::new(),
            var_type: String::new(),
            address: String::new(),
            offsets: Vec::new(),
            length: None,
            unicode: false,
        };
        proof {
            assert(r.model() =~= blank());
        }
        r
    }
}

/// Twice a number, modulo the size of a word.
pub open spec fn doubled(n: usize) -> usize {
    if 2 * n <= usize::MAX {
        (2 * n) as usize
    } else {
        (2 * n - usize::MAX - 1) as usize
    }
}

/// The bytes to read of an entry: its length for a string, 16 characters if it
/// has none and one at least, with two bytes each in UTF-16.
pub open spec fn bytes_to_read(b: BuilderModel, t: Option<ValueType>) -> usize {
    if t == Some(ValueType::StringUtf8) || t == Some(ValueType::StringUtf16) {
        let given = match b.length {
            Some(n) => n,
            None => 16,
        };
        let chars = if given < 1 {
            1
        } else {
            given
        };
        if b.unicode {
            doubled(chars)
        } else {
            chars
        }
    } else {
        0
    }
}

/// The entry that a builder stands for; `None` for a folder, a script or
/// without an address. The offsets are listed from the last one applied to the
/// first, so they are reversed.
pub open spec fn finished(b: BuilderModel) -> Option<EntryModel> {
    let t = type_of(b.var_type, b.unicode);
    if t is None && b.offsets.len() == 0 {
        None
    } else {
        match address_of(b.address) {
            None => None,
            Some((module, base)) => Some(
                EntryModel {
                    desc: b.desc,
                    value_type: t,
                    module,
                    base,
                    offsets: b.offsets.reverse(),
                    str_len: bytes_to_read(b, t),
                },
            ),
        }
    }
}

/// Removes the quotes around a text.
fn strip_quotes<'a>(s: &'a [char]) -> (r: &'a [char])
    ensures
        r@ == unquoted(s@),
{
    let t: &[char] = text::trim(s);
    let n: usize = t.len();
    if n > 1 && t[0] == '"' && t[n - 1] == '"' {
        vstd::slice::slice_subrange(t, 1, n - 1)
    } else {
        t
    }
}

/// Reads a hexadecimal number.
fn parse_hex(s: &[char]) -> (r: Option<u64>)
    ensures
        match r {
            Some(v) => hex_value(s@) == Some(v as int),
            None => hex_value(s@) is None,
        },
{
    let t: &[char] = text::trim(s);
    if t.len() > 1 && t[0] == '0' && (t[1] == 'x' || t[1] == 'X') {
        text::parse_unsigned(text::from_index(t, 2), 16, u64::MAX)
    } else {
        text::parse_unsigned(t, 16, u64::MAX)
    }
}

/// Reads the name of a type.
fn map_type(t: &[char], unicode: bool) -> (r: Option<ValueType>)
    ensures
        r == type_of(t@, unicode),
{
    let low: Vec<char> = text::ascii_lowercase(text::trim(t));
    if text::is_text(&low, "byte") {
        Some(ValueType::I8)
    } else if text::is_text(&low, "2 bytes") {
        Some(ValueType::I16)
    } else if text::is_text(&low, "4 bytes") {
        Some(ValueType::I32)
    } else if text::is_text(&low, "8 bytes") {
        Some(ValueType::I64)
    } else if text::is_text(&low, "float") {
        Some(ValueType::F32)
    } else if text::is_text(&low, "double") {
        Some(ValueType::F64)
    } else if text::is_text(&low, "string") {
        Some(
            if unicode {
                ValueType::StringUtf16
            } else {
                ValueType::StringUtf8
            },
        )
    } else {
        None
    }
}

/// Reads an address.
fn parse_address(addr: &[char]) -> (r: Option<(Option<String>, u64)>)
    ensures
        match r {
            Some((m, v)) => address_of(addr@) == Some((text::option_view(m), v)),
            None => address_of(addr@) is None,
        },
{
    let t: &[char] = text::trim(addr);
    if t.len() == 0 {
        return None;
    }
    let plus: usize = text::find(t, text::Class::Is('+'));
    if plus < t.len() {
        let module: &[char] = text::trim(strip_quotes(text::up_to(t, plus)));
        let off: u64 = match parse_hex(text::from_index(t, plus + 1)) {
            Some(v) => v,
            None => {
                return None;
            },
        };
        if module.len() == 0 {
            Some((None, off))
        } else {
            Some((Some(text::string_of(module)), off))
        }
    } else {
        match parse_hex(t) {
            Some(v) => Some((None, v)),
            None => {
                let module: &[char] = text::trim(strip_quotes(t));
                if module.len() == 0 {
                    None
                } else {
                    Some((Some(text::string_of(module)), 0))
                }
            },
        }
    }
}

/// Computes the bytes to read of an entry.
fn read_length(b: &Builder, t: Option<ValueType>) -> (r: usize)
    ensures
        r == bytes_to_read(b.model(), t),
{
    let is_string: bool = match t {
        Some(ValueType::StringUtf8) => true,
        Some(ValueType::StringUtf16) => true,
        _ => false,
    };
    if !is_string {
        return 0;
    }
    let given: usize = match b.length {
        Some(n) => n,
        None => 16,
    };
    let chars: usize = if given < 1 {
        1
    } else {
        given
    };
    if b.unicode {
        chars.wrapping_add(chars)
    } else {
        chars
    }
}

/// Copies offsets in reverse order.
fn reversed(v: &Vec<u64>) -> (r: Vec<u64>)
    ensures
        r@ == v@.reverse(),
{
    let mut out: Vec<u64> = Vec::new();
    let mut i: usize = v.len();
    while i > 0
        invariant
            i <= v@.len(),
            out@ == v@.reverse().take(v@.len() - i),
        decreases i,
    {
        i = i - 1;
        out.push(v[i]);
        proof {
            assert(out@ =~= v@.reverse().take(v@.len() - i));
        }
    }
    proof {
        assert(out@ =~= v@.reverse());
    }
    out
}

/// The value of an optional entry.
pub open spec fn entry_view(e: Option<CeEntry>) -> Option<EntryModel> {
    match e {
        Some(x) => Some(x.model()),
        None => None,
    }
}

/// Turns a builder into an entry.
fn finalize(b: Builder) -> (r: Option<CeEntry>)
    ensures
        entry_view(r) == finished(b.model()),
{
    let value_type: Option<ValueType> = map_type(
        &text::chars_of(b.var_type.as_str()),
        b.unicode,
    );
    if value_type.is_none() && b.offsets.len() == 0 {
        return None;
    }
    match parse_address(&text::chars_of(b.address.as_str())) {
        None => None,
        Some((module, base)) => {
            let str_len: usize = read_length(&b, value_type);
            let offsets: Vec<u64> = reversed(&b.offsets);
            Some(CeEntry { desc: b.desc, value_type, module, base, offsets, str_len })
        },
    }
}

// ---------------------------------------------------------------------------
// Tables
// ---------------------------------------------------------------------------
/// What has been read of a table.
#[verifier::ext_equal]
pub struct TableModel {
    pub out: Seq<EntryModel>,
    /// The open entries, the innermost last.
    pub stack: Seq<BuilderModel>,
    /// The last tag, which owns the next text.
    pub tag: Seq<char>,
    pub in_offsets: bool,
}

/// A text inside an entry, owned by a tag.
pub open spec fn noted(b: BuilderModel, tag: Seq<char>, in_offsets: bool, t: Seq<char>) -> BuilderModel {
    if tag == "description"@ {
        BuilderModel { desc: unquoted(t), ..b }
    } else if tag == "variabletype"@ {
        BuilderModel { var_type: text::trimmed(t), ..b }
    } else if tag == "address"@ {
        BuilderModel { address: text::trimmed(t), ..b }
    } else if tag == "length"@ {
        BuilderModel {
            length: match text::unsigned(text::trimmed(t), 10, usize::MAX as int) {
                Some(n) => Some(n as usize),
                None => None,
            },
            ..b
        }
    } else if tag == "unicode"@ {
        BuilderModel { unicode: text::trimmed(t) == "1"@, ..b }
    } else if tag == "offset"@ && in_offsets {
        match hex_value(t) {
            Some(v) => BuilderModel { offsets: b.offsets.push(v as u64), ..b },
            None => b,
        }
    } else {
        b
    }
}

/// Takes in one piece.
pub open spec fn took(s: TableModel, t: TokModel) -> TableModel {
    match t {
        TokModel::Start(name) => if name == "cheatentry"@ {
            TableModel { tag: name, stack: s.stack.push(blank()), ..s }
        } else if name == "offsets"@ {
            TableModel { tag: name, in_offsets: true, ..s }
        } else {
            TableModel { tag: name, ..s }
        },
        TokModel::End(name) => if name == "offsets"@ {
            TableModel { tag: Seq::empty(), in_offsets: false, ..s }
        } else if name == "cheatentry"@ && s.stack.len() > 0 {
            TableModel {
                tag: Seq::empty(),
                stack: s.stack.drop_last(),
                out: match finished(s.stack.last()) {
                    Some(e) => s.out.push(e),
                    None => s.out,
                },
                ..s
            }
        } else {
            TableModel { tag: Seq::empty(), ..s }
        },
        TokModel::Text(t) => if s.stack.len() > 0 {
            TableModel {
                stack: s.stack.drop_last().push(noted(s.stack.last(), s.tag, s.in_offsets, t)),
                ..s
            }
        } else {
            s
        },
    }
}

/// The first `n` pieces taken in.
pub open spec fn taken(toks: Seq<TokModel>, n: int) -> TableModel
    decreases n,
{
    if n <= 0 {
        TableModel {
            out: Seq::empty(),
            stack: Seq::empty(),
            tag: Seq::empty(),
            in_offsets: false,
        }
    } else {
        took(taken(toks, n - 1), toks[n - 1])
    }
}

/// The entries of a table; a message if it has no entry at all.
pub open spec fn table(xml: Seq<char>) -> Result<Seq<EntryModel>, Seq<char>> {
    let toks = tokens(xml);
    if !toks.contains(TokModel::Start("cheatentry"@)) {
        Err("nenhum <CheatEntry> encontrado — o arquivo e um .CT valido?"@)
    } else {
        Ok(taken(toks, toks.len() as int).out)
    }
}

/// The values of entries.
pub open spec fn entry_models(v: Seq<CeEntry>) -> Seq<EntryModel> {
    v.map_values(|e: CeEntry| e.model())
}

/// The values of open entries.
pub open spec fn builder_models(v: Seq<Builder>) -> Seq<BuilderModel> {
    v.map_values(|b: Builder| b.model())
}

/// The value of a read table.
pub open spec fn table_result(r: Result<Vec<CeEntry>, String>) -> Result<
    Seq<EntryModel>,
    Seq<char>,
> {
    match r {
        Ok(v) => Ok(entry_models(v@)),
        Err(e) => Err(e@),
    }
}

/// What has been read of a table.
struct Table {
    out: Vec<CeEntry>,
    stack: Vec<Builder>,
    tag: String,
    in_offsets: bool,
}

impl Table {
    spec fn model(self) -> TableModel {
        TableModel {
            out: entry_models(self.out@),
            stack: builder_models(self.stack@),
            tag: self.tag@,
            in_offsets: self.in_offsets,
        }
    }

    /// Takes in the start of a tag.
    fn start(&mut self, name: &str)
        ensures
            final(self).model() == took(old(self).model(), TokModel::Start(name@)),
    {
        self.tag = name.to_owned();
        if text::same_str(name, "cheatentry") {
            let b: Builder = Builder::new();
            proof {
                assert(builder_models(self.stack@.push(b)) =~= builder_models(self.stack@).push(
                    blank(),
                ));
            }
            self.stack.push(b);
        } else if text::same_str(name, "offsets") {
            self.in_offsets = true;
        }
    }

    /// Takes in the end of a tag.
    fn end(&mut self, name: &str)
        ensures
            final(self).model() == took(old(self).model(), TokModel::End(name@)),
    {
        self.tag = String::new();
        if text::same_str(name, "offsets") {
            self.in_offsets = false;
        } else if text::same_str(name, "cheatentry") {
            let ghost before = self.stack@;
            match self.stack.pop() {
                Some(b) => {
                    proof {
                        assert(builder_models(before).last() == b.model());
                        assert(builder_models(self.stack@) =~= builder_models(before).drop_last());
                    }
                    match finalize(b) {
                        Some(e) => {
                            proof {
                                assert(entry_models(self.out@.push(e)) =~= entry_models(
                                    self.out@,
                                ).push(e.model()));
                            }
                            self.out.push(e);
                        },
                        None => {},
                    }
                },
                None => {},
            }
        }
    }

    /// Takes in a text.
    fn text(&mut self, t: &[char])
        ensures
            final(self).model() == took(old(self).model(), TokModel::Text(t@)),
    {
        let ghost before = self.stack@;
        match self.stack.pop() {
            Some(b) => {
                let mut b: Builder = b;
                let ghost first = b.model();
                note(&mut b, self.tag.as_str(), self.in_offsets, t);
                proof {
                    assert(builder_models(before).last() == first);
                    assert(builder_models(self.stack@) =~= builder_models(before).drop_last());
                    assert(builder_models(self.stack@.push(b)) =~= builder_models(self.stack@).push(
                        b.model(),
                    ));
                }
                self.stack.push(b);
            },
            None => {},
        }
    }
}

/// Takes in a text inside an entry.
fn note(b: &mut Builder, tag: &str, in_offsets: bool, t: &[char])
    ensures
        final(b).model() == noted(old(b).model(), tag@, in_offsets, t@),
{
    if text::same_str(tag, "description") {
        b.desc = text::string_of(strip_quotes(t));
    } else if text::same_str(tag, "variabletype") {
        b.var_type = text::string_of(text::trim(t));
    } else if text::same_str(tag, "address") {
        b.address = text::string_of(text::trim(t));
    } else if text::same_str(tag, "length") {
        b.length = match text::parse_unsigned(text::trim(t), 10, usize::MAX as u64) {
            Some(n) => Some(n as usize),
            None => None,
        };
    } else if text::same_str(tag, "unicode") {
        b.unicode = text::is_text(text::trim(t), "1");
    } else if text::same_str(tag, "offset") && in_offsets {
        match parse_hex(t) {
            Some(v) => {
                b.offsets.push(v);
            },
            None => {},
        }
    }
}

/// Whether some piece starts an entry.
fn has_entry(toks: &Vec<Tok>) -> (r: bool)
    ensures
        r == tok_models(toks@).contains(TokModel::Start("cheatentry"@)),
{
    let ghost want = TokModel::Start("cheatentry"@);
    for i in 0..toks.len()
        invariant
            want == TokModel::Start("cheatentry"@),
            forall|j: int| 0 <= j < i ==> #[trigger] tok_models(toks@)[j] != want,
    {
        assert(tok_models(toks@)[i as int] == toks@[i as int].model());
        match &toks[i] {
            Tok::Start(name) => {
                if text::same_str(name.as_str(), "cheatentry") {
                    return true;
                }
            },
            _ => {},
        }
    }
    false
}

/// Reads a table, with nested entries flattened. Entries without an address or
/// with neither a known type nor offsets are dropped.
pub fn parse(xml: &str) -> (r: Result<Vec<CeEntry>, String>)
    ensures
        table_result(r) == table(xml@),
{
    let toks: Vec<Tok> = tokenize(&text::chars_of(xml));
    let ghost all = tokens(xml@);
    if !has_entry(&toks) {
        return Err("nenhum <CheatEntry> encontrado — o arquivo e um .CT valido?".to_owned());
    }
    let mut t: Table = Table {
        out: Vec::new(),
        stack: Vec::new(),
        tag: String::new(),
        in_offsets: false,
    };
    let n: usize = toks.len();
    proof {
        assert(t.model() =~= taken(all, 0));
    }
    for i in 0..n
        invariant
            n == toks@.len(),
            tok_models(toks@) == all,
            t.model() == taken(all, i as int),
    {
        assert(all[i as int] == toks@[i as int].model());
        match &toks[i] {
            Tok::Start(name) => {
                t.start(name.as_str());
            },
            Tok::End(name) => {
                t.end(name.as_str());
            },
            Tok::Text(s) => {
                t.text(&text::chars_of(s.as_str()));
            },
        }
    }
    Ok(t.out)
}

/// Whether an entry is worth keeping: it has a known type or is a pointer, and
/// only a string has a length.
pub open spec fn worth_keeping(e: EntryModel) -> bool {
    &&& e.value_type is Some || e.offsets.len() > 0
    &&& e.value_type == Some(ValueType::StringUtf8) || e.value_type == Some(
        ValueType::StringUtf16,
    ) || e.str_len == 0
}

/// Every entry of a table is worth keeping, however the table is written:
/// folders and scripts are left out.
pub proof fn lemma_entries(xml: Seq<char>, i: int)
    requires
        table(xml) is Ok,
        0 <= i < table(xml)->Ok_0.len(),
    ensures
        worth_keeping(table(xml)->Ok_0[i]),
{
    lemma_taken(tokens(xml), tokens(xml).len() as int, i);
}

proof fn lemma_taken(toks: Seq<TokModel>, n: int, i: int)
    requires
        0 <= i < taken(toks, n).out.len(),
    ensures
        worth_keeping(taken(toks, n).out[i]),
    decreases n,
{
    if n > 0 {
        let before = taken(toks, n - 1);
        if i < before.out.len() {
            lemma_taken(toks, n - 1, i);
        }
    }
}

} // verus!
