//! Tables of another program: addresses, types and entries.
use crate::ce_import;
use crate::ce_import::{BuilderModel, TokModel};
use crate::laws::games;
use crate::laws::plain;
use crate::laws::texts;
use crate::text;
use crate::text::Class;
use crate::value::ValueType;
use vstd::prelude::*;

verus! {

/// A module name: not empty, without quotes, plus signs and outer white space.
pub open spec fn module_name(m: Seq<char>) -> bool {
    &&& m.len() > 0
    &&& !text::is_space(m[0])
    &&& !text::is_space(m.last())
    &&& forall|i: int| 0 <= i < m.len() ==> #[trigger] m[i] != '"' && m[i] != '+'
}

/// A hexadecimal number is read as its value, if that has 64 bits, with the prefix `0x`
/// or without.
pub proof fn lemma_hexadecimal(h: Seq<char>)
    requires
        plain::is_number(h, 16),
    ensures
        ce_import::hex_value(h) == if plain::value(h, 16) < 0x1_0000_0000_0000_0000 {
            Some(plain::value(h, 16))
        } else {
            None
        },
        ce_import::hex_value("0x"@ + h) == ce_import::hex_value(h),
{
    reveal_strlit("0x");
    plain::lemma_number(h, 16);
    assert(plain::worth(h[0]) is Some);
    assert(plain::worth(h[h.len() - 1]) is Some);
    assert(h.len() > 1 ==> plain::worth(h[1]) is Some);
    texts::lemma_untrimmed(h);
    let p = "0x"@ + h;
    assert(p.last() == h.last());
    assert(p[0] == '0' && p[1] == 'x');
    texts::lemma_untrimmed(p);
    assert(p.skip(2) =~= h);
}

/// The addresses `m+h` and `"m"+h` are read alike: the module is exactly m, and the base
/// is the value of the hexadecimal offset h.
pub proof fn lemma_module_and_offset(m: Seq<char>, h: Seq<char>)
    requires
        module_name(m),
        plain::is_number(h, 16),
    ensures
        ({
            let bare = m + "+"@ + h;
            let quoted = "\""@ + m + "\"+"@ + h;
            let read = if plain::value(h, 16) < 0x1_0000_0000_0000_0000 {
                Some((Some(m), plain::value(h, 16) as u64))
            } else {
                None
            };
            ce_import::address_of(bare) == read && ce_import::address_of(quoted) == read
        }),
{
    reveal_strlit("+");
    reveal_strlit("\"");
    reveal_strlit("\"+");
    lemma_hexadecimal(h);
    assert(plain::worth(h[0]) is Some);
    assert(plain::worth(h[h.len() - 1]) is Some);
    texts::lemma_untrimmed(m);
    let bare = m + "+"@ + h;
    assert(bare[0] == m[0] && bare.last() == h.last());
    texts::lemma_untrimmed(bare);
    assert forall|i: int| 0 <= i < m.len() implies !text::in_class(
        #[trigger] bare[i],
        Class::Is('+'),
    ) by {
        assert(bare[i] == m[i]);
    }
    assert(bare[m.len() as int] == '+');
    text::lemma_first_in_is(bare, Class::Is('+'), m.len() as int);
    assert(bare.take(m.len() as int) =~= m);
    assert(bare.skip(m.len() as int + 1) =~= h);
    let quoted = "\""@ + m + "\"+"@ + h;
    let n = m.len() as int + 2;
    assert(quoted[0] == '"' && quoted.last() == h.last());
    texts::lemma_untrimmed(quoted);
    assert forall|i: int| 0 <= i < n implies !text::in_class(
        #[trigger] quoted[i],
        Class::Is('+'),
    ) by {
        if 1 <= i < n - 1 {
            assert(quoted[i] == m[i - 1]);
        }
    }
    assert(quoted[n] == '+');
    text::lemma_first_in_is(quoted, Class::Is('+'), n);
    let q = quoted.take(n);
    assert(q[0] == '"' && q.last() == '"');
    texts::lemma_untrimmed(q);
    assert(q.subrange(1, n - 1) =~= m);
    assert(quoted.skip(n + 1) =~= h);
}

/// A hexadecimal number alone is an absolute address; a name that is no number is a module,
/// quoted or not, and its base is zero.
pub proof fn lemma_address_alone(h: Seq<char>, m: Seq<char>)
    requires
        plain::is_number(h, 16),
        plain::value(h, 16) < 0x1_0000_0000_0000_0000,
        module_name(m),
        plain::worth(m.last()) is None,
    ensures
        ce_import::address_of(h) == Some((None::<Seq<char>>, plain::value(h, 16) as u64)),
        ce_import::address_of(m) == Some((Some(m), 0u64)),
        ce_import::address_of("\""@ + m + "\""@) == Some((Some(m), 0u64)),
        ce_import::address_of(Seq::empty()) is None,
{
    reveal_strlit("\"");
    lemma_hexadecimal(h);
    assert(plain::worth(h[0]) is Some);
    assert(plain::worth(h[h.len() - 1]) is Some);
    texts::lemma_untrimmed(h);
    assert forall|i: int| 0 <= i < h.len() implies #[trigger] h[i] != '+' by {
        assert(plain::worth(h[i]) is Some);
    }
    texts::lemma_absent(h, '+');
    lemma_no_number(m);
    texts::lemma_untrimmed(m);
    texts::lemma_absent(m, '+');
    let q = "\""@ + m + "\""@;
    assert(q[0] == '"' && q.last() == '"');
    lemma_no_number(q);
    texts::lemma_untrimmed(q);
    assert forall|i: int| 0 <= i < q.len() implies #[trigger] q[i] != '+' by {
        if 1 <= i < q.len() - 1 {
            assert(q[i] == m[i - 1]);
        }
    }
    texts::lemma_absent(q, '+');
    assert(q.subrange(1, q.len() - 1) =~= m);
}

proof fn lemma_no_number(m: Seq<char>)
    requires
        m.len() > 0,
        plain::worth(m.last()) is None,
        !text::is_space(m[0]),
        !text::is_space(m.last()),
    ensures
        ce_import::hex_value(m) is None,
{
    texts::lemma_untrimmed(m);
    plain::lemma_number(m, 16);
    plain::lemma_number(m.skip(1), 16);
    plain::lemma_number(m.skip(2), 16);
    assert(!plain::is_number(m, 16)) by {
        assert(plain::worth(m[m.len() - 1]) is None);
    }
    if m.len() > 1 {
        assert(m.skip(1)[m.len() - 2] == m.last());
        assert(plain::worth(m.skip(1)[m.len() - 2]) is None);
    }
    if m.len() > 2 {
        assert(m.skip(2)[m.len() - 3] == m.last());
        assert(plain::worth(m.skip(2)[m.len() - 3]) is None);
        if m[2] == '+' {
            plain::lemma_number(m.skip(2).skip(1), 16);
            if m.len() > 3 {
                assert(m.skip(2).skip(1)[m.len() - 4] == m.last());
                assert(plain::worth(m.skip(2).skip(1)[m.len() - 4]) is None);
            }
        }
    }
}

/// What the types of a table are: numbers of 1, 2, 4 and 8 bytes, numbers with a fraction
/// of 4 and 8 bytes, and texts, of two bytes a character where the entry says so.
pub proof fn lemma_types(t: Seq<char>, unicode: bool)
    ensures
        ({
            let low = text::ascii_lowered(text::trimmed(t));
            let read = ce_import::type_of(t, unicode);
            &&& low == "byte"@ <==> read == Some(ValueType::I8)
            &&& low == "2 bytes"@ <==> read == Some(ValueType::I16)
            &&& low == "4 bytes"@ <==> read == Some(ValueType::I32)
            &&& low == "8 bytes"@ <==> read == Some(ValueType::I64)
            &&& low == "float"@ <==> read == Some(ValueType::F32)
            &&& low == "double"@ <==> read == Some(ValueType::F64)
            &&& low == "string"@ && unicode <==> read == Some(ValueType::StringUtf16)
            &&& low == "string"@ && !unicode <==> read == Some(ValueType::StringUtf8)
        }),
{
    reveal_strlit("byte");
    reveal_strlit("2 bytes");
    reveal_strlit("4 bytes");
    reveal_strlit("8 bytes");
    reveal_strlit("float");
    reveal_strlit("double");
    reveal_strlit("string");
    assert("byte"@[0] == 'b');
    assert("2 bytes"@[0] == '2');
    assert("4 bytes"@[0] == '4');
    assert("8 bytes"@[0] == '8');
    assert("float"@[0] == 'f');
    assert("double"@[0] == 'd');
    assert("string"@[0] == 's');
}

/// An entry has the module, the base and the type that its texts say; its offsets stand in
/// the opposite order of the table, and of a text as many bytes are read as it has
/// characters, twice as many where a character has two, and sixteen where it says nothing.
pub proof fn lemma_entry(b: BuilderModel)
    ensures
        match ce_import::finished(b) {
            Some(e) => {
                let t = ce_import::type_of(b.var_type, b.unicode);
                let chars = match b.length {
                    Some(n) => if n == 0 {
                        1int
                    } else {
                        n as int
                    },
                    None => 16,
                };
                &&& e.desc == b.desc
                &&& e.value_type == t
                &&& ce_import::address_of(b.address) == Some((e.module, e.base))
                &&& e.offsets.len() == b.offsets.len()
                &&& forall|i: int|
                    0 <= i < e.offsets.len() ==> #[trigger] e.offsets[i] == b.offsets[b.offsets.len()
                        - 1 - i]
                &&& t == Some(ValueType::StringUtf8) ==> e.str_len == chars
                &&& t == Some(ValueType::StringUtf16) && 2 * chars <= usize::MAX ==> e.str_len == 2
                    * chars
                &&& t != Some(ValueType::StringUtf8) && t != Some(ValueType::StringUtf16)
                    ==> e.str_len == 0
            },
            None => {
                ||| ce_import::type_of(b.var_type, b.unicode) is None && b.offsets.len() == 0
                ||| ce_import::address_of(b.address) is None
            },
        },
        ce_import::finished(b) is Some ==> ce_import::type_of(b.var_type, b.unicode) is Some
            || b.offsets.len() > 0,
{
    lemma_types(b.var_type, b.unicode);
}

/// The name of a tag: letters, digits and the like.
pub open spec fn tag_name(n: Seq<char>) -> bool {
    &&& texts::solid(n)
    &&& forall|i: int|
        0 <= i < n.len() ==> #[trigger] n[i] != '<' && n[i] != '>' && n[i] != '/' && n[i] != '!' && n[i]
            != '?'
}

proof fn lemma_name_of(n: Seq<char>)
    requires
        tag_name(n),
    ensures
        ce_import::name_of(n) == text::ascii_lowered(n),
        text::trimmed(n) == n,
{
    texts::lemma_untrimmed(n);
    text::lemma_first_in_is(n, Class::SpaceOr('/'), n.len() as int);
    assert(n.take(n.len() as int) =~= n);
}

proof fn lemma_tag(inner: Seq<char>, rest: Seq<char>)
    requires
        inner.len() > 0,
        inner[0] != '!',
        inner[0] != '?',
        forall|i: int| 0 <= i < inner.len() ==> #[trigger] inner[i] != '>',
    ensures
        ce_import::tokens(seq!['<'] + inner + seq!['>'] + rest) == ce_import::tag(inner)
            + ce_import::tokens(rest),
{
    reveal_strlit("<!--");
    reveal_strlit("<![CDATA[");
    let s = seq!['<'] + inner + seq!['>'] + rest;
    let n = inner.len() as int + 1;
    assert(s[0] == '<' && s[1] == inner[0] && s[n] == '>');
    assert forall|i: int| 0 <= i < n implies !text::in_class(#[trigger] s[i], Class::Is('>')) by {
        if i > 0 {
            assert(s[i] == inner[i - 1]);
        }
    }
    text::lemma_first_in_is(s, Class::Is('>'), n);
    assert("<!--"@[1] == '!' && "<![CDATA["@[1] == '!');
    assert(s.len() >= 4 ==> s.take(4)[1] == s[1]);
    assert(s.len() >= 9 ==> s.take(9)[1] == s[1]);
    assert(s.subrange(1, n) =~= inner);
    assert(s.skip(n + 1) =~= rest);
}

/// `<n>` opens the tag n, `</n>` closes it, and `<n/>` does both; the case of its letters
/// does not count.
pub proof fn lemma_tags(n: Seq<char>, rest: Seq<char>)
    requires
        tag_name(n),
    ensures
        ({
            let low = text::ascii_lowered(n);
            &&& ce_import::tokens(seq!['<'] + n + seq!['>'] + rest) == seq![TokModel::Start(low)]
                + ce_import::tokens(rest)
            &&& ce_import::tokens(seq!['<'] + (seq!['/'] + n) + seq!['>'] + rest) == seq![
                TokModel::End(low),
            ] + ce_import::tokens(rest)
            &&& ce_import::tokens(seq!['<'] + (n + seq!['/']) + seq!['>'] + rest) == seq![
                TokModel::Start(low),
                TokModel::End(low),
            ] + ce_import::tokens(rest)
        }),
{
    lemma_name_of(n);
    assert(n[0] == n[0]);
    lemma_tag(n, rest);
    assert(n.last() == n[n.len() - 1]);
    let e = seq!['/'] + n;
    assert forall|i: int| 0 <= i < e.len() implies #[trigger] e[i] != '>' by {
        if i > 0 {
            assert(e[i] == n[i - 1]);
        }
    }
    lemma_tag(e, rest);
    assert(e[0] == '/' && e.last() == n.last());
    texts::lemma_untrimmed(e);
    assert(e.skip(1) =~= n);
    let c = n + seq!['/'];
    assert forall|i: int| 0 <= i < c.len() implies #[trigger] c[i] != '>' by {
        if i < n.len() {
            assert(c[i] == n[i]);
        }
    }
    lemma_tag(c, rest);
    assert(c[0] == n[0] && c.last() == '/');
    texts::lemma_untrimmed(c);
    let k = n.len() as int;
    assert forall|i: int| 0 <= i < k implies !text::in_class(
        #[trigger] c[i],
        Class::SpaceOr('/'),
    ) by {
        assert(c[i] == n[i]);
    }
    assert(c[k] == '/');
    text::lemma_first_in_is(c, Class::SpaceOr('/'), k);
    assert(c.take(k) =~= n);
}

/// What stands between tags is a text, its entities resolved; white space alone is none.
pub proof fn lemma_text_between(t: Seq<char>, rest: Seq<char>)
    requires
        t.len() > 0,
        forall|i: int| 0 <= i < t.len() ==> #[trigger] t[i] != '<' && t[i] != '&',
    ensures
        ce_import::tokens(t + (seq!['<'] + rest)) == (if text::trimmed(t).len() == 0 {
            Seq::<TokModel>::empty()
        } else {
            seq![TokModel::Text(t)]
        }) + ce_import::tokens(seq!['<'] + rest),
{
    let s = t + (seq!['<'] + rest);
    let n = t.len() as int;
    assert(s[0] == t[0] && s[n] == '<');
    assert forall|i: int| 0 <= i < n implies !text::in_class(#[trigger] s[i], Class::Is('<')) by {
        assert(s[i] == t[i]);
    }
    text::lemma_first_in_is(s, Class::Is('<'), n);
    assert(s.take(n) =~= t);
    assert(s.skip(n) =~= seq!['<'] + rest);
    assert(!t.contains('&')) by {
        if t.contains('&') {
            let i = t.index_of('&');
            assert(t[i] == '&');
        }
    }
    ce_import::lemma_nothing_to_unescape(t);
}

/// A comment is passed over.
pub proof fn lemma_comment(c: Seq<char>, rest: Seq<char>)
    requires
        forall|i: int| 0 <= i < c.len() ==> #[trigger] c[i] != '>',
    ensures
        ce_import::tokens("<!--"@ + c + "-->"@ + rest) == ce_import::tokens(rest),
{
    reveal_strlit("<!--");
    reveal_strlit("-->");
    let s = "<!--"@ + c + "-->"@ + rest;
    let n = 4 + c.len() as int;
    assert(s[0] == '<');
    assert(s.take(4) =~= "<!--"@);
    games::lemma_position(s, "-->"@);
    assert(s[n] == '-' && s[n + 1] == '-' && s[n + 2] == '>');
    assert(games::stands_at(s, "-->"@, n));
    let e = text::position(s, "-->"@)->0;
    assert(games::stands_at(s, "-->"@, e));
    assert(s[e + 2] == "-->"@[2]);
    assert(e <= n) by {
        if e > n {
            assert(!games::stands_at(s, "-->"@, n));
        }
    }
    if e < n {
        assert(s[e + 2] == '>');
        if e + 2 < 4 {
            assert(s[e + 2] == "<!--"@[e + 2]);
        } else if e + 2 < n {
            assert(s[e + 2] == c[e + 2 - 4]);
        } else {
            assert(s[e + 2] == '-');
        }
    }
    assert(e == n);
    assert(s.skip(n + 3) =~= rest);
}

proof fn lemma_tag_words()
    ensures
        "cheatentry"@.len() == 10,
        "cheatentry"@[0] == 'c',
        "description"@.len() == 11,
        "description"@[0] == 'd',
        "variabletype"@.len() == 12,
        "variabletype"@[0] == 'v',
        "address"@.len() == 7,
        "address"@[0] == 'a',
        "offsets"@.len() == 7,
        "offsets"@[0] == 'o',
        "offset"@.len() == 6,
        "offset"@[0] == 'o',
        "length"@.len() == 6,
        "length"@[0] == 'l',
        "unicode"@.len() == 7,
        "unicode"@[0] == 'u',
{
    reveal_strlit("cheatentry");
    reveal_strlit("description");
    reveal_strlit("variabletype");
    reveal_strlit("address");
    reveal_strlit("offsets");
    reveal_strlit("offset");
    reveal_strlit("length");
    reveal_strlit("unicode");
}

/// The text of a tag goes to the innermost open entry, to the part that the tag names, and
/// to no other.
pub proof fn lemma_parts_of_entry(s: ce_import::TableModel, t: Seq<char>)
    requires
        s.stack.len() > 0,
    ensures
        ({
            let b = s.stack.last();
            let put = |tag: Seq<char>, inside: bool|
                ce_import::took(
                    ce_import::TableModel { tag, in_offsets: inside, ..s },
                    TokModel::Text(t),
                ).stack.last();
            &&& put("description"@, false) == BuilderModel { desc: ce_import::unquoted(t), ..b }
            &&& put("variabletype"@, false) == BuilderModel { var_type: text::trimmed(t), ..b }
            &&& put("address"@, false) == BuilderModel { address: text::trimmed(t), ..b }
            &&& put("unicode"@, false) == BuilderModel { unicode: text::trimmed(t) == "1"@, ..b }
            &&& put("offset"@, false) == b
            &&& ce_import::hex_value(t) matches Some(v) ==> put("offset"@, true) == BuilderModel {
                offsets: b.offsets.push(v as u64),
                ..b
            }
            &&& plain::is_number(t, 10) && plain::value(t, 10) < 0x1_0000_0000 ==> put(
                "length"@,
                false,
            ) == BuilderModel { length: Some(plain::value(t, 10) as usize), ..b }
        }),
        ce_import::took(s, TokModel::Text(t)).stack.drop_last() == s.stack.drop_last(),
        ce_import::took(s, TokModel::Text(t)).out == s.out,
{
    lemma_tag_words();
    if plain::is_number(t, 10) {
        plain::lemma_number(t, 10);
        text::lemma_number_nonneg(t, 10);
        assert(plain::worth(t[0]) is Some && plain::worth(t[t.len() - 1]) is Some);
        texts::lemma_untrimmed(t);
    }
    assert(ce_import::took(s, TokModel::Text(t)).stack.drop_last() =~= s.stack.drop_last());
}

/// An entry begins empty inside those that are open, and where it ends it is added to the
/// table, if it can be finished; those that are open stay so.
pub proof fn lemma_entries_nest(s: ce_import::TableModel)
    ensures
        ({
            let a = ce_import::took(s, TokModel::Start("cheatentry"@));
            let b = a.stack.last();
            &&& a.out == s.out && a.stack.drop_last() == s.stack && a.in_offsets == s.in_offsets
            &&& b.desc.len() == 0 && b.var_type.len() == 0 && b.address.len() == 0
            &&& b.offsets.len() == 0 && b.length is None && !b.unicode
        }),
        s.stack.len() > 0 ==> {
            let a = ce_import::took(s, TokModel::End("cheatentry"@));
            &&& a.stack == s.stack.drop_last()
            &&& ce_import::finished(s.stack.last()) matches Some(e) ==> a.out == s.out.push(e)
            &&& ce_import::finished(s.stack.last()) is None ==> a.out == s.out
        },
        ce_import::took(s, TokModel::Start("offsets"@)).in_offsets,
        !ce_import::took(s, TokModel::End("offsets"@)).in_offsets,
{
    lemma_tag_words();
    let a = ce_import::took(s, TokModel::Start("cheatentry"@));
    assert(a.stack.drop_last() =~= s.stack);
}

/// The entities: the five that have names, and characters by their number, in decimal or
/// hexadecimal.
pub proof fn lemma_entities(d: Seq<char>, h: Seq<char>)
    requires
        plain::is_number(d, 10),
        plain::value(d, 10) < 0xD800,
        plain::is_number(h, 16),
        plain::value(h, 16) < 0xD800,
    ensures
        ce_import::entity("lt"@) == Some('<'),
        ce_import::entity("gt"@) == Some('>'),
        ce_import::entity("amp"@) == Some('&'),
        ce_import::entity("quot"@) == Some('"'),
        ce_import::entity("apos"@) == Some('\''),
        ce_import::entity(seq!['#'] + d) matches Some(c) && c as int == plain::value(d, 10),
        ce_import::entity(seq!['#', 'x'] + h) matches Some(c) && c as int == plain::value(h, 16),
{
    reveal_strlit("lt");
    reveal_strlit("gt");
    reveal_strlit("amp");
    reveal_strlit("quot");
    reveal_strlit("apos");
    assert("lt"@[0] == 'l' && "gt"@[0] == 'g' && "amp"@[0] == 'a' && "quot"@[0] == 'q' && "apos"@[0]
        == 'a' && "amp"@[1] == 'm' && "apos"@[1] == 'p');
    plain::lemma_number(d, 10);
    plain::lemma_number(h, 16);
    text::lemma_number_nonneg(d, 10);
    text::lemma_number_nonneg(h, 16);
    assert(plain::worth(d[0]) is Some && plain::worth(d[0])->0 < 10);
    assert(plain::worth(h[0]) is Some);
    let a = seq!['#'] + d;
    let b = seq!['#', 'x'] + h;
    assert(a[0] == '#' && a[1] == d[0] && b[0] == '#' && b[1] == 'x');
    assert(a.skip(1) =~= d);
    assert(b.skip(2) =~= h);
}

/// A text in quotes is what stands between them, and a text without quotes is itself.
pub proof fn lemma_quotes(t: Seq<char>)
    requires
        t.len() > 0,
        !text::is_space(t[0]),
        !text::is_space(t.last()),
        t[0] != '"',
    ensures
        ce_import::unquoted(seq!['"'] + t + seq!['"']) == t,
        ce_import::unquoted(t) == t,
{
    let q = seq!['"'] + t + seq!['"'];
    assert(q[0] == '"' && q.last() == '"');
    texts::lemma_untrimmed(q);
    texts::lemma_untrimmed(t);
    assert(q.subrange(1, q.len() - 1) =~= t);
}

/// Declarations and instructions to the reader are passed over.
pub proof fn lemma_declarations(inner: Seq<char>, rest: Seq<char>)
    requires
        inner.len() > 0,
        inner[0] == '?',
        forall|i: int| 0 <= i < inner.len() ==> #[trigger] inner[i] != '>',
    ensures
        ce_import::tokens(seq!['<'] + inner + seq!['>'] + rest) == ce_import::tokens(rest),
{
    reveal_strlit("<!--");
    reveal_strlit("<![CDATA[");
    let s = seq!['<'] + inner + seq!['>'] + rest;
    let n = inner.len() as int + 1;
    assert(s[0] == '<' && s[1] == inner[0] && s[n] == '>');
    assert forall|i: int| 0 <= i < n implies !text::in_class(#[trigger] s[i], Class::Is('>')) by {
        if i > 0 {
            assert(s[i] == inner[i - 1]);
        }
    }
    text::lemma_first_in_is(s, Class::Is('>'), n);
    assert("<!--"@[1] == '!' && "<![CDATA["@[1] == '!');
    assert(s.len() >= 4 ==> s.take(4)[1] == s[1]);
    assert(s.len() >= 9 ==> s.take(9)[1] == s[1]);
    assert(s.skip(n + 1) =~= rest);
}

/// A text is a table exactly if it opens an entry somewhere.
pub proof fn lemma_is_table(xml: Seq<char>)
    ensures
        ce_import::table(xml) is Ok <==> exists|i: int|
            0 <= i < ce_import::tokens(xml).len() && #[trigger] ce_import::tokens(xml)[i]
                == TokModel::Start("cheatentry"@),
{
}

} // verus!
