//! Scripts: values, directives, sections and the places where lines are written.
use crate::asm_x86;
use crate::asm_x86::OperandModel;
use crate::assembler;
use crate::assembler::{
    ActionModel,
    CommandModel,
    DeferModel,
    EmitModel,
    Event,
    ItemModel,
    RunModel,
    Section,
    StateModel,
    WaitModel,
};
use crate::laws::games;
use crate::laws::mnemonics;
use crate::laws::plain;
use crate::laws::texts;
use crate::pattern;
use crate::text;
use crate::text::Class;
use vstd::prelude::*;

verus! {

/// A name or a number in an expression: without white space and signs.
pub open spec fn atom(t: Seq<char>) -> bool {
    texts::solid(t) && forall|i: int| 0 <= i < t.len() ==> #[trigger] t[i] != '+' && t[i] != '-'
}

/// A decimal number is read as its value; behind `0x` or a dollar sign it is hexadecimal.
pub proof fn lemma_number(d: Seq<char>, h: Seq<char>)
    requires
        plain::is_number(d, 10),
        plain::value(d, 10) < 0x1_0000_0000_0000_0000,
        plain::is_number(h, 16),
        plain::value(h, 16) < 0x1_0000_0000_0000_0000,
    ensures
        assembler::number(d) == Some(plain::value(d, 10)),
        assembler::number("0x"@ + h) == Some(plain::value(h, 16)),
        assembler::number("$"@ + h) == Some(plain::value(h, 16)),
{
    reveal_strlit("0x");
    reveal_strlit("$");
    plain::lemma_number(d, 10);
    plain::lemma_number(h, 16);
    assert(plain::worth(d[0]) is Some && plain::worth(d[d.len() - 1]) is Some);
    assert(d.len() > 1 ==> plain::worth(d[1]) is Some && plain::worth(d[1])->0 < 10);
    assert(plain::worth(h[0]) is Some && plain::worth(h[h.len() - 1]) is Some);
    texts::lemma_untrimmed(d);
    let a = "0x"@ + h;
    let b = "$"@ + h;
    assert(a[0] == '0' && a[1] == 'x' && a.last() == h.last());
    assert(b[0] == '$' && b.last() == h.last());
    texts::lemma_untrimmed(a);
    texts::lemma_untrimmed(b);
    assert(a.skip(2) =~= h);
    assert(b.skip(1) =~= h);
}

/// A number stands for itself, any other name for its symbol.
pub proof fn lemma_atom(symbols: Map<Seq<char>, u64>, t: Seq<char>)
    requires
        atom(t),
    ensures
        assembler::expression(symbols, t) == assembler::value(symbols, t),
        assembler::number(t) matches Some(n) ==> assembler::value(symbols, t) == Ok::<u64, Seq<char>>(n as u64),
        assembler::number(t) is None && symbols.dom().contains(t) ==> assembler::value(symbols, t)
            == Ok::<u64, Seq<char>>(symbols[t]),
        assembler::number(t) is None && !symbols.dom().contains(t) ==> assembler::value(symbols, t) is Err,
{
    texts::lemma_untrimmed(t);
    let u = t.skip(1);
    assert forall|i: int| 0 <= i < u.len() implies !text::in_class(
        #[trigger] u[i],
        Class::Either('+', '-'),
    ) by {
        assert(u[i] == t[i + 1]);
    }
    text::lemma_first_in_is(u, Class::Either('+', '-'), u.len() as int);
}

/// `a+b` is the sum of the values of a and b, `a-b` their difference, both in 64 bits.
pub proof fn lemma_sum(symbols: Map<Seq<char>, u64>, a: Seq<char>, b: Seq<char>, x: u64, y: u64)
    requires
        atom(a),
        atom(b),
        assembler::value(symbols, a) == Ok::<u64, Seq<char>>(x),
        assembler::value(symbols, b) == Ok::<u64, Seq<char>>(y),
    ensures
        assembler::expression(symbols, a + "+"@ + b) matches Ok(v) && v == if x + y
            < 0x1_0000_0000_0000_0000 {
            x + y
        } else {
            x + y - 0x1_0000_0000_0000_0000
        },
        assembler::expression(symbols, a + "-"@ + b) matches Ok(v) && v == if x >= y {
            x - y
        } else {
            x - y + 0x1_0000_0000_0000_0000
        },
{
    reveal_strlit("+");
    reveal_strlit("-");
    lemma_operator(a, "+"@, b);
    lemma_operator(a, "-"@, b);
    let n = a.len() as int;
    let p = a + "+"@ + b;
    let m = a + "-"@ + b;
    assert(p.take(n) =~= a && p.skip(n + 1) =~= b && p[n] == '+');
    assert(m.take(n) =~= a && m.skip(n + 1) =~= b && m[n] == '-');
}

proof fn lemma_operator(a: Seq<char>, o: Seq<char>, b: Seq<char>)
    requires
        atom(a),
        atom(b),
        o.len() == 1,
        o[0] == '+' || o[0] == '-',
    ensures
        text::trimmed(a + o + b) == a + o + b,
        assembler::operator_at(a + o + b) == Some(a.len() as int),
{
    let s = a + o + b;
    assert(s[0] == a[0] && s.last() == b.last());
    texts::lemma_untrimmed(s);
    let u = s.skip(1);
    let n = a.len() as int;
    assert forall|i: int| 0 <= i < n - 1 implies !text::in_class(
        #[trigger] u[i],
        Class::Either('+', '-'),
    ) by {
        assert(u[i] == a[i + 1]);
    }
    assert(u[n - 1] == o[0]);
    text::lemma_first_in_is(u, Class::Either('+', '-'), n - 1);
}

/// A name with a colon behind it is an anchor.
pub proof fn lemma_anchor(n: Seq<char>, symbols: Map<Seq<char>, u64>)
    requires
        texts::solid(n),
    ensures
        assembler::command(n + ":"@, symbols) == Ok::<CommandModel, Seq<char>>(
            CommandModel::Anchor(n),
        ),
{
    reveal_strlit(":");
    let s = n + ":"@;
    assert(s.last() == ':');
    assert(s.drop_last() =~= n);
    texts::lemma_untrimmed(n);
}

/// An argument of a directive: without white space and commas.
pub open spec fn argument(t: Seq<char>) -> bool {
    &&& texts::solid(t)
    &&& forall|i: int|
        0 <= i < t.len() ==> #[trigger] t[i] != ',' && (t[i] as u32) < 0x80
}

/// A line in brackets is read as a name and its arguments.
proof fn lemma_call(name: Seq<char>, inner: Seq<char>)
    requires
        texts::solid(name),
        texts::solid(inner),
        text::lowered(name) == name,
        forall|i: int| 0 <= i < name.len() ==> #[trigger] name[i] != '(',
    ensures
        ({
            let s = name + "("@ + inner + ")"@;
            &&& s.len() > 0 && s.last() == ')'
            &&& assembler::call(s) == Some(
                (name, text::pieces(inner, ',').map_values(|x: Seq<char>| text::trimmed(x))),
            )
        }),
{
    reveal_strlit("(");
    reveal_strlit(")");
    let s = name + "("@ + inner + ")"@;
    let n = name.len() as int;
    assert forall|i: int| 0 <= i < n implies !text::in_class(#[trigger] s[i], Class::Is('(')) by {
        assert(s[i] == name[i]);
    }
    assert(s[n] == '(');
    text::lemma_first_in_is(s, Class::Is('('), n);
    assert(s.last() == ')');
    assert(text::last_in(s, Class::Is(')')) == s.len() - 1);
    assert(s.take(n) =~= name);
    texts::lemma_untrimmed(name);
    assert(s.subrange(n + 1, s.len() - 1) =~= inner);
}

/// A word with a bracket in it is no mnemonic.
proof fn lemma_no_mnemonic(s: Seq<char>, k: int)
    requires
        texts::solid(s),
        forall|i: int| 0 <= i < s.len() ==> (#[trigger] s[i] as u32) < 0x80,
        k == 5 || k == 7 || k == 13 || k == 14 || k == 16,
        k < s.len(),
        s[k] == '(',
    ensures
        assembler::coded(s) is None,
{
    reveal(assembler::coded);
    texts::lemma_untrimmed(s);
    text::lemma_first_in_is(s, Class::Space, s.len() as int);
    let m = text::lowered(s);
    texts::lemma_lower_case(s);
    assert(m[k] as u32 == s[k] as u32);
    lemma_unknown(m, k, asm_x86::all_operands(Seq::empty()));
}

proof fn lemma_unknown(m: Seq<char>, k: int, ops: Result<Seq<OperandModel>, Seq<char>>)
    requires
        k == 5 || k == 7 || k == 13 || k == 14 || k == 16,
        k < m.len(),
        m[k] == '(',
    ensures
        asm_x86::instruction(m, ops) is None,
{
    mnemonics::lemma_spelling();
}

proof fn lemma_bracketed(name: Seq<char>, inner: Seq<char>, symbols: Map<Seq<char>, u64>)
    requires
        texts::solid(name),
        texts::solid(inner),
        text::lowered(name) == name,
        forall|i: int| 0 <= i < name.len() ==> #[trigger] name[i] != '(' && (name[i] as u32) < 0x80,
        forall|i: int| 0 <= i < inner.len() ==> (#[trigger] inner[i] as u32) < 0x80,
        name.len() == 5 || name.len() == 7 || name.len() == 13 || name.len() == 14 || name.len() == 16,
    ensures
        assembler::command(name + "("@ + inner + ")"@, symbols) == assembler::directive(
            name,
            text::pieces(inner, ',').map_values(|x: Seq<char>| text::trimmed(x)),
            symbols,
        ),
{
    reveal_strlit("(");
    reveal_strlit(")");
    let s = name + "("@ + inner + ")"@;
    lemma_call(name, inner);
    assert forall|i: int| 0 <= i < s.len() implies (#[trigger] s[i] as u32) < 0x80
        && !text::is_space(s[i]) by {
        if i < name.len() {
            assert(s[i] == name[i]);
        } else if name.len() < i < s.len() - 1 {
            assert(s[i] == inner[i - name.len() - 1]);
        }
    }
    assert(s[name.len() as int] == '(');
    lemma_no_mnemonic(s, name.len() as int);
}

proof fn lemma_one_argument(a: Seq<char>)
    requires
        argument(a),
    ensures
        text::pieces(a, ',').map_values(|x: Seq<char>| text::trimmed(x)) == seq![a],
{
    texts::lemma_absent(a, ',');
    texts::lemma_untrimmed(a);
    assert(text::pieces(a, ',') == seq![a]);
    assert(seq![a].map_values(|x: Seq<char>| text::trimmed(x)) =~= seq![a]);
}

proof fn lemma_more_arguments(a: Seq<char>, rest: Seq<char>, args: Seq<Seq<char>>)
    requires
        argument(a),
        text::pieces(rest, ',').map_values(|x: Seq<char>| text::trimmed(x)) == args,
    ensures
        text::pieces(a + seq![','] + rest, ',').map_values(|x: Seq<char>| text::trimmed(x)) == seq![a]
            + args,
{
    texts::lemma_untrimmed(a);
    text::lemma_pieces_first(a, rest, ',');
    assert((seq![a] + text::pieces(rest, ',')).map_values(|x: Seq<char>| text::trimmed(x)) =~= seq![a]
        + args);
}

proof fn lemma_joined(a: Seq<char>, b: Seq<char>)
    requires
        texts::solid(a),
        texts::solid(b),
        forall|i: int| 0 <= i < a.len() ==> (#[trigger] a[i] as u32) < 0x80,
        forall|i: int| 0 <= i < b.len() ==> (#[trigger] b[i] as u32) < 0x80,
    ensures
        ({
            let s = a + seq![','] + b;
            &&& texts::solid(s)
            &&& forall|i: int| 0 <= i < s.len() ==> (#[trigger] s[i] as u32) < 0x80
        }),
{
    let s = a + seq![','] + b;
    assert forall|i: int| 0 <= i < s.len() implies (#[trigger] s[i] as u32) < 0x80
        && !text::is_space(s[i]) by {
        if i < a.len() {
            assert(s[i] == a[i]);
        } else if i > a.len() {
            assert(s[i] == b[i - a.len() - 1]);
        }
    }
}

proof fn lemma_directive_names()
    ensures
        "alloc"@.len() == 5,
        "label"@.len() == 5,
        "dealloc"@.len() == 7,
        "aobscan"@.len() == 7,
        "aobscanmodule"@.len() == 13,
        "registersymbol"@.len() == 14,
        "unregistersymbol"@.len() == 16,
        "alloc"@[0] == 'a',
        "label"@[0] == 'l',
        "dealloc"@[0] == 'd',
        "aobscan"@[0] == 'a',
{
    reveal_strlit("alloc");
    reveal_strlit("label");
    reveal_strlit("dealloc");
    reveal_strlit("aobscan");
    reveal_strlit("aobscanmodule");
    reveal_strlit("registersymbol");
    reveal_strlit("unregistersymbol");
}

proof fn lemma_plain_name(name: Seq<char>)
    requires
        name.len() > 0,
        forall|i: int| 0 <= i < name.len() ==> 'a' <= #[trigger] name[i] <= 'z',
    ensures
        texts::solid(name),
        text::lowered(name) == name,
        forall|i: int| 0 <= i < name.len() ==> #[trigger] name[i] != '(' && (name[i] as u32) < 0x80,
{
    texts::lemma_in_lower_case(name);
}

proof fn lemma_size(s: Seq<char>)
    requires
        plain::is_number(s, 10),
        plain::value(s, 10) <= 0xFFFF_FFFF,
    ensures
        assembler::number(s) == Some(plain::value(s, 10)),
        0 <= plain::value(s, 10),
{
    let zero = seq!['0'];
    assert(plain::is_number(zero, 16)) by {
        assert(plain::worth(zero[0]) == Some(0int));
    }
    assert(plain::value(zero, 16) == 0) by {
        reveal_with_fuel(plain::value, 2);
        assert(zero.drop_last() =~= Seq::<char>::empty());
    }
    lemma_number(s, zero);
    plain::lemma_number(s, 10);
    text::lemma_number_nonneg(s, 10);
}

proof fn lemma_alloc_two(n: Seq<char>, s: Seq<char>, symbols: Map<Seq<char>, u64>)
    requires
        argument(n),
        argument(s),
    ensures
        assembler::command("alloc"@ + "("@ + (n + seq![','] + s) + ")"@, symbols)
            == assembler::directive("alloc"@, seq![n] + seq![s], symbols),
{
    reveal_strlit("alloc");
    lemma_plain_name("alloc"@);
    lemma_joined(n, s);
    lemma_one_argument(s);
    lemma_more_arguments(n, s, seq![s]);
    lemma_bracketed("alloc"@, n + seq![','] + s, symbols);
}

proof fn lemma_alloc_three(
    n: Seq<char>,
    s: Seq<char>,
    at: Seq<char>,
    symbols: Map<Seq<char>, u64>,
)
    requires
        argument(n),
        argument(s),
        argument(at),
    ensures
        assembler::command("alloc"@ + "("@ + (n + seq![','] + (s + seq![','] + at)) + ")"@, symbols)
            == assembler::directive("alloc"@, seq![n] + (seq![s] + seq![at]), symbols),
{
    reveal_strlit("alloc");
    lemma_plain_name("alloc"@);
    lemma_joined(s, at);
    lemma_joined(n, s + seq![','] + at);
    lemma_one_argument(at);
    lemma_more_arguments(s, at, seq![at]);
    lemma_more_arguments(n, s + seq![','] + at, seq![s] + seq![at]);
    lemma_bracketed("alloc"@, n + seq![','] + (s + seq![','] + at), symbols);
}

proof fn lemma_allocation(
    n: Seq<char>,
    s: Seq<char>,
    at: Seq<char>,
    symbols: Map<Seq<char>, u64>,
    near: u64,
)
    requires
        assembler::number(s) == Some(plain::value(s, 10)),
        0 <= plain::value(s, 10) <= 0xFFFF_FFFF,
        assembler::expression(symbols, at) == Ok::<u64, Seq<char>>(near),
    ensures
        assembler::directive("alloc"@, seq![n] + seq![s], symbols) == Ok::<CommandModel, Seq<char>>(
            CommandModel::Alloc { name: n, size: plain::value(s, 10) as usize, near: 0 },
        ),
        assembler::directive("alloc"@, seq![n] + (seq![s] + seq![at]), symbols) == Ok::<
            CommandModel,
            Seq<char>,
        >(CommandModel::Alloc { name: n, size: plain::value(s, 10) as usize, near }),
{
    let two = seq![n] + seq![s];
    assert(two.len() == 2 && two[0] == n && two[1] == s);
    let three = seq![n] + (seq![s] + seq![at]);
    assert(three.len() == 3 && three[0] == n && three[1] == s && three[2] == at);
}

/// `alloc(n,s)` allocates s bytes under the name n, anywhere; with a third argument, near its
/// value.
pub proof fn lemma_alloc(
    n: Seq<char>,
    s: Seq<char>,
    at: Seq<char>,
    symbols: Map<Seq<char>, u64>,
    near: u64,
)
    requires
        argument(n),
        argument(s),
        argument(at),
        plain::is_number(s, 10),
        plain::value(s, 10) <= 0xFFFF_FFFF,
        assembler::expression(symbols, at) == Ok::<u64, Seq<char>>(near),
    ensures
        assembler::command("alloc"@ + "("@ + (n + seq![','] + s) + ")"@, symbols) == Ok::<
            CommandModel,
            Seq<char>,
        >(CommandModel::Alloc { name: n, size: plain::value(s, 10) as usize, near: 0 }),
        assembler::command("alloc"@ + "("@ + (n + seq![','] + (s + seq![','] + at)) + ")"@, symbols)
            == Ok::<CommandModel, Seq<char>>(
            CommandModel::Alloc { name: n, size: plain::value(s, 10) as usize, near },
        ),
{
    lemma_size(s);
    lemma_alloc_two(n, s, symbols);
    lemma_alloc_three(n, s, at, symbols);
    lemma_allocation(n, s, at, symbols, near);
}

/// `label(n)` and `registersymbol(n)` do nothing; `unregistersymbol(n)` forgets the name n at
/// the end, and `dealloc(n)` frees its allocation then.
pub proof fn lemma_names(n: Seq<char>, symbols: Map<Seq<char>, u64>)
    requires
        argument(n),
    ensures
        assembler::command("label"@ + "("@ + n + ")"@, symbols) == Ok::<CommandModel, Seq<char>>(
            CommandModel::Nothing,
        ),
        assembler::command("registersymbol"@ + "("@ + n + ")"@, symbols) == Ok::<
            CommandModel,
            Seq<char>,
        >(CommandModel::Nothing),
        assembler::command("unregistersymbol"@ + "("@ + n + ")"@, symbols) == Ok::<
            CommandModel,
            Seq<char>,
        >(CommandModel::Defer(DeferModel::Unregister(n))),
        assembler::command("dealloc"@ + "("@ + n + ")"@, symbols) == Ok::<CommandModel, Seq<char>>(
            CommandModel::Defer(DeferModel::Dealloc(n)),
        ),
{
    lemma_named_label(n, symbols);
    lemma_named_register(n, symbols);
    lemma_named_unregister(n, symbols);
    lemma_named_dealloc(n, symbols);
    lemma_simple_directives(n, symbols);
}

proof fn lemma_simple_directives(n: Seq<char>, symbols: Map<Seq<char>, u64>)
    ensures
        assembler::directive("label"@, seq![n], symbols) == Ok::<CommandModel, Seq<char>>(
            CommandModel::Nothing,
        ),
        assembler::directive("registersymbol"@, seq![n], symbols) == Ok::<CommandModel, Seq<char>>(
            CommandModel::Nothing,
        ),
        assembler::directive("unregistersymbol"@, seq![n], symbols) == Ok::<
            CommandModel,
            Seq<char>,
        >(CommandModel::Defer(DeferModel::Unregister(n))),
        assembler::directive("dealloc"@, seq![n], symbols) == Ok::<CommandModel, Seq<char>>(
            CommandModel::Defer(DeferModel::Dealloc(n)),
        ),
{
    lemma_directive_names();
    assert(seq![n][0] == n);
}

proof fn lemma_named_label(n: Seq<char>, symbols: Map<Seq<char>, u64>)
    requires
        argument(n),
    ensures
        assembler::command("label"@ + "("@ + n + ")"@, symbols) == assembler::directive(
            "label"@,
            seq![n],
            symbols,
        ),
{
    reveal_strlit("label");
    lemma_plain_name("label"@);
    lemma_one_argument(n);
    lemma_bracketed("label"@, n, symbols);
}

proof fn lemma_named_register(n: Seq<char>, symbols: Map<Seq<char>, u64>)
    requires
        argument(n),
    ensures
        assembler::command("registersymbol"@ + "("@ + n + ")"@, symbols) == assembler::directive(
            "registersymbol"@,
            seq![n],
            symbols,
        ),
{
    reveal_strlit("registersymbol");
    lemma_plain_name("registersymbol"@);
    lemma_one_argument(n);
    lemma_bracketed("registersymbol"@, n, symbols);
}

proof fn lemma_named_unregister(n: Seq<char>, symbols: Map<Seq<char>, u64>)
    requires
        argument(n),
    ensures
        assembler::command("unregistersymbol"@ + "("@ + n + ")"@, symbols) == assembler::directive(
            "unregistersymbol"@,
            seq![n],
            symbols,
        ),
{
    reveal_strlit("unregistersymbol");
    lemma_plain_name("unregistersymbol"@);
    lemma_one_argument(n);
    lemma_bracketed("unregistersymbol"@, n, symbols);
}

proof fn lemma_named_dealloc(n: Seq<char>, symbols: Map<Seq<char>, u64>)
    requires
        argument(n),
    ensures
        assembler::command("dealloc"@ + "("@ + n + ")"@, symbols) == assembler::directive(
            "dealloc"@,
            seq![n],
            symbols,
        ),
{
    reveal_strlit("dealloc");
    lemma_plain_name("dealloc"@);
    lemma_one_argument(n);
    lemma_bracketed("dealloc"@, n, symbols);
}

/// `aobscan(n,p)` searches the pattern p everywhere and gives its place the name n;
/// `aobscanmodule(n,m,p)` searches it in the module m.
pub proof fn lemma_scans(
    n: Seq<char>,
    m: Seq<char>,
    p: Seq<char>,
    symbols: Map<Seq<char>, u64>,
    bytes: Seq<Option<u8>>,
)
    requires
        argument(n),
        argument(m),
        argument(p),
        pattern::pattern_of(p) == Some(bytes),
    ensures
        assembler::command("aobscan"@ + "("@ + (n + seq![','] + p) + ")"@, symbols) == Ok::<
            CommandModel,
            Seq<char>,
        >(CommandModel::Scan { name: n, pattern: bytes }),
        assembler::command(
            "aobscanmodule"@ + "("@ + (n + seq![','] + (m + seq![','] + p)) + ")"@,
            symbols,
        ) == Ok::<CommandModel, Seq<char>>(
            CommandModel::ScanModule { name: n, module: m, pattern: bytes },
        ),
{
    lemma_scan_line(n, p, symbols);
    lemma_module_scan_line(n, m, p, symbols);
    lemma_scan_directives(n, m, p, symbols, bytes);
}

proof fn lemma_scan_line(n: Seq<char>, p: Seq<char>, symbols: Map<Seq<char>, u64>)
    requires
        argument(n),
        argument(p),
    ensures
        assembler::command("aobscan"@ + "("@ + (n + seq![','] + p) + ")"@, symbols)
            == assembler::directive("aobscan"@, seq![n] + seq![p], symbols),
{
    reveal_strlit("aobscan");
    lemma_plain_name("aobscan"@);
    lemma_joined(n, p);
    lemma_one_argument(p);
    lemma_more_arguments(n, p, seq![p]);
    lemma_bracketed("aobscan"@, n + seq![','] + p, symbols);
}

proof fn lemma_module_scan_line(
    n: Seq<char>,
    m: Seq<char>,
    p: Seq<char>,
    symbols: Map<Seq<char>, u64>,
)
    requires
        argument(n),
        argument(m),
        argument(p),
    ensures
        assembler::command(
            "aobscanmodule"@ + "("@ + (n + seq![','] + (m + seq![','] + p)) + ")"@,
            symbols,
        ) == assembler::directive("aobscanmodule"@, seq![n] + (seq![m] + seq![p]), symbols),
{
    reveal_strlit("aobscanmodule");
    lemma_plain_name("aobscanmodule"@);
    lemma_joined(m, p);
    lemma_joined(n, m + seq![','] + p);
    lemma_one_argument(p);
    lemma_more_arguments(m, p, seq![p]);
    lemma_more_arguments(n, m + seq![','] + p, seq![m] + seq![p]);
    lemma_bracketed("aobscanmodule"@, n + seq![','] + (m + seq![','] + p), symbols);
}

proof fn lemma_scan_directives(
    n: Seq<char>,
    m: Seq<char>,
    p: Seq<char>,
    symbols: Map<Seq<char>, u64>,
    bytes: Seq<Option<u8>>,
)
    requires
        pattern::pattern_of(p) == Some(bytes),
    ensures
        assembler::directive("aobscan"@, seq![n] + seq![p], symbols) == Ok::<
            CommandModel,
            Seq<char>,
        >(CommandModel::Scan { name: n, pattern: bytes }),
        assembler::directive("aobscanmodule"@, seq![n] + (seq![m] + seq![p]), symbols) == Ok::<
            CommandModel,
            Seq<char>,
        >(CommandModel::ScanModule { name: n, module: m, pattern: bytes }),
{
    lemma_directive_names();
    let two = seq![n] + seq![p];
    assert(two.len() == 2 && two[0] == n && two[1] == p);
    let three = seq![n] + (seq![m] + seq![p]);
    assert(three.len() == 3 && three[0] == n && three[1] == m && three[2] == p);
}

/// Raw bytes are the values of their words in hexadecimal, in their order.
pub proof fn lemma_raw_bytes(words: Seq<Seq<char>>, n: int)
    requires
        0 <= n <= words.len(),
        forall|i: int|
            0 <= i < n ==> plain::is_number(#[trigger] words[i], 16) && plain::value(words[i], 16)
                < 256,
    ensures
        assembler::raw_bytes(words, n) matches Ok(b) && b.len() == n && forall|i: int|
            0 <= i < n ==> #[trigger] b[i] == plain::value(words[i], 16),
    decreases n,
{
    if n > 0 {
        lemma_raw_bytes(words, n - 1);
        plain::lemma_number(words[n - 1], 16);
        assert(plain::is_number(words[n - 1], 16));
        assert(plain::worth(words[n - 1][0]) is Some);
        text::lemma_number_nonneg(words[n - 1], 16);
    }
}

/// Whether a line is a heading.
pub open spec fn heading(line: Seq<char>) -> bool {
    let low = text::lowered(assembler::cleaned(line));
    low == "[enable]"@ || low == "[disable]"@
}

/// The lines that hold something, without comments and outer white space.
pub open spec fn kept(lines: Seq<Seq<char>>) -> Seq<Seq<char>>
    decreases lines.len(),
{
    if lines.len() == 0 {
        Seq::empty()
    } else if assembler::cleaned(lines.last()).len() == 0 {
        kept(lines.drop_last())
    } else {
        kept(lines.drop_last()).push(assembler::cleaned(lines.last()))
    }
}

/// What stands under `[ENABLE]` is the section to enable, what stands under `[DISABLE]` the
/// section to disable; what stands before both belongs to neither.
pub proof fn lemma_sections(
    before: Seq<Seq<char>>,
    on: Seq<Seq<char>>,
    off: Seq<Seq<char>>,
    e: Seq<char>,
    d: Seq<char>,
)
    requires
        forall|i: int| 0 <= i < before.len() ==> !heading(#[trigger] before[i]),
        forall|i: int| 0 <= i < on.len() ==> !heading(#[trigger] on[i]),
        forall|i: int| 0 <= i < off.len() ==> !heading(#[trigger] off[i]),
        text::lowered(assembler::cleaned(e)) == "[enable]"@,
        text::lowered(assembler::cleaned(d)) == "[disable]"@,
        assembler::cleaned(e).len() > 0,
        assembler::cleaned(d).len() > 0,
    ensures
        ({
            let all = before + seq![e] + on + seq![d] + off;
            let n = all.len() as int;
            &&& assembler::section_of(all, n, Section::Enable).1 == kept(on)
            &&& assembler::section_of(all, n, Section::Disable).1 == kept(off)
        }),
{
    reveal_strlit("[enable]");
    reveal_strlit("[disable]");
    let all = before + seq![e] + on + seq![d] + off;
    let a = before.len() as int;
    let b = a + 1 + on.len();
    let n = all.len() as int;
    assert("[enable]"@.len() == 8 && "[disable]"@.len() == 9);
    let no = Seq::<Seq<char>>::empty();
    lemma_section(all, Section::Enable, 0, before, false, no);
    lemma_section(all, Section::Disable, 0, before, false, no);
    assert(all[a] == e);
    lemma_section(all, Section::Enable, a + 1, on, true, no);
    lemma_section(all, Section::Disable, a + 1, on, false, no);
    assert(all[b] == d);
    assert(no + kept(on) =~= kept(on));
    lemma_section(all, Section::Enable, b + 1, off, false, kept(on));
    lemma_section(all, Section::Disable, b + 1, off, true, no);
    assert(no + kept(off) =~= kept(off));
}

/// Lines without a heading are kept while their section is open.
proof fn lemma_section(
    all: Seq<Seq<char>>,
    section: Section,
    start: int,
    part: Seq<Seq<char>>,
    active: bool,
    out: Seq<Seq<char>>,
)
    requires
        0 <= start,
        start + part.len() <= all.len(),
        forall|i: int| 0 <= i < part.len() ==> all[start + i] == #[trigger] part[i],
        forall|i: int| 0 <= i < part.len() ==> !heading(#[trigger] part[i]),
        assembler::section_of(all, start, section) == (active, out),
    ensures
        assembler::section_of(all, start + part.len(), section) == (
            active,
            if active {
                out + kept(part)
            } else {
                out
            },
        ),
    decreases part.len(),
{
    if part.len() > 0 {
        let p = part.drop_last();
        assert forall|i: int| 0 <= i < p.len() implies all[start + i] == #[trigger] p[i] by {
            assert(p[i] == part[i]);
        }
        assert forall|i: int| 0 <= i < p.len() implies !heading(#[trigger] p[i]) by {
            assert(p[i] == part[i]);
        }
        lemma_section(all, section, start, p, active, out);
        let k = part.len() - 1;
        assert(all[start + k] == part[k]);
        assert(!heading(part[k]));
        assert(out + kept(part) =~= if assembler::cleaned(part.last()).len() == 0 {
            out + kept(p)
        } else {
            (out + kept(p)).push(assembler::cleaned(part.last()))
        });
    } else {
        assert(out + kept(part) =~= out);
    }
}

/// A known name moves the place of writing to its address, a new one is given the place; a
/// line is written at the place, which then moves behind it. Before any place nothing can
/// be written.
pub proof fn lemma_places(
    n: Seq<char>,
    e: EmitModel,
    symbols: Map<Seq<char>, u64>,
    c: u64,
    placed: Seq<(u64, EmitModel)>,
    rest: Seq<ItemModel>,
)
    requires
        c + assembler::emit_size(e) <= u64::MAX,
    ensures
        symbols.dom().contains(n) ==> assembler::laid(
            seq![ItemModel::Anchor(n)] + rest,
            symbols,
            Some(c),
            placed,
        ) == assembler::laid(rest, symbols, Some(symbols[n]), placed),
        !symbols.dom().contains(n) ==> assembler::laid(
            seq![ItemModel::Anchor(n)] + rest,
            symbols,
            Some(c),
            placed,
        ) == assembler::laid(rest, symbols.insert(n, c), Some(c), placed),
        assembler::laid(seq![ItemModel::Emit(e)] + rest, symbols, Some(c), placed)
            == assembler::laid(
            rest,
            symbols,
            Some((c + assembler::emit_size(e)) as u64),
            placed.push((c, e)),
        ),
        assembler::laid(seq![ItemModel::Emit(e)] + rest, symbols, None, placed).1 is Err,
        assembler::laid(Seq::empty(), symbols, Some(c), placed) == (
            symbols,
            Ok::<Seq<(u64, EmitModel)>, Seq<char>>(placed),
        ),
{
    let a = seq![ItemModel::Anchor(n)] + rest;
    let b = seq![ItemModel::Emit(e)] + rest;
    assert(a.skip(1) =~= rest && a[0] == ItemModel::Anchor(n));
    assert(b.skip(1) =~= rest && b[0] == ItemModel::Emit(e));
}

/// What was allocated or found is known by its name from then on, at the address that came
/// back; an allocation is remembered with its size.
pub proof fn lemma_answers(
    r: RunModel,
    s: StateModel,
    name: Seq<char>,
    module: Seq<char>,
    size: usize,
    a: u64,
)
    ensures
        assembler::settled(
            RunModel { wait: WaitModel::Alloc { name, size }, ..r },
            s,
            Event::Address(a),
        ) matches Ok(x) && x.1.symbols == s.symbols.insert(name, a) && x.1.allocs == s.allocs.push(
            (name, a, size),
        ),
        assembler::settled(
            RunModel { wait: WaitModel::Scan { name }, ..r },
            s,
            Event::Address(a),
        ) matches Ok(x) && x.1.symbols == s.symbols.insert(name, a) && x.1.allocs == s.allocs,
        assembler::settled(
            RunModel { wait: WaitModel::ScanModule { name, module }, ..r },
            s,
            Event::Address(a),
        ) matches Ok(x) && x.1.symbols == s.symbols.insert(name, a) && x.1.allocs == s.allocs,
        assembler::settled(
            RunModel { wait: WaitModel::Alloc { name, size }, ..r },
            s,
            Event::Failed,
        ) is Err,
        assembler::settled(RunModel { wait: WaitModel::Scan { name }, ..r }, s, Event::Failed) is Err,
        assembler::settled(
            RunModel { wait: WaitModel::ScanModule { name, module }, ..r },
            s,
            Event::Failed,
        ) is Err,
        assembler::settled(
            RunModel { wait: WaitModel::Write { addr: a, len: size }, ..r },
            s,
            Event::Failed,
        ) is Err,
        assembler::settled(
            RunModel { wait: WaitModel::Write { addr: a, len: size }, ..r },
            s,
            Event::Succeeded,
        ) matches Ok(x) && x.1 == s,
        assembler::settled(
            RunModel { wait: WaitModel::Free { name, addr: a }, ..r },
            s,
            Event::Succeeded,
        ) matches Ok(x) && !x.1.symbols.dom().contains(name) && x.1.allocs == s.allocs,
{
}

/// Each line that was placed is written at its place, with the bytes that it stands for; a
/// line that stands for none ends the run.
pub proof fn lemma_writing(r: RunModel, s: StateModel)
    requires
        0 <= r.written < r.placed.len(),
    ensures
        ({
            let (addr, e) = r.placed[r.written];
            let (next, state, action) = assembler::writing(r, s);
            &&& state == s
            &&& next.written == r.written + 1
            &&& assembler::emitted(e, s.symbols, addr) matches Ok(b) ==> action
                == ActionModel::Write { addr, bytes: b }
            &&& assembler::emitted(e, s.symbols, addr) matches Err(x) ==> action
                == ActionModel::Done(Err(x))
        }),
{
}

/// Freeing a name frees the address of its first allocation, and forgets that allocation.
pub proof fn lemma_freeing(r: RunModel, s: StateModel, name: Seq<char>, i: int)
    requires
        0 <= r.closed < r.deferred.len(),
        r.deferred[r.closed] == DeferModel::Dealloc(name),
        0 <= i < s.allocs.len(),
        s.allocs[i].0 == name,
        forall|j: int| 0 <= j < i ==> (#[trigger] s.allocs[j]).0 != name,
    ensures
        ({
            let (next, state, action) = assembler::closing(r, s);
            &&& action == ActionModel::Free { addr: s.allocs[i].1 }
            &&& state.allocs == s.allocs.remove(i)
            &&& next.wait == WaitModel::Free { name, addr: s.allocs[i].1 }
        }),
{
    lemma_alloc_index(s.allocs, name, i);
}

proof fn lemma_alloc_index(allocs: Seq<(Seq<char>, u64, usize)>, name: Seq<char>, i: int)
    requires
        0 <= i < allocs.len(),
        allocs[i].0 == name,
        forall|j: int| 0 <= j < i ==> (#[trigger] allocs[j]).0 != name,
    ensures
        assembler::alloc_index(allocs, name) == Some(i),
    decreases i,
{
    if i > 0 {
        assert(allocs[0].0 != name);
        let t = allocs.skip(1);
        assert forall|j: int| 0 <= j < i - 1 implies (#[trigger] t[j]).0 != name by {
            assert(t[j] == allocs[j + 1]);
        }
        lemma_alloc_index(t, name, i - 1);
    }
}

/// A comment ends a line: what stands before it is the line, without outer white space.
pub proof fn lemma_comment(a: Seq<char>, c: Seq<char>)
    requires
        forall|i: int| 0 <= i < a.len() ==> #[trigger] a[i] != '/',
    ensures
        assembler::cleaned(a + "//"@ + c) == text::trimmed(a),
        assembler::cleaned(a) == text::trimmed(a),
{
    reveal_strlit("//");
    let s = a + "//"@ + c;
    let n = a.len() as int;
    games::lemma_position(s, "//"@);
    games::lemma_position(a, "//"@);
    assert(s[n] == '/' && s[n + 1] == '/');
    assert(games::stands_at(s, "//"@, n));
    let i = text::position(s, "//"@)->0;
    assert(s[i + 0] == "//"@[0]);
    if i < n {
        assert(s[i] == a[i]);
    }
    if i > n {
        assert(!games::stands_at(s, "//"@, n));
    }
    assert(s.take(n) =~= a);
    if text::position(a, "//"@) is Some {
        let j = text::position(a, "//"@)->0;
        assert(a[j + 0] == "//"@[0]);
    }
}

/// Raw bytes are written as they are, and `nop` writes 0x90 as often as it says, once where
/// it says nothing.
pub proof fn lemma_bytes_written(
    b: Seq<u8>,
    n: usize,
    d: Seq<char>,
    symbols: Map<Seq<char>, u64>,
    a: u64,
)
    requires
        plain::is_number(d, 10),
        0 < plain::value(d, 10) <= 0xFFFF_FFFF,
    ensures
        assembler::emitted(EmitModel::Db(b), symbols, a) == Ok::<Seq<u8>, Seq<char>>(b),
        assembler::emitted(EmitModel::Nop(n), symbols, a) matches Ok(x) && x.len() == n && forall|i: int|
            0 <= i < n ==> #[trigger] x[i] == 0x90,
        assembler::nop_count(Seq::empty()) == 1,
        assembler::nop_count(seq![d]) == plain::value(d, 10),
{
    lemma_size(d);
    assert(seq![d][0] == d);
}

/// The bytes of an instruction are its encoding with the value of its immediate.
pub proof fn lemma_instruction_written(
    i: asm_x86::InsnModel,
    symbols: Map<Seq<char>, u64>,
    a: u64,
    v: int,
)
    requires
        i.imm is None || assembler::immediate_value(symbols, i.imm) == Ok::<int, Seq<char>>(v),
    ensures
        i.imm is Some ==> assembler::emitted(EmitModel::Insn(i), symbols, a) == asm_x86::encoded(
            i.repr,
            v,
        ),
        i.imm is None ==> assembler::emitted(EmitModel::Insn(i), symbols, a) == asm_x86::encoded(
            i.repr,
            0,
        ),
{
    reveal(assembler::insn_bytes);
}

/// Each line leads to its action: memory is asked for with its size and place, a pattern is
/// searched everywhere or in its module; anchors and what is written are kept in their
/// order.
pub proof fn lemma_reading(r: RunModel, s: StateModel)
    requires
        0 <= r.line < r.lines.len(),
    ensures
        ({
            let c = assembler::command(r.lines[r.line], s.symbols);
            let (next, state, action) = assembler::reading(r, s);
            let on = RunModel { line: r.line + 1, ..r };
            &&& c matches Ok(CommandModel::Alloc { name, size, near }) ==> state == s && action
                == ActionModel::Alloc { size, near } && next.wait == WaitModel::Alloc { name, size }
            &&& c matches Ok(CommandModel::Scan { name, pattern }) ==> state == s && action
                == ActionModel::Scan { pattern } && next.wait == WaitModel::Scan { name }
            &&& c matches Ok(CommandModel::ScanModule { name, module, pattern }) ==> state == s
                && action == ActionModel::ScanModule { module, pattern } && next.wait
                == WaitModel::ScanModule { name, module }
            &&& c matches Err(e) ==> state == s && action == ActionModel::Done(Err(e))
            &&& c matches Ok(CommandModel::Nothing) ==> assembler::reading(r, s)
                == assembler::reading(on, s)
            &&& c matches Ok(CommandModel::Anchor(n)) ==> assembler::reading(r, s)
                == assembler::reading(
                RunModel { items: r.items.push(ItemModel::Anchor(n)), ..on },
                s,
            )
            &&& c matches Ok(CommandModel::Emit(e)) ==> assembler::reading(r, s)
                == assembler::reading(
                RunModel { items: r.items.push(ItemModel::Emit(e)), ..on },
                s,
            )
            &&& c matches Ok(CommandModel::Defer(d)) ==> assembler::reading(r, s)
                == assembler::reading(RunModel { deferred: r.deferred.push(d), ..on }, s)
        }),
{
}

/// What failed ends the run with its message, and nothing else changes.
pub proof fn lemma_failed_step(r: RunModel, s: StateModel, event: Event)
    requires
        assembler::settled(r, s, event) is Err,
    ensures
        assembler::stepped(r, s, event).1 == s,
        assembler::stepped(r, s, event).2 == ActionModel::Done(
            Err(assembler::settled(r, s, event)->Err_0),
        ),
{
}

/// The places near an address where memory is tried: its multiple of 64 KiB, then one of
/// them further down and one further up, in turn.
pub proof fn lemma_candidate(near: u64, j: int)
    requires
        0 <= j < 0x8000,
    ensures
        ({
            let start = near / 0x1_0000 * 0x1_0000;
            &&& assembler::candidate(near, 2 * j) == (start - j * 0x1_0000) % 0x1_0000_0000_0000_0000
            &&& assembler::candidate(near, 2 * j + 1) == (start + j * 0x1_0000)
                % 0x1_0000_0000_0000_0000
        }),
{
    assert((2 * j) / 2 == j && (2 * j + 1) / 2 == j && (2 * j) % 2 == 0 && (2 * j + 1) % 2 == 1);
    assert(near - near % 0x1_0000 == near / 0x1_0000 * 0x1_0000);
}

/// A section without lines is answered at once; where nothing is left to release, the run
/// ends with its log.
pub proof fn lemma_ends(r: RunModel, s: StateModel)
    ensures
        r.lines.len() == 0 ==> assembler::advanced(r, s).2 == ActionModel::Done(
            Ok(seq!["(secao vazia)"@]),
        ),
        r.closed >= r.deferred.len() ==> assembler::closing(r, s).2 == ActionModel::Done(Ok(r.log))
            && assembler::closing(r, s).1 == s,
{
}

/// The log says what was done: names, addresses in sixteen hexadecimal digits, and sizes.
pub proof fn lemma_log(
    r: RunModel,
    s: StateModel,
    name: Seq<char>,
    module: Seq<char>,
    size: usize,
    a: u64,
)
    ensures
        ({
            let at = text::padded(text::hex(a as nat), 16);
            let n = text::decimal(size as nat);
            let said = |w: WaitModel, e: Event|
                assembler::settled(RunModel { wait: w, ..r }, s, e)->Ok_0.0.log;
            &&& said(WaitModel::Alloc { name, size }, Event::Address(a)) == r.log.push(
                "alloc "@ + name + " = "@ + at + " ("@ + n + " bytes)"@,
            )
            &&& said(WaitModel::ScanModule { name, module }, Event::Address(a)) == r.log.push(
                "aobscanmodule "@ + name + " = "@ + at,
            )
            &&& said(WaitModel::Scan { name }, Event::Address(a)) == r.log.push(
                "aobscan "@ + name + " = "@ + at,
            )
            &&& said(WaitModel::Write { addr: a, len: size }, Event::Succeeded) == r.log.push(
                "escrito "@ + n + " bytes em "@ + at,
            )
            &&& said(WaitModel::Free { name, addr: a }, Event::Succeeded) == r.log.push(
                "dealloc "@ + name + " ("@ + at + ")"@,
            )
        }),
{
}

} // verus!
