//! Lines of instructions: how a line is taken apart into a mnemonic and its operands.
use crate::asm_x86;
use crate::asm_x86::{GReg, Mem, OperandModel};
use crate::assembler;
use crate::assembler::{CommandModel, EmitModel};
use crate::bytes;
use crate::laws::games;
use crate::laws::machine::Place;
use crate::laws::mnemonics;
use crate::laws::plain;
use crate::laws::texts;
use crate::text;
use crate::text::Class;
use vstd::prelude::*;

verus! {

/// A text that can be one of several operands: no comma in it.
pub open spec fn uncut(t: Seq<char>) -> bool {
    t.len() > 0 && forall|i: int| 0 <= i < t.len() ==> #[trigger] t[i] != ','
}

proof fn lemma_parted(m: Seq<char>, rest: Seq<char>)
    requires
        texts::solid(m),
        rest.len() > 0,
        !text::is_space(rest[0]),
        !text::is_space(rest.last()),
    ensures
        asm_x86::parted(m + " "@ + rest) == (text::lowered(m), rest),
{
    reveal_strlit(" ");
    let s = m + " "@ + rest;
    assert(s[0] == m[0] && s.last() == rest.last());
    texts::lemma_untrimmed(s);
    assert forall|i: int| 0 <= i < m.len() implies !text::in_class(#[trigger] s[i], Class::Space) by {
        assert(s[i] == m[i]);
    }
    assert(s[m.len() as int] == ' ');
    text::lemma_first_in_is(s, Class::Space, m.len() as int);
    assert(s.take(m.len() as int) =~= m);
    assert(s.skip(m.len() as int + 1) =~= rest);
    texts::lemma_untrimmed(rest);
}

/// A mnemonic alone has no operands.
pub proof fn lemma_no_operands(m: Seq<char>)
    requires
        texts::solid(m),
    ensures
        asm_x86::assembled(m) == asm_x86::instruction(text::lowered(m), Ok(Seq::empty())),
{
    texts::lemma_untrimmed(m);
    text::lemma_first_in_is(m, Class::Space, m.len() as int);
}

/// Behind a mnemonic and a blank stands its operand.
pub proof fn lemma_one_operand(m: Seq<char>, a: Seq<char>, x: OperandModel)
    requires
        texts::solid(m),
        uncut(a),
        !text::is_space(a[0]),
        !text::is_space(a.last()),
        asm_x86::operand(a) == Ok::<OperandModel, Seq<char>>(x),
    ensures
        asm_x86::assembled(m + " "@ + a) == asm_x86::instruction(text::lowered(m), Ok(seq![x])),
{
    lemma_parted(m, a);
    texts::lemma_absent(a, ',');
    assert(text::pieces(a, ',') =~= seq![a]);
    reveal_with_fuel(asm_x86::operands_read, 3);
    assert(Seq::<OperandModel>::empty().push(x) =~= seq![x]);
}

/// Operands are parted by commas, and read in their order.
pub proof fn lemma_two_operands(
    m: Seq<char>,
    a: Seq<char>,
    b: Seq<char>,
    x: OperandModel,
    y: OperandModel,
)
    requires
        texts::solid(m),
        uncut(a),
        uncut(b),
        !text::is_space(a[0]),
        !text::is_space(b.last()),
        asm_x86::operand(a) == Ok::<OperandModel, Seq<char>>(x),
        asm_x86::operand(b) == Ok::<OperandModel, Seq<char>>(y),
    ensures
        asm_x86::assembled(m + " "@ + (a + seq![','] + b)) == asm_x86::instruction(
            text::lowered(m),
            Ok(seq![x, y]),
        ),
{
    let rest = a + seq![','] + b;
    assert(rest[0] == a[0] && rest.last() == b.last());
    lemma_parted(m, rest);
    reveal(reads);
    lemma_all_two(a, b, x, y);
}

/// Whether a text is read as an operand.
#[verifier::opaque]
spec fn reads(t: Seq<char>, o: OperandModel) -> bool {
    asm_x86::operand(t) == Ok::<OperandModel, Seq<char>>(o)
}

/// Whether the first texts are read as operands.
#[verifier::opaque]
spec fn all_read(parts: Seq<Seq<char>>, n: int, v: Seq<OperandModel>) -> bool {
    asm_x86::operands_read(parts, n) == Ok::<Seq<OperandModel>, Seq<char>>(v)
}

proof fn lemma_read_next(
    parts: Seq<Seq<char>>,
    n: int,
    v: Seq<OperandModel>,
    o: OperandModel,
)
    requires
        0 < n <= parts.len(),
        all_read(parts, n - 1, v),
        reads(parts[n - 1], o),
    ensures
        all_read(parts, n, v.push(o)),
{
    reveal(all_read);
    reveal(reads);
}

proof fn lemma_all(rest: Seq<char>, parts: Seq<Seq<char>>, v: Seq<OperandModel>)
    requires
        rest.len() > 0,
        text::pieces(rest, ',') == parts,
        all_read(parts, parts.len() as int, v),
    ensures
        asm_x86::all_operands(rest) == Ok::<Seq<OperandModel>, Seq<char>>(v),
{
    reveal(all_read);
}

proof fn lemma_none_read(parts: Seq<Seq<char>>)
    ensures
        all_read(parts, 0, Seq::empty()),
{
    reveal(all_read);
}

proof fn lemma_all_two(a: Seq<char>, b: Seq<char>, x: OperandModel, y: OperandModel)
    requires
        uncut(a),
        uncut(b),
        reads(a, x),
        reads(b, y),
    ensures
        asm_x86::all_operands(a + seq![','] + b) == Ok::<Seq<OperandModel>, Seq<char>>(seq![x, y]),
{
    lemma_two_pieces(a, b);
    let p = seq![a, b];
    let no = Seq::<OperandModel>::empty();
    lemma_none_read(p);
    lemma_read_next(p, 1, no, x);
    lemma_read_next(p, 2, no.push(x), y);
    assert(no.push(x).push(y) =~= seq![x, y]);
    lemma_all(a + seq![','] + b, p, seq![x, y]);
}

proof fn lemma_all_three(
    a: Seq<char>,
    b: Seq<char>,
    c: Seq<char>,
    x: OperandModel,
    y: OperandModel,
    z: OperandModel,
)
    requires
        uncut(a),
        uncut(b),
        uncut(c),
        reads(a, x),
        reads(b, y),
        reads(c, z),
    ensures
        asm_x86::all_operands(a + seq![','] + (b + seq![','] + c)) == Ok::<
            Seq<OperandModel>,
            Seq<char>,
        >(seq![x, y, z]),
{
    lemma_two_pieces(b, c);
    text::lemma_pieces_first(a, b + seq![','] + c, ',');
    let p = seq![a, b, c];
    assert(seq![a] + seq![b, c] =~= p);
    let no = Seq::<OperandModel>::empty();
    lemma_none_read(p);
    lemma_read_next(p, 1, no, x);
    lemma_read_next(p, 2, no.push(x), y);
    lemma_read_next(p, 3, no.push(x).push(y), z);
    assert(no.push(x).push(y).push(z) =~= seq![x, y, z]);
    lemma_all(a + seq![','] + (b + seq![','] + c), p, seq![x, y, z]);
}

proof fn lemma_two_pieces(a: Seq<char>, b: Seq<char>)
    requires
        uncut(a),
        uncut(b),
    ensures
        text::pieces(a + seq![','] + b, ',') == seq![a, b],
{
    texts::lemma_absent(b, ',');
    text::lemma_pieces_first(a, b, ',');
    assert(text::pieces(b, ',') =~= seq![b]);
    assert(seq![a] + seq![b] =~= seq![a, b]);
}

/// Three operands are read in their order too.
pub proof fn lemma_three_operands(
    m: Seq<char>,
    a: Seq<char>,
    b: Seq<char>,
    c: Seq<char>,
    x: OperandModel,
    y: OperandModel,
    z: OperandModel,
)
    requires
        texts::solid(m),
        uncut(a),
        uncut(b),
        uncut(c),
        !text::is_space(a[0]),
        !text::is_space(c.last()),
        asm_x86::operand(a) == Ok::<OperandModel, Seq<char>>(x),
        asm_x86::operand(b) == Ok::<OperandModel, Seq<char>>(y),
        asm_x86::operand(c) == Ok::<OperandModel, Seq<char>>(z),
    ensures
        asm_x86::assembled(m + " "@ + (a + seq![','] + (b + seq![','] + c)))
            == asm_x86::instruction(text::lowered(m), Ok(seq![x, y, z])),
{
    let rest = a + seq![','] + (b + seq![','] + c);
    assert(rest[0] == a[0] && rest.last() == c.last());
    lemma_parted(m, rest);
    reveal(reads);
    lemma_all_three(a, b, c, x, y, z);
}

pub proof fn lemma_unsized(s: Seq<char>)
    requires
        texts::solid(s),
    ensures
        asm_x86::sized(text::trimmed(s)) == (None::<u8>, s),
{
    texts::lemma_untrimmed(s);
    text::lemma_first_in_is(s, Class::Space, s.len() as int);
}

pub proof fn lemma_name_plain(n: int, size: int)
    requires
        0 <= n < 16,
        size == 4 || size == 8,
    ensures
        ({
            let t = mnemonics::register_name(n, size);
            &&& texts::solid(t)
            &&& text::lowered(t) == t
            &&& t.len() > 1 && t[0] != '[' && t[0] != 'x'
            &&& forall|i: int| 0 <= i < t.len() ==> #[trigger] t[i] != ',' && t[i] != '(' && t[i] != '*' && t[i] != '+' && t[i] != '-'
                && t[i] != ':' && t[i] != ']'
        }),
{
    mnemonics::lemma_register_names();
    mnemonics::lemma_register_spelling();
    texts::lemma_in_lower_case(mnemonics::register_name(n, size));
}

/// The name of a register is an operand in that register.
pub proof fn lemma_register_operand(r: GReg)
    requires
        mnemonics::general(r),
    ensures
        asm_x86::operand(mnemonics::register_name(r.num as int, r.size as int)) == Ok::<
            OperandModel,
            Seq<char>,
        >(OperandModel::Reg(r)),
        asm_x86::register(mnemonics::register_name(r.num as int, r.size as int)) == Some(r),
{
    let t = mnemonics::register_name(r.num as int, r.size as int);
    lemma_name_plain(r.num as int, r.size as int);
    lemma_unsized(t);
    texts::lemma_untrimmed(t);
    mnemonics::lemma_general_registers(t, r);
    reveal_strlit("xmm");
    assert(t.len() >= 3 ==> t.take(3)[0] == t[0]);
    assert("xmm"@[0] == 'x');
}

/// `op d,s` with two registers of one size is, for the operation k of arithmetic, the
/// opcode 8k+1 with the register s and the place d, wherever it is written.
pub proof fn lemma_arithmetic_line(
    k: int,
    d: GReg,
    s: GReg,
    symbols: Map<Seq<char>, u64>,
    a: u64,
)
    requires
        0 <= k < 8,
        mnemonics::general(d),
        mnemonics::general(s),
        d.size == s.size,
    ensures
        ({
            let x = mnemonics::register_name(d.num as int, d.size as int);
            let y = mnemonics::register_name(s.num as int, s.size as int);
            let line = mnemonics::arithmetic(k) + " "@ + (x + seq![','] + y);
            assembler::command(line, symbols) matches Ok(CommandModel::Emit(e)) && mnemonics::means(
                assembler::emitted(e, symbols, a),
                Seq::empty(),
                seq![(8 * k + 1) as u8],
                d.size == 8,
                s.num as int,
                Place::Register(d.num as int),
                Seq::empty(),
            )
        }),
{
    let x = mnemonics::register_name(d.num as int, d.size as int);
    let y = mnemonics::register_name(s.num as int, s.size as int);
    let m = mnemonics::arithmetic(k);
    let rest = x + seq![','] + y;
    let line = m + " "@ + rest;
    lemma_name_plain(d.num as int, d.size as int);
    lemma_name_plain(s.num as int, s.size as int);
    lemma_register_operand(d);
    lemma_register_operand(s);
    lemma_arithmetic_word(k);
    lemma_two_operands(m, x, y, OperandModel::Reg(d), OperandModel::Reg(s));
    let n = Mem { base: 0, index: None, scale: 1, disp: 0 };
    mnemonics::lemma_arithmetic(k, d, s, n, None, Seq::empty());
    let i = asm_x86::instruction(m, Ok(seq![OperandModel::Reg(d), OperandModel::Reg(s)]))->0->Ok_0;
    assert(asm_x86::encoded(i.repr, 0) is Ok);
    assert(assembler::coded(line) == Some(Ok::<EmitModel, Seq<char>>(EmitModel::Insn(i)))) by {
        reveal(assembler::coded);
    }
    assert forall|j: int| 0 <= j < rest.len() implies !text::is_space(#[trigger] rest[j]) && rest[j]
        != '(' by {
        if j < x.len() {
            assert(rest[j] == x[j]);
        } else if j > x.len() {
            assert(rest[j] == y[j - x.len() - 1]);
        }
    }
    assert(rest.last() == y[y.len() - 1]);
    lemma_coded_line(m, rest, symbols, EmitModel::Insn(i));
    assert(assembler::insn_bytes(i, symbols) == asm_x86::encoded(i.repr, 0)) by {
        reveal(assembler::insn_bytes);
    }
}

proof fn lemma_arithmetic_word(k: int)
    requires
        0 <= k < 8,
    ensures
        ({
            let m = mnemonics::arithmetic(k);
            &&& texts::solid(m)
            &&& text::lowered(m) == m
            &&& forall|i: int| 0 <= i < m.len() ==> #[trigger] m[i] != '('
            &&& no_head(m)
        }),
{
    mnemonics::lemma_spelling();
    let m = mnemonics::arithmetic(k);
    texts::lemma_in_lower_case(m);
    reveal_strlit("db");
    reveal_strlit("dq");
    reveal_strlit("dd");
    reveal_strlit("nop");
    reveal_strlit("jmp");
    reveal_strlit("call");
    reveal_strlit("jmp64");
    assert("db"@[0] == 'd' && "dq"@[0] == 'd' && "dd"@[0] == 'd' && "nop"@[0] == 'n' && "jmp"@[0]
        == 'j' && "call"@.len() == 4 && "jmp64"@[0] == 'j');
    lemma_no_condition(m);
}

/// Whether a word begins none of the lines that are not instructions.
pub open spec fn no_head(m: Seq<char>) -> bool {
    &&& m != "db"@ && m != "nop"@ && m != "jmp"@ && m != "call"@ && m != "jmp64"@ && m != "dq"@ && m
        != "dd"@
    &&& assembler::condition(m) is None
}

proof fn lemma_no_condition(m: Seq<char>)
    requires
        m.len() > 0,
        m[0] != 'j',
    ensures
        assembler::condition(m) is None,
{
    reveal_strlit("jo");
    reveal_strlit("jno");
    reveal_strlit("jb");
    reveal_strlit("jc");
    reveal_strlit("jnae");
    reveal_strlit("jae");
    reveal_strlit("jnb");
    reveal_strlit("jnc");
    reveal_strlit("je");
    reveal_strlit("jz");
    reveal_strlit("jne");
    reveal_strlit("jnz");
    reveal_strlit("jbe");
    reveal_strlit("jna");
    reveal_strlit("ja");
    reveal_strlit("jnbe");
    reveal_strlit("js");
    reveal_strlit("jns");
    reveal_strlit("jp");
    reveal_strlit("jpe");
    reveal_strlit("jnp");
    reveal_strlit("jpo");
    reveal_strlit("jl");
    reveal_strlit("jnge");
    reveal_strlit("jge");
    reveal_strlit("jnl");
    reveal_strlit("jle");
    reveal_strlit("jng");
    reveal_strlit("jg");
    reveal_strlit("jnle");
    assert("jo"@[0] == 'j' && "jno"@[0] == 'j' && "jb"@[0] == 'j' && "jc"@[0] == 'j' && "jnae"@[0]
        == 'j' && "jae"@[0] == 'j' && "jnb"@[0] == 'j' && "jnc"@[0] == 'j' && "je"@[0] == 'j'
        && "jz"@[0] == 'j' && "jne"@[0] == 'j' && "jnz"@[0] == 'j' && "jbe"@[0] == 'j' && "jna"@[0]
        == 'j' && "ja"@[0] == 'j' && "jnbe"@[0] == 'j' && "js"@[0] == 'j' && "jns"@[0] == 'j'
        && "jp"@[0] == 'j' && "jpe"@[0] == 'j' && "jnp"@[0] == 'j' && "jpo"@[0] == 'j' && "jl"@[0]
        == 'j' && "jnge"@[0] == 'j' && "jge"@[0] == 'j' && "jnl"@[0] == 'j' && "jle"@[0] == 'j'
        && "jng"@[0] == 'j' && "jg"@[0] == 'j' && "jnle"@[0] == 'j');
}

proof fn lemma_coded_line(
    m: Seq<char>,
    rest: Seq<char>,
    symbols: Map<Seq<char>, u64>,
    e: EmitModel,
)
    requires
        texts::solid(m),
        texts::solid(rest),
        text::lowered(m) == m,
        no_head(m),
        forall|i: int| 0 <= i < m.len() ==> #[trigger] m[i] != '(',
        forall|i: int| 0 <= i < rest.len() ==> #[trigger] rest[i] != '(',
        rest.last() != ':',
        assembler::coded(m + " "@ + rest) == Some(Ok::<EmitModel, Seq<char>>(e)),
    ensures
        assembler::command(m + " "@ + rest, symbols) == Ok::<CommandModel, Seq<char>>(
            CommandModel::Emit(e),
        ),
{
    reveal_strlit(" ");
    let s = m + " "@ + rest;
    assert(s.last() == rest.last());
    assert forall|i: int| 0 <= i < s.len() implies #[trigger] s[i] != '(' by {
        if i < m.len() {
            assert(s[i] == m[i]);
        } else if i > m.len() {
            assert(s[i] == rest[i - m.len() - 1]);
        }
    }
    texts::lemma_absent(s, '(');
    texts::lemma_two_words(m, rest);
}

/// A number is hexadecimal, decimal behind `#`, and negative behind a minus.
pub proof fn lemma_numbers(h: Seq<char>, d: Seq<char>)
    requires
        plain::is_number(h, 16),
        plain::value(h, 16) < 0x8000_0000_0000_0000,
        plain::is_number(d, 10),
        plain::value(d, 10) < 0x8000_0000_0000_0000,
    ensures
        asm_x86::number_value(h) == Some(plain::value(h, 16)),
        asm_x86::number_value("0x"@ + h) == Some(plain::value(h, 16)),
        asm_x86::number_value(seq!['-'] + h) == Some(-plain::value(h, 16)),
        asm_x86::number_value(seq!['#'] + d) == Some(plain::value(d, 10)),
{
    lemma_positive(h);
    lemma_negative(h);
    lemma_decimal(d);
}

pub proof fn lemma_positive(h: Seq<char>)
    requires
        plain::is_number(h, 16),
        plain::value(h, 16) < 0x8000_0000_0000_0000,
    ensures
        text::signed(h, 16) == Some(plain::value(h, 16)),
        0 <= plain::value(h, 16),
        asm_x86::number_value(h) == Some(plain::value(h, 16)),
        asm_x86::number_value("0x"@ + h) == Some(plain::value(h, 16)),
{
    plain::lemma_number(h, 16);
    assert(plain::worth(h[0]) is Some);
    text::lemma_number_nonneg(h, 16);
    assert(text::all_digits(h, 16));
    asm_x86::lemma_hexadecimal_by_default(h);
}

proof fn lemma_negative(h: Seq<char>)
    requires
        plain::is_number(h, 16),
        plain::value(h, 16) < 0x8000_0000_0000_0000,
    ensures
        asm_x86::number_value(seq!['-'] + h) == Some(-plain::value(h, 16)),
{
    lemma_positive(h);
    assert(plain::worth(h[0]) is Some && plain::worth(h[h.len() - 1]) is Some);
    assert(h.len() > 1 ==> plain::worth(h[1]) is Some);
    let n = seq!['-'] + h;
    assert(n.last() == h.last() && n[0] == '-' && n.skip(1) =~= h);
    texts::lemma_untrimmed(n);
    lemma_no_cast(n);
    assert(asm_x86::plain_number(h) == text::signed(h, 16));
}

proof fn lemma_decimal(d: Seq<char>)
    requires
        plain::is_number(d, 10),
        plain::value(d, 10) < 0x8000_0000_0000_0000,
    ensures
        asm_x86::number_value(seq!['#'] + d) == Some(plain::value(d, 10)),
{
    plain::lemma_number(d, 10);
    assert(plain::worth(d[0]) is Some && plain::worth(d[d.len() - 1]) is Some);
    let c = seq!['#'] + d;
    assert(c.last() == d.last() && c[0] == '#' && c.skip(1) =~= d);
    texts::lemma_untrimmed(c);
    lemma_no_cast(c);
}

proof fn lemma_no_cast(s: Seq<char>)
    requires
        s.len() > 0,
        s[0] != '(',
    ensures
        asm_x86::after_prefix(s, "(float)"@) is None,
        asm_x86::after_prefix(s, "(double)"@) is None,
{
    reveal_strlit("(float)");
    reveal_strlit("(double)");
    assert("(float)"@[0] == '(' && "(double)"@[0] == '(');
    if s.len() >= 7 {
        assert(text::ascii_lowered(s.take(7))[0] == text::lower_char(s[0]));
        assert(text::ascii_lowered("(float)"@)[0] == '(');
    }
    if s.len() >= 8 {
        assert(text::ascii_lowered(s.take(8))[0] == text::lower_char(s[0]));
        assert(text::ascii_lowered("(double)"@)[0] == '(');
    }
}

/// The value of an immediate: a number, or else an expression over the symbols, in 64 bits
/// with a sign.
pub proof fn lemma_immediates(symbols: Map<Seq<char>, u64>, t: Seq<char>)
    ensures
        asm_x86::number_value(t) matches Some(n) ==> assembler::immediate_value(symbols, Some(t))
            == Ok::<int, Seq<char>>(n),
        asm_x86::number_value(t) is None ==> match assembler::expression(symbols, t) {
            Ok(v) => assembler::immediate_value(symbols, Some(t)) == Ok::<int, Seq<char>>(
                if v < 0x8000_0000_0000_0000 {
                    v as int
                } else {
                    v - 0x1_0000_0000_0000_0000
                },
            ),
            Err(e) => assembler::immediate_value(symbols, Some(t)) == Err::<int, Seq<char>>(e),
        },
{
}

proof fn lemma_spaceless(s: Seq<char>)
    requires
        forall|i: int| 0 <= i < s.len() ==> !text::is_space(#[trigger] s[i]),
    ensures
        text::without_space(s) == s,
    decreases s.len(),
{
    if s.len() > 0 {
        assert(!text::is_space(s[s.len() - 1]));
        assert forall|i: int| 0 <= i < s.drop_last().len() implies !text::is_space(
            #[trigger] s.drop_last()[i],
        ) by {
            assert(s.drop_last()[i] == s[i]);
        }
        lemma_spaceless(s.drop_last());
        assert(s.drop_last().push(s.last()) =~= s);
    }
}

/// The text in brackets, which holds no white space and no brackets.
proof fn lemma_unbracketed(t: Seq<char>)
    requires
        texts::solid(t),
        t[0] != '[',
        t.last() != ']',
    ensures
        asm_x86::unbracketed(seq!['['] + t + seq![']']) == t,
{
    let s = seq!['['] + t + seq![']'];
    assert(s[0] == '[' && s.last() == ']');
    texts::lemma_untrimmed(s);
    let u = t + seq![']'];
    assert(s.skip(1) =~= u);
    assert(u[0] == t[0]);
    assert(text::trimmed_start(u, Class::Is('[')) == u);
    assert(text::trimmed_start(s, Class::Is('[')) == u);
    assert(u.last() == ']');
    assert(u.drop_last() =~= t);
    assert(text::trimmed_end(t, Class::Is(']')) == t);
    assert(text::trimmed_end(u, Class::Is(']')) == t);
    lemma_spaceless(t);
}

proof fn lemma_not_replaced(s: Seq<char>)
    requires
        forall|i: int| 0 <= i < s.len() ==> #[trigger] s[i] != '-',
    ensures
        text::replaced(s, "-"@, "+-"@) == s,
{
    reveal_strlit("-");
    games::lemma_position(s, "-"@);
    if text::position(s, "-"@) is Some {
        let i = text::position(s, "-"@)->0;
        assert(games::stands_at(s, "-"@, i));
        assert(s[i + 0] == "-"@[0]);
    }
}

proof fn lemma_replaced_once(a: Seq<char>, c: Seq<char>)
    requires
        forall|i: int| 0 <= i < a.len() ==> #[trigger] a[i] != '-',
        forall|i: int| 0 <= i < c.len() ==> #[trigger] c[i] != '-',
    ensures
        text::replaced(a + seq!['-'] + c, "-"@, "+-"@) == a + seq!['+', '-'] + c,
{
    reveal_strlit("-");
    reveal_strlit("+-");
    let s = a + seq!['-'] + c;
    let n = a.len() as int;
    games::lemma_position(s, "-"@);
    assert(s[n] == '-');
    assert(games::stands_at(s, "-"@, n)) by {
        assert(s[n + 0] == "-"@[0]);
    }
    assert(games::holds(s, "-"@));
    let i = text::position(s, "-"@)->0;
    assert(s[i + 0] == "-"@[0]);
    if i < n {
        assert(s[i] == a[i]);
    }
    if i > n {
        assert(!games::stands_at(s, "-"@, n));
    }
    assert(i == n);
    assert(s.take(n) =~= a);
    assert(s.skip(n + 1) =~= c);
    lemma_not_replaced(c);
    assert(a + "+-"@ + c =~= a + seq!['+', '-'] + c);
}

/// A name of a register is not a number of hexadecimal digits.
pub proof fn lemma_no_register(h: Seq<char>)
    requires
        plain::is_number(h, 16),
    ensures
        asm_x86::register(h) is None,
{
    mnemonics::lemma_register_spelling();
    assert(plain::worth(h[0]) is Some && plain::worth(h[h.len() - 1]) is Some);
    assert(h.len() > 1 ==> plain::worth(h[1]) is Some);
    assert(h.len() > 2 ==> plain::worth(h[2]) is Some);
    texts::lemma_untrimmed(h);
    assert forall|i: int| 0 <= i < h.len() implies (#[trigger] h[i] as u32) < 0x80 by {
        assert(plain::worth(h[i]) is Some);
    }
    texts::lemma_lower_case(h);
    let t = text::lowered(h);
    assert(t[0] as u32 == h[0] as u32 || t[0] as u32 == h[0] as u32 + 32);
    assert(t[0] != 'r');
    assert(h.len() > 1 ==> h[1] == h[1] && t[1] != 's' && t[1] != 'r');
    assert(h.len() > 2 ==> h[2] == h[2] && t[2] != 'x' && t[2] != 'p' && t[2] != 'i');
}

/// A register in brackets is memory at that register; with a number behind it, that many
/// bytes further, and with a minus, that many bytes before.
pub proof fn lemma_memory(r: GReg, h: Seq<char>)
    requires
        mnemonics::general(r),
        plain::is_number(h, 16),
        plain::value(h, 16) < 0x8000_0000_0000_0000,
    ensures
        ({
            let b = mnemonics::register_name(r.num as int, r.size as int);
            let v = plain::value(h, 16);
            &&& asm_x86::memory(seq!['['] + b + seq![']']) == Ok::<Mem, Seq<char>>(
                Mem { base: r.num, index: None, scale: 1, disp: 0 },
            )
            &&& asm_x86::memory(seq!['['] + (b + seq!['+'] + h) + seq![']']) == Ok::<Mem, Seq<char>>(
                Mem { base: r.num, index: None, scale: 1, disp: v as i64 },
            )
            &&& asm_x86::memory(seq!['['] + (b + seq!['-'] + h) + seq![']']) == Ok::<Mem, Seq<char>>(
                Mem { base: r.num, index: None, scale: 1, disp: (-v) as i64 },
            )
        }),
{
    lemma_memory_base(r);
    lemma_memory_plus(r, h);
    lemma_memory_minus(r, h);
}

proof fn lemma_memory_of(s: Seq<char>, terms: Seq<Seq<char>>, p: asm_x86::Parts, base: u8)
    requires
        asm_x86::unbracketed(s).len() > 0,
        asm_x86::memory_terms(asm_x86::unbracketed(s)) == terms,
        asm_x86::terms_read(terms, terms.len() as int) == Ok::<asm_x86::Parts, Seq<char>>(p),
        p.base == Some(base),
    ensures
        asm_x86::memory(s) == Ok::<Mem, Seq<char>>(
            Mem { base, index: p.index, scale: p.scale, disp: p.disp },
        ),
{
}

proof fn lemma_memory_base(r: GReg)
    requires
        mnemonics::general(r),
    ensures
        asm_x86::memory(
            seq!['['] + mnemonics::register_name(r.num as int, r.size as int) + seq![']'],
        ) == Ok::<Mem, Seq<char>>(Mem { base: r.num, index: None, scale: 1, disp: 0 }),
{
    let b = mnemonics::register_name(r.num as int, r.size as int);
    lemma_base_term(r);
    lemma_base_text(r);
    lemma_terms_one(r, b);
    lemma_memory_of(
        seq!['['] + b + seq![']'],
        seq![b],
        asm_x86::Parts { base: Some(r.num), index: None, scale: 1, disp: 0 },
        r.num,
    );
}

proof fn lemma_memory_plus(r: GReg, h: Seq<char>)
    requires
        mnemonics::general(r),
        plain::is_number(h, 16),
        plain::value(h, 16) < 0x8000_0000_0000_0000,
    ensures
        asm_x86::memory(
            seq!['['] + (mnemonics::register_name(r.num as int, r.size as int) + seq!['+'] + h)
                + seq![']'],
        ) == Ok::<Mem, Seq<char>>(
            Mem { base: r.num, index: None, scale: 1, disp: plain::value(h, 16) as i64 },
        ),
{
    let b = mnemonics::register_name(r.num as int, r.size as int);
    let d = plain::value(h, 16) as i64;
    lemma_base_term(r);
    lemma_number_term(r, h);
    lemma_plus_text(r, h);
    lemma_terms_two(r, b, h, d);
    lemma_memory_of(
        seq!['['] + (b + seq!['+'] + h) + seq![']'],
        seq![b, h],
        asm_x86::Parts { base: Some(r.num), index: None, scale: 1, disp: d },
        r.num,
    );
}

proof fn lemma_memory_minus(r: GReg, h: Seq<char>)
    requires
        mnemonics::general(r),
        plain::is_number(h, 16),
        plain::value(h, 16) < 0x8000_0000_0000_0000,
    ensures
        asm_x86::memory(
            seq!['['] + (mnemonics::register_name(r.num as int, r.size as int) + seq!['-'] + h)
                + seq![']'],
        ) == Ok::<Mem, Seq<char>>(
            Mem { base: r.num, index: None, scale: 1, disp: (-plain::value(h, 16)) as i64 },
        ),
{
    let b = mnemonics::register_name(r.num as int, r.size as int);
    let d = (-plain::value(h, 16)) as i64;
    let nh = seq!['-'] + h;
    lemma_base_term(r);
    lemma_number_term(r, h);
    lemma_minus_text(r, h);
    lemma_terms_two(r, b, nh, d);
    lemma_memory_of(
        seq!['['] + (b + seq!['-'] + h) + seq![']'],
        seq![b, nh],
        asm_x86::Parts { base: Some(r.num), index: None, scale: 1, disp: d },
        r.num,
    );
}

proof fn lemma_terms_one(r: GReg, b: Seq<char>)
    requires
        asm_x86::with_term(
            asm_x86::Parts { base: None, index: None, scale: 1, disp: 0 },
            true,
            b,
        ) == Ok::<asm_x86::Parts, Seq<char>>(
            asm_x86::Parts { base: Some(r.num), index: None, scale: 1, disp: 0 },
        ),
    ensures
        asm_x86::terms_read(seq![b], 1) == Ok::<asm_x86::Parts, Seq<char>>(
            asm_x86::Parts { base: Some(r.num), index: None, scale: 1, disp: 0 },
        ),
{
    let t = seq![b];
    assert(t[0] == b);
    assert(asm_x86::terms_read(t, 0) == Ok::<asm_x86::Parts, Seq<char>>(
        asm_x86::Parts { base: None, index: None, scale: 1, disp: 0 },
    ));
}

proof fn lemma_terms_two(r: GReg, b: Seq<char>, h: Seq<char>, d: i64)
    requires
        asm_x86::with_term(
            asm_x86::Parts { base: None, index: None, scale: 1, disp: 0 },
            true,
            b,
        ) == Ok::<asm_x86::Parts, Seq<char>>(
            asm_x86::Parts { base: Some(r.num), index: None, scale: 1, disp: 0 },
        ),
        asm_x86::with_term(
            asm_x86::Parts { base: Some(r.num), index: None, scale: 1, disp: 0 },
            false,
            h,
        ) == Ok::<asm_x86::Parts, Seq<char>>(
            asm_x86::Parts { base: Some(r.num), index: None, scale: 1, disp: d },
        ),
    ensures
        asm_x86::terms_read(seq![b, h], 2) == Ok::<asm_x86::Parts, Seq<char>>(
            asm_x86::Parts { base: Some(r.num), index: None, scale: 1, disp: d },
        ),
{
    let t = seq![b, h];
    assert(t[0] == b && t[1] == h);
    assert(asm_x86::terms_read(t, 0) == Ok::<asm_x86::Parts, Seq<char>>(
        asm_x86::Parts { base: None, index: None, scale: 1, disp: 0 },
    ));
    assert(asm_x86::terms_read(t, 1) == Ok::<asm_x86::Parts, Seq<char>>(
        asm_x86::Parts { base: Some(r.num), index: None, scale: 1, disp: 0 },
    ));
}

proof fn lemma_base_text(r: GReg)
    requires
        mnemonics::general(r),
    ensures
        ({
            let b = mnemonics::register_name(r.num as int, r.size as int);
            let inner = asm_x86::unbracketed(seq!['['] + b + seq![']']);
            inner.len() > 0 && asm_x86::memory_terms(inner) == seq![b]
        }),
{
    let b = mnemonics::register_name(r.num as int, r.size as int);
    lemma_name_plain(r.num as int, r.size as int);
    lemma_unbracketed(b);
    lemma_not_replaced(b);
    texts::lemma_absent(b, '+');
    assert(text::trimmed_start(b, Class::Is('+')) == b);
    assert(asm_x86::memory_terms(b) =~= seq![b]);
}

proof fn lemma_plus_text(r: GReg, h: Seq<char>)
    requires
        mnemonics::general(r),
        plain::is_number(h, 16),
    ensures
        ({
            let b = mnemonics::register_name(r.num as int, r.size as int);
            let inner = asm_x86::unbracketed(seq!['['] + (b + seq!['+'] + h) + seq![']']);
            inner.len() > 0 && asm_x86::memory_terms(inner) == seq![b, h]
        }),
{
    let b = mnemonics::register_name(r.num as int, r.size as int);
    lemma_name_plain(r.num as int, r.size as int);
    lemma_digits_plain(h);
    let p = b + seq!['+'] + h;
    lemma_joined_solid(b, seq!['+'], h);
    assert(h.last() == h[h.len() - 1]);
    lemma_unbracketed(p);
    assert forall|i: int| 0 <= i < p.len() implies #[trigger] p[i] != '-' by {
        if i < b.len() {
            assert(p[i] == b[i]);
        } else if i > b.len() {
            assert(p[i] == h[i - b.len() - 1]);
        }
    }
    lemma_not_replaced(p);
    lemma_two_terms(b, h);
    assert(b[0] == b[0] && p[0] != '+');
    assert(text::trimmed_start(p, Class::Is('+')) == p);
}

proof fn lemma_minus_text(r: GReg, h: Seq<char>)
    requires
        mnemonics::general(r),
        plain::is_number(h, 16),
    ensures
        ({
            let b = mnemonics::register_name(r.num as int, r.size as int);
            let inner = asm_x86::unbracketed(seq!['['] + (b + seq!['-'] + h) + seq![']']);
            inner.len() > 0 && asm_x86::memory_terms(inner) == seq![b, seq!['-'] + h]
        }),
{
    let b = mnemonics::register_name(r.num as int, r.size as int);
    lemma_name_plain(r.num as int, r.size as int);
    lemma_digits_plain(h);
    let m = b + seq!['-'] + h;
    lemma_joined_solid(b, seq!['-'], h);
    assert(h.last() == h[h.len() - 1]);
    lemma_unbracketed(m);
    lemma_replaced_once(b, h);
    let nh = seq!['-'] + h;
    let q = b + seq!['+'] + nh;
    assert(q =~= b + seq!['+', '-'] + h);
    assert(b[0] == b[0] && q[0] == b[0]);
    assert(text::trimmed_start(q, Class::Is('+')) == q);
    assert forall|i: int| 0 <= i < nh.len() implies #[trigger] nh[i] != '+' by {
        if i > 0 {
            assert(nh[i] == h[i - 1]);
        }
    }
    lemma_two_terms(b, nh);
}

proof fn lemma_two_terms(a: Seq<char>, b: Seq<char>)
    requires
        forall|i: int| 0 <= i < a.len() ==> #[trigger] a[i] != '+',
        forall|i: int| 0 <= i < b.len() ==> #[trigger] b[i] != '+',
    ensures
        text::pieces(a + seq!['+'] + b, '+') == seq![a, b],
{
    texts::lemma_absent(b, '+');
    text::lemma_pieces_first(a, b, '+');
    assert(text::pieces(b, '+') =~= seq![b]);
    assert(seq![a] + seq![b] =~= seq![a, b]);
}

proof fn lemma_joined_solid(a: Seq<char>, o: Seq<char>, b: Seq<char>)
    requires
        texts::solid(a),
        texts::solid(o),
        texts::solid(b),
    ensures
        texts::solid(a + o + b),
        (a + o + b)[0] == a[0],
        (a + o + b).last() == b.last(),
{
    let s = a + o + b;
    assert forall|i: int| 0 <= i < s.len() implies !text::is_space(#[trigger] s[i]) by {
        if i < a.len() {
            assert(s[i] == a[i]);
        } else if i < a.len() + o.len() {
            assert(s[i] == o[i - a.len()]);
        } else {
            assert(s[i] == b[i - a.len() - o.len()]);
        }
    }
}

pub proof fn lemma_digits_plain(h: Seq<char>)
    requires
        plain::is_number(h, 16),
    ensures
        texts::solid(h),
        forall|i: int|
            0 <= i < h.len() ==> #[trigger] h[i] != '+' && h[i] != '-' && h[i] != '*' && h[i] != ']' && h[i] != '[',
{
    assert forall|i: int| 0 <= i < h.len() implies #[trigger] h[i] != '+' && h[i] != '-' && h[i] != '*'
        && h[i] != ']' && h[i] != '[' && !text::is_space(h[i]) by {
        assert(plain::worth(h[i]) is Some);
    }
}

proof fn lemma_base_term(r: GReg)
    requires
        mnemonics::general(r),
    ensures
        ({
            let b = mnemonics::register_name(r.num as int, r.size as int);
            let p = asm_x86::Parts { base: None, index: None, scale: 1, disp: 0 };
            asm_x86::with_term(p, true, b) == Ok::<asm_x86::Parts, Seq<char>>(
                asm_x86::Parts { base: Some(r.num), ..p },
            )
        }),
{
    let b = mnemonics::register_name(r.num as int, r.size as int);
    lemma_name_plain(r.num as int, r.size as int);
    lemma_register_operand(r);
    texts::lemma_absent(b, '*');
}

proof fn lemma_number_term(r: GReg, h: Seq<char>)
    requires
        plain::is_number(h, 16),
        plain::value(h, 16) < 0x8000_0000_0000_0000,
    ensures
        ({
            let p = asm_x86::Parts { base: Some(r.num), index: None, scale: 1, disp: 0 };
            let v = plain::value(h, 16);
            &&& asm_x86::with_term(p, false, h) == Ok::<asm_x86::Parts, Seq<char>>(
                asm_x86::Parts { disp: v as i64, ..p },
            )
            &&& asm_x86::with_term(p, false, seq!['-'] + h) == Ok::<asm_x86::Parts, Seq<char>>(
                asm_x86::Parts { disp: (-v) as i64, ..p },
            )
        }),
{
    let zero = seq!['0'];
    assert(plain::is_number(zero, 10)) by {
        assert(plain::worth(zero[0]) == Some(0int));
    }
    assert(plain::value(zero, 10) == 0) by {
        reveal_with_fuel(plain::value, 2);
        assert(zero.drop_last() =~= Seq::<char>::empty());
    }
    lemma_numbers(h, zero);
    lemma_digits_plain(h);
    plain::lemma_number(h, 16);
    text::lemma_number_nonneg(h, 16);
    lemma_no_register(h);
    texts::lemma_absent(h, '*');
    let n = seq!['-'] + h;
    assert forall|i: int| 0 <= i < n.len() implies #[trigger] n[i] != '*' by {
        if i > 0 {
            assert(n[i] == h[i - 1]);
        }
    }
    texts::lemma_absent(n, '*');
    lemma_no_minus_register(n);
}

proof fn lemma_no_minus_register(n: Seq<char>)
    requires
        n.len() > 0,
        n[0] == '-',
        !text::is_space(n.last()),
        forall|i: int| 0 < i < n.len() ==> plain::worth(#[trigger] n[i]) is Some,
    ensures
        asm_x86::register(n) is None,
{
    mnemonics::lemma_register_spelling();
    texts::lemma_untrimmed(n);
    assert forall|i: int| 0 <= i < n.len() implies (#[trigger] n[i] as u32) < 0x80 by {
        if i > 0 {
            assert(plain::worth(n[i]) is Some);
        }
    }
    texts::lemma_lower_case(n);
    assert(text::lowered(n)[0] as u32 == n[0] as u32);
}

/// A line whose first word is neither a mnemonic nor one of the words that write is refused,
/// and so is an instruction whose operands are.
pub proof fn lemma_refused_line(m: Seq<char>, rest: Seq<char>, symbols: Map<Seq<char>, u64>)
    requires
        texts::solid(m),
        texts::solid(rest),
        text::lowered(m) == m,
        no_head(m),
        forall|i: int| 0 <= i < m.len() ==> #[trigger] m[i] != '(',
        forall|i: int| 0 <= i < rest.len() ==> #[trigger] rest[i] != '(',
        rest.last() != ':',
    ensures
        assembler::coded(m + " "@ + rest) is None ==> assembler::command(m + " "@ + rest, symbols) is Err,
        assembler::coded(m + " "@ + rest) matches Some(r) ==> (r is Err ==> assembler::command(
            m + " "@ + rest,
            symbols,
        ) is Err),
{
    reveal_strlit(" ");
    let s = m + " "@ + rest;
    assert(s.last() == rest.last());
    assert forall|i: int| 0 <= i < s.len() implies #[trigger] s[i] != '(' by {
        if i < m.len() {
            assert(s[i] == m[i]);
        } else if i > m.len() {
            assert(s[i] == rest[i - m.len() - 1]);
        }
    }
    texts::lemma_absent(s, '(');
    texts::lemma_two_words(m, rest);
}

} // verus!
