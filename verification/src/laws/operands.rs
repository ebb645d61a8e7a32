//! Operands: vectors, immediates, sizes and indices.
use crate::asm_x86;
use crate::asm_x86::{GReg, Mem, OperandModel, Parts};
use crate::bytes;
use crate::ieee;
use crate::ieee::Format;
use crate::laws::lines;
use crate::laws::mnemonics;
use crate::laws::plain;
use crate::laws::texts;
use crate::text;
use crate::text::Class;
use vstd::prelude::*;

verus! {

/// The name of a vector register is an operand in that register.
pub proof fn lemma_vector_operand(n: int)
    requires
        0 <= n < 16,
    ensures
        asm_x86::operand("xmm"@ + plain::small(n)) == Ok::<OperandModel, Seq<char>>(
            OperandModel::Xmm(n as u8),
        ),
{
    reveal_strlit("xmm");
    let t = "xmm"@ + plain::small(n);
    assert(t[0] == 'x' && t[1] == 'm' && t[2] == 'm');
    assert(t[3] == plain::small(n)[0]);
    assert(n >= 10 ==> t[4] == plain::small(n)[1]);
    assert forall|i: int| 0 <= i < t.len() implies (#[trigger] t[i] as u32) < 0x80 && !('A' <= t[i]
        <= 'Z') && !text::is_space(t[i]) by {
        if i >= 3 {
            assert(t[i] == plain::small(n)[i - 3]);
        }
    }
    texts::lemma_in_lower_case(t);
    lines::lemma_unsized(t);
    texts::lemma_untrimmed(t);
    mnemonics::lemma_vector_registers(t, n);
}

/// What is no register and no memory is an immediate, as it is written.
pub proof fn lemma_immediate_operand(t: Seq<char>)
    requires
        texts::solid(t),
        t[0] != '[',
        asm_x86::xmm_register(t) is None,
        asm_x86::register(t) is None,
    ensures
        asm_x86::operand(t) == Ok::<OperandModel, Seq<char>>(OperandModel::Imm(t)),
{
    lines::lemma_unsized(t);
}

/// The words for sizes.
pub open spec fn size_word(size: u8) -> Seq<char> {
    if size == 1 {
        "byte"@
    } else if size == 2 {
        "word"@
    } else if size == 4 {
        "dword"@
    } else {
        "qword"@
    }
}

/// A word before memory gives its size: `byte` 1, `word` 2, `dword` 4 and `qword` 8 bytes;
/// without it the size is open.
pub proof fn lemma_sizes(size: u8, s: Seq<char>, m: Mem)
    requires
        size == 1 || size == 2 || size == 4 || size == 8,
        texts::solid(s),
        s[0] == '[',
        asm_x86::memory(s) == Ok::<Mem, Seq<char>>(m),
    ensures
        asm_x86::operand(size_word(size) + " "@ + s) == Ok::<OperandModel, Seq<char>>(
            OperandModel::Mem(m, Some(size)),
        ),
        asm_x86::operand(s) == Ok::<OperandModel, Seq<char>>(OperandModel::Mem(m, None)),
{
    lines::lemma_unsized(s);
    lemma_sized(size, s);
}

proof fn lemma_sized(size: u8, s: Seq<char>)
    requires
        size == 1 || size == 2 || size == 4 || size == 8,
        texts::solid(s),
    ensures
        asm_x86::sized(text::trimmed(size_word(size) + " "@ + s)) == (Some(size), s),
{
    reveal_strlit("byte");
    reveal_strlit("word");
    reveal_strlit("dword");
    reveal_strlit("qword");
    reveal_strlit(" ");
    assert("byte"@[0] == 'b' && "word"@[0] == 'w' && "dword"@[0] == 'd' && "qword"@[0] == 'q');
    let w = size_word(size);
    texts::lemma_in_lower_case(w);
    let t = w + " "@ + s;
    let n = w.len() as int;
    assert(t[0] == w[0] && t.last() == s.last());
    texts::lemma_untrimmed(t);
    assert forall|i: int| 0 <= i < n implies !text::in_class(#[trigger] t[i], Class::Space) by {
        assert(t[i] == w[i]);
    }
    assert(t[n] == ' ');
    text::lemma_first_in_is(t, Class::Space, n);
    assert(t.take(n) =~= w);
    assert(t.skip(n + 1) =~= s);
    texts::lemma_untrimmed(s);
}

/// The digit of a scale.
pub open spec fn scale_digit(scale: u8) -> Seq<char> {
    seq![(48 + scale) as char]
}

/// A register times 1, 2, 4 or 8 is the index with that scale, whichever stands first; a
/// second register without a scale is the index too.
pub proof fn lemma_index(p: Parts, r: GReg, scale: u8)
    requires
        mnemonics::general(r),
        scale == 1 || scale == 2 || scale == 4 || scale == 8,
        p.base is Some,
    ensures
        ({
            let n = mnemonics::register_name(r.num as int, r.size as int);
            let with = Ok::<Parts, Seq<char>>(Parts { index: Some(r.num), scale, ..p });
            &&& asm_x86::with_term(p, false, n + seq!['*'] + scale_digit(scale)) == with
            &&& asm_x86::with_term(p, false, scale_digit(scale) + seq!['*'] + n) == with
            &&& asm_x86::with_term(p, false, n) == Ok::<Parts, Seq<char>>(
                Parts { index: Some(r.num), ..p },
            )
        }),
{
    let n = mnemonics::register_name(r.num as int, r.size as int);
    let d = scale_digit(scale);
    lines::lemma_name_plain(r.num as int, r.size as int);
    lines::lemma_register_operand(r);
    lemma_scale(scale);
    texts::lemma_absent(n, '*');
    lemma_cut(n, d);
    lemma_cut(d, n);
    lines::lemma_no_register(d);
}

proof fn lemma_scale(scale: u8)
    requires
        scale == 1 || scale == 2 || scale == 4 || scale == 8,
    ensures
        plain::is_number(scale_digit(scale), 16),
        asm_x86::number_value(scale_digit(scale)) == Some(scale as int),
        scale_digit(scale)[0] != '*',
{
    let d = scale_digit(scale);
    assert(plain::worth(d[0]) == Some(scale as int));
    assert(plain::is_number(d, 16));
    assert(plain::value(d, 16) == scale) by {
        reveal_with_fuel(plain::value, 2);
        assert(d.drop_last() =~= Seq::<char>::empty());
    }
    lines::lemma_positive(d);
}

proof fn lemma_cut(a: Seq<char>, b: Seq<char>)
    requires
        forall|i: int| 0 <= i < a.len() ==> #[trigger] a[i] != '*',
    ensures
        text::cut(a + seq!['*'] + b, Class::Is('*')) == Some((a, b)),
{
    let s = a + seq!['*'] + b;
    let n = a.len() as int;
    assert forall|i: int| 0 <= i < n implies !text::in_class(#[trigger] s[i], Class::Is('*')) by {
        assert(s[i] == a[i]);
    }
    assert(s[n] == '*');
    text::lemma_first_in_is(s, Class::Is('*'), n);
    assert(s.take(n) =~= a);
    assert(s.skip(n + 1) =~= b);
}

/// Behind `(float)` a number is the 32 bits of its value with a fraction, behind `(double)`
/// the 64 bits, with a sign.
pub proof fn lemma_casts(t: Seq<char>)
    requires
        texts::solid(t),
    ensures
        asm_x86::number_value("(float)"@ + t) == ieee::pattern(t, Format::Single),
        asm_x86::number_value("(double)"@ + t) == match ieee::pattern(t, Format::Double) {
            Some(b) => Some(bytes::wrapped(b)),
            None => None,
        },
{
    reveal_strlit("(float)");
    reveal_strlit("(double)");
    let f = "(float)"@ + t;
    let d = "(double)"@ + t;
    assert(f[0] == '(' && f.last() == t.last());
    assert(d[0] == '(' && d.last() == t.last());
    texts::lemma_untrimmed(f);
    texts::lemma_untrimmed(d);
    texts::lemma_untrimmed(t);
    assert(f.take(7) =~= "(float)"@);
    assert(f.skip(7) =~= t);
    assert(d.take(8) =~= "(double)"@);
    assert(d.skip(8) =~= t);
    assert(text::ascii_lowered(d.take(7))[1] == 'd') by {
        assert(d.take(7)[1] == "(double)"@[1]);
        assert("(double)"@[1] == 'd');
    }
    assert(text::ascii_lowered("(float)"@)[1] == 'f') by {
        assert("(float)"@[1] == 'f');
    }
}

/// Arithmetic takes two operands, and sizes of four and eight bytes alone.
pub proof fn lemma_arithmetic_refused(
    k: int,
    ops: Seq<OperandModel>,
    m: Mem,
    size: u8,
    t: Seq<char>,
)
    requires
        0 <= k < 8,
        ops.len() != 2,
        size != 4,
        size != 8,
    ensures
        mnemonics::refused(mnemonics::arithmetic(k), ops),
        mnemonics::refused(
            mnemonics::arithmetic(k),
            seq![OperandModel::Mem(m, Some(size)), OperandModel::Imm(t)],
        ),
{
    mnemonics::lemma_spelling();
}

/// `mov` and `test` take no two operands in memory and no immediate as their target, `lea`
/// takes memory alone, and `mov` takes no vectors.
pub proof fn lemma_moves_refused(a: OperandModel, b: OperandModel)
    ensures
        a is Imm || (a is Mem && b is Mem) || a is Xmm || b is Xmm ==> mnemonics::refused(
            "mov"@,
            seq![a, b],
        ) && mnemonics::refused("test"@, seq![a, b]),
        !(b is Mem) || !(a is Reg) ==> mnemonics::refused("lea"@, seq![a, b]),
{
    mnemonics::lemma_spelling();
}

} // verus!
