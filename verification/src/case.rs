//! Texts that differ in the case of their letters only, and that instructions
//! read them alike.
use crate::asm_x86;
use crate::asm_x86::InsnModel;
use crate::asm_x86::OperandModel;
use crate::asm_x86::Parts;
use crate::ieee;
use crate::text;
use crate::text::Class;
use vstd::prelude::*;

verus! {

/// Whether two characters are ASCII and differ in case at most.
pub open spec fn same(c: char, d: char) -> bool {
    (c as u32) < 0x80 && (d as u32) < 0x80 && text::lower_char(c) == text::lower_char(d)
}

/// Whether two texts are ASCII and differ in the case of their letters at most.
pub open spec fn alike(a: Seq<char>, b: Seq<char>) -> bool {
    &&& a.len() == b.len()
    &&& forall|i: int|
        #![trigger a[i]]
        #![trigger b[i]]
        0 <= i < a.len() ==> same(a[i], b[i])
}

/// Whether a class makes no difference between the cases of a letter.
pub open spec fn caseless(k: Class) -> bool {
    match k {
        Class::Space => true,
        Class::Is(x) => text::lower_char(x) == text::upper_char(x),
        Class::SpaceOr(x) => text::lower_char(x) == text::upper_char(x),
        Class::Either(x, y) => text::lower_char(x) == text::lower_char(y) && x != y || (
        text::lower_char(x) == text::upper_char(x) && text::lower_char(y) == text::upper_char(y)),
    }
}

proof fn lemma_class(c: char, d: char, k: Class)
    requires
        same(c, d),
        caseless(k),
    ensures
        text::in_class(c, k) == text::in_class(d, k),
{
}

proof fn lemma_first_in(a: Seq<char>, b: Seq<char>, k: Class)
    requires
        alike(a, b),
        caseless(k),
    ensures
        text::first_in(a, k) == text::first_in(b, k),
        0 <= text::first_in(a, k) <= a.len(),
    decreases a.len(),
{
    text::lemma_first_in(a, k);
    if a.len() > 0 {
        lemma_class(a[0], b[0], k);
        lemma_first_in(a.skip(1), b.skip(1), k);
    }
}

proof fn lemma_cut(a: Seq<char>, b: Seq<char>, k: Class)
    requires
        alike(a, b),
        caseless(k),
    ensures
        match (text::cut(a, k), text::cut(b, k)) {
            (None, None) => true,
            (Some((c, d)), Some((e, f))) => alike(c, e) && alike(d, f),
            _ => false,
        },
{
    lemma_first_in(a, b, k);
}

proof fn lemma_trimmed_start(a: Seq<char>, b: Seq<char>, k: Class)
    requires
        alike(a, b),
        caseless(k),
    ensures
        alike(text::trimmed_start(a, k), text::trimmed_start(b, k)),
    decreases a.len(),
{
    if a.len() > 0 {
        lemma_class(a[0], b[0], k);
        lemma_trimmed_start(a.skip(1), b.skip(1), k);
    }
}

proof fn lemma_trimmed_end(a: Seq<char>, b: Seq<char>, k: Class)
    requires
        alike(a, b),
        caseless(k),
    ensures
        alike(text::trimmed_end(a, k), text::trimmed_end(b, k)),
    decreases a.len(),
{
    if a.len() > 0 {
        lemma_class(a.last(), b.last(), k);
        lemma_trimmed_end(a.drop_last(), b.drop_last(), k);
    }
}

proof fn lemma_trimmed(a: Seq<char>, b: Seq<char>)
    requires
        alike(a, b),
    ensures
        alike(text::trimmed(a), text::trimmed(b)),
{
    lemma_trimmed_start(a, b, Class::Space);
    lemma_trimmed_end(
        text::trimmed_start(a, Class::Space),
        text::trimmed_start(b, Class::Space),
        Class::Space,
    );
}

proof fn lemma_without_space(a: Seq<char>, b: Seq<char>)
    requires
        alike(a, b),
    ensures
        alike(text::without_space(a), text::without_space(b)),
    decreases a.len(),
{
    if a.len() > 0 {
        lemma_class(a.last(), b.last(), Class::Space);
        lemma_without_space(a.drop_last(), b.drop_last());
    }
}

proof fn lemma_position(a: Seq<char>, b: Seq<char>)
    requires
        alike(a, b),
    ensures
        text::position(a, "-"@) == text::position(b, "-"@),
    decreases a.len(),
{
    reveal_strlit("-");
    if a.len() > 0 {
        lemma_class(a[0], b[0], Class::Is('-'));
        assert((a.take(1) == "-"@) == (a[0] == '-')) by {
            if a[0] == '-' {
                assert(a.take(1) =~= "-"@);
            } else {
                assert(a.take(1)[0] != "-"@[0]);
            }
        }
        assert((b.take(1) == "-"@) == (b[0] == '-')) by {
            if b[0] == '-' {
                assert(b.take(1) =~= "-"@);
            } else {
                assert(b.take(1)[0] != "-"@[0]);
            }
        }
        lemma_position(a.skip(1), b.skip(1));
    }
}

proof fn lemma_replaced(a: Seq<char>, b: Seq<char>)
    requires
        alike(a, b),
    ensures
        alike(text::replaced(a, "-"@, "+-"@), text::replaced(b, "-"@, "+-"@)),
    decreases a.len(),
{
    reveal_strlit("-");
    reveal_strlit("+-");
    lemma_position(a, b);
    text::lemma_position(a, "-"@);
    if let Some(i) = text::position(a, "-"@) {
        lemma_replaced(a.skip(i + 1), b.skip(i + 1));
    }
}

/// Whether two lists of texts are alike, text by text.
pub open spec fn all_alike(a: Seq<Seq<char>>, b: Seq<Seq<char>>) -> bool {
    &&& a.len() == b.len()
    &&& forall|i: int|
        #![trigger a[i]]
        #![trigger b[i]]
        0 <= i < a.len() ==> alike(a[i], b[i])
}

proof fn lemma_pieces(a: Seq<char>, b: Seq<char>, c: char)
    requires
        alike(a, b),
        caseless(Class::Is(c)),
    ensures
        all_alike(text::pieces(a, c), text::pieces(b, c)),
    decreases a.len(),
{
    let k = Class::Is(c);
    lemma_first_in(a, b, k);
    let i = text::first_in(a, k);
    if i < a.len() {
        lemma_pieces(a.skip(i + 1), b.skip(i + 1), c);
    }
}

proof fn lemma_lowered(a: Seq<char>, b: Seq<char>)
    requires
        alike(a, b),
    ensures
        text::lowered(a) == text::lowered(b),
        text::ascii_lowered(a) == text::ascii_lowered(b),
{
    assert(text::ascii_lowered(a) =~= text::ascii_lowered(b));
    assert forall|i: int| 0 <= i < a.len() implies (#[trigger] a[i] as u32) < 0x80 by {}
    assert forall|i: int| 0 <= i < b.len() implies (#[trigger] b[i] as u32) < 0x80 by {}
}

// ---------------------------------------------------------------------------
// Numbers
// ---------------------------------------------------------------------------
proof fn lemma_digits(a: Seq<char>, b: Seq<char>, radix: int)
    requires
        alike(a, b),
    ensures
        text::all_digits(a, radix) == text::all_digits(b, radix),
        text::number(a, radix) == text::number(b, radix),
        text::natural(a, radix) == text::natural(b, radix),
    decreases a.len(),
{
    assert forall|i: int| 0 <= i < a.len() implies text::digit_of(#[trigger] a[i])
        == text::digit_of(b[i]) by {}
    if text::all_digits(a, radix) {
        assert forall|i: int| 0 <= i < b.len() implies text::digit_of(#[trigger] b[i])
            < radix by {
            assert(text::digit_of(a[i]) < radix);
        }
    }
    if text::all_digits(b, radix) {
        assert forall|i: int| 0 <= i < a.len() implies text::digit_of(#[trigger] a[i])
            < radix by {
            assert(text::digit_of(b[i]) < radix);
        }
    }
    if a.len() > 0 {
        lemma_digits(a.drop_last(), b.drop_last(), radix);
        assert(text::digit_of(a.last()) == text::digit_of(b.last()));
    }
}

proof fn lemma_numbers(a: Seq<char>, b: Seq<char>, radix: int, max: int)
    requires
        alike(a, b),
    ensures
        text::unsigned(a, radix, max) == text::unsigned(b, radix, max),
        text::signed(a, radix) == text::signed(b, radix),
{
    lemma_digits(a, b, radix);
    if a.len() > 0 {
        lemma_class(a[0], b[0], Class::Is('+'));
        lemma_class(a[0], b[0], Class::Is('-'));
        lemma_digits(a.skip(1), b.skip(1), radix);
    }
}

proof fn lemma_exponent(a: Seq<char>, b: Seq<char>)
    requires
        alike(a, b),
    ensures
        ieee::exponent(a) == ieee::exponent(b),
{
    lemma_digits(a, b, 10);
    if a.len() > 0 {
        lemma_class(a[0], b[0], Class::Is('-'));
        lemma_class(a[0], b[0], Class::Is('+'));
        lemma_digits(a.skip(1), b.skip(1), 10);
    }
}

proof fn lemma_unsigned_pattern(a: Seq<char>, b: Seq<char>, f: ieee::Format)
    requires
        alike(a, b),
    ensures
        ieee::unsigned_pattern(a, f) == ieee::unsigned_pattern(b, f),
{
    let e = Class::Either('e', 'E');
    lemma_cut(a, b, e);
    let (m, n) = match (text::cut(a, e), text::cut(b, e)) {
        (Some((m, x)), Some((n, y))) => {
            lemma_exponent(x, y);
            (m, n)
        },
        _ => (a, b),
    };
    lemma_cut(m, n, Class::Is('.'));
    let (p, q) = ieee::halves(m);
    let (r, t) = ieee::halves(n);
    assert(alike(p, r) && alike(q, t));
    assert(alike(p + q, r + t));
    lemma_digits(p + q, r + t, 10);
    lemma_lowered(a, b);
}

proof fn lemma_pattern(a: Seq<char>, b: Seq<char>, f: ieee::Format)
    requires
        alike(a, b),
    ensures
        ieee::pattern(a, f) == ieee::pattern(b, f),
{
    lemma_unsigned_pattern(a, b, f);
    if a.len() > 0 {
        lemma_class(a[0], b[0], Class::Is('-'));
        lemma_class(a[0], b[0], Class::Is('+'));
        lemma_unsigned_pattern(a.skip(1), b.skip(1), f);
    }
}

proof fn lemma_plain_number(a: Seq<char>, b: Seq<char>)
    requires
        alike(a, b),
    ensures
        asm_x86::plain_number(a) == asm_x86::plain_number(b),
{
    lemma_numbers(a, b, 16, 0);
    if a.len() > 0 {
        lemma_class(a[0], b[0], Class::Is('#'));
        lemma_class(a[0], b[0], Class::Is('$'));
        lemma_class(a[0], b[0], Class::Is('0'));
        lemma_numbers(a.skip(1), b.skip(1), 10, 0);
        lemma_numbers(a.skip(1), b.skip(1), 16, 0);
    }
    if a.len() > 1 {
        lemma_class(a[1], b[1], Class::Either('x', 'X'));
        lemma_numbers(a.skip(2), b.skip(2), 16, 0);
    }
}

proof fn lemma_after_prefix(a: Seq<char>, b: Seq<char>, prefix: Seq<char>)
    requires
        alike(a, b),
    ensures
        match (asm_x86::after_prefix(a, prefix), asm_x86::after_prefix(b, prefix)) {
            (None, None) => true,
            (Some(c), Some(d)) => alike(c, d),
            _ => false,
        },
{
    let n = prefix.len() as int;
    if a.len() >= n {
        lemma_lowered(a.take(n), b.take(n));
    }
}

/// Numbers that differ in the case of their letters are the same.
pub proof fn lemma_number_value(a: Seq<char>, b: Seq<char>)
    requires
        alike(a, b),
    ensures
        asm_x86::number_value(a) == asm_x86::number_value(b),
{
    lemma_trimmed(a, b);
    let t = text::trimmed(a);
    let u = text::trimmed(b);
    lemma_after_prefix(t, u, "(float)"@);
    lemma_after_prefix(t, u, "(double)"@);
    if let Some(x) = asm_x86::after_prefix(t, "(float)"@) {
        let y = asm_x86::after_prefix(u, "(float)"@)->0;
        lemma_trimmed(x, y);
        lemma_pattern(text::trimmed(x), text::trimmed(y), ieee::Format::Single);
    } else if let Some(x) = asm_x86::after_prefix(t, "(double)"@) {
        let y = asm_x86::after_prefix(u, "(double)"@)->0;
        lemma_trimmed(x, y);
        lemma_pattern(text::trimmed(x), text::trimmed(y), ieee::Format::Double);
    } else {
        lemma_plain_number(t, u);
        if t.len() > 0 {
            lemma_class(t[0], u[0], Class::Is('-'));
            lemma_plain_number(t.skip(1), u.skip(1));
        }
    }
}

// ---------------------------------------------------------------------------
// Operands
// ---------------------------------------------------------------------------
proof fn lemma_register(a: Seq<char>, b: Seq<char>)
    requires
        alike(a, b),
    ensures
        asm_x86::register(a) == asm_x86::register(b),
        asm_x86::xmm_register(a) == asm_x86::xmm_register(b),
        asm_x86::keyword_size(a) == asm_x86::keyword_size(b),
{
    lemma_trimmed(a, b);
    lemma_lowered(a, b);
    lemma_lowered(text::trimmed(a), text::trimmed(b));
}

/// Whether two results are both messages, or the same value.
pub open spec fn agree<T>(a: Result<T, Seq<char>>, b: Result<T, Seq<char>>) -> bool {
    match (a, b) {
        (Ok(x), Ok(y)) => x == y,
        (Err(_), Err(_)) => true,
        _ => false,
    }
}

proof fn lemma_with_term(p: Parts, first: bool, a: Seq<char>, b: Seq<char>)
    requires
        alike(a, b),
    ensures
        agree(asm_x86::with_term(p, first, a), asm_x86::with_term(p, first, b)),
{
    lemma_cut(a, b, Class::Is('*'));
    match (text::cut(a, Class::Is('*')), text::cut(b, Class::Is('*'))) {
        (Some((x, y)), Some((u, v))) => {
            lemma_register(x, u);
            lemma_register(y, v);
            lemma_number_value(x, u);
            lemma_number_value(y, v);
        },
        _ => {
            lemma_register(a, b);
            lemma_number_value(a, b);
        },
    }
}

proof fn lemma_terms(a: Seq<Seq<char>>, b: Seq<Seq<char>>, n: int)
    requires
        all_alike(a, b),
        n <= a.len(),
    ensures
        agree(asm_x86::terms_read(a, n), asm_x86::terms_read(b, n)),
    decreases n,
{
    if n > 0 {
        lemma_terms(a, b, n - 1);
        if let Ok(p) = asm_x86::terms_read(a, n - 1) {
            lemma_with_term(p, n == 1, a[n - 1], b[n - 1]);
        }
    }
}

proof fn lemma_memory(a: Seq<char>, b: Seq<char>)
    requires
        alike(a, b),
    ensures
        agree(asm_x86::memory(a), asm_x86::memory(b)),
{
    let open = Class::Is('[');
    let close = Class::Is(']');
    lemma_trimmed(a, b);
    let c = text::trimmed(a);
    let d = text::trimmed(b);
    lemma_trimmed_start(c, d, open);
    lemma_trimmed_end(text::trimmed_start(c, open), text::trimmed_start(d, open), close);
    lemma_without_space(
        text::trimmed_end(text::trimmed_start(c, open), close),
        text::trimmed_end(text::trimmed_start(d, open), close),
    );
    let x = asm_x86::unbracketed(a);
    let y = asm_x86::unbracketed(b);
    lemma_replaced(x, y);
    let r = text::replaced(x, "-"@, "+-"@);
    let t = text::replaced(y, "-"@, "+-"@);
    lemma_trimmed_start(r, t, Class::Is('+'));
    lemma_pieces(
        text::trimmed_start(r, Class::Is('+')),
        text::trimmed_start(t, Class::Is('+')),
        '+',
    );
    let n = asm_x86::memory_terms(x).len() as int;
    lemma_terms(asm_x86::memory_terms(x), asm_x86::memory_terms(y), n);
}

/// Whether two operands are the same up to the case of an immediate.
pub open spec fn operands_alike(a: OperandModel, b: OperandModel) -> bool {
    match (a, b) {
        (OperandModel::Imm(t), OperandModel::Imm(u)) => alike(t, u),
        _ => a == b,
    }
}

proof fn lemma_operand(a: Seq<char>, b: Seq<char>)
    requires
        alike(a, b),
    ensures
        match (asm_x86::operand(a), asm_x86::operand(b)) {
            (Ok(x), Ok(y)) => operands_alike(x, y),
            (Err(_), Err(_)) => true,
            _ => false,
        },
{
    lemma_trimmed(a, b);
    let t = text::trimmed(a);
    let u = text::trimmed(b);
    lemma_cut(t, u, Class::Space);
    if let Some((x, y)) = text::cut(t, Class::Space) {
        let (v, w) = text::cut(u, Class::Space)->0;
        lemma_register(x, v);
        lemma_trimmed(y, w);
    }
    let r = asm_x86::sized(t).1;
    let q = asm_x86::sized(u).1;
    assert(alike(r, q) && asm_x86::sized(t).0 == asm_x86::sized(u).0);
    lemma_register(r, q);
    lemma_memory(r, q);
    if r.len() > 0 {
        lemma_class(r[0], q[0], Class::Is('['));
    }
}

/// Whether two lists of operands are both messages, or the same up to the case
/// of immediates.
pub open spec fn lists_alike(
    a: Result<Seq<OperandModel>, Seq<char>>,
    b: Result<Seq<OperandModel>, Seq<char>>,
) -> bool {
    match (a, b) {
        (Ok(x), Ok(y)) => x.len() == y.len() && forall|i: int|
            #![trigger x[i]]
            #![trigger y[i]]
            0 <= i < x.len() ==> operands_alike(x[i], y[i]),
        (Err(_), Err(_)) => true,
        _ => false,
    }
}

proof fn lemma_operands(a: Seq<Seq<char>>, b: Seq<Seq<char>>, n: int)
    requires
        all_alike(a, b),
        n <= a.len(),
    ensures
        lists_alike(asm_x86::operands_read(a, n), asm_x86::operands_read(b, n)),
    decreases n,
{
    if n > 0 {
        lemma_operands(a, b, n - 1);
        lemma_operand(a[n - 1], b[n - 1]);
    }
}

// ---------------------------------------------------------------------------
// Instructions
// ---------------------------------------------------------------------------
/// Whether two lines are both refused, or stand for instructions with the same
/// machine code and immediates that are alike.
pub open spec fn results_alike(
    a: Result<InsnModel, Seq<char>>,
    b: Result<InsnModel, Seq<char>>,
) -> bool {
    match (a, b) {
        (Ok(i), Ok(j)) => {
            &&& i.repr == j.repr
            &&& match (i.imm, j.imm) {
                (None, None) => true,
                (Some(t), Some(u)) => alike(t, u),
                _ => false,
            }
        },
        (Err(_), Err(_)) => true,
        _ => false,
    }
}

proof fn lemma_general_forms(
    mnem: Seq<char>,
    codes: (u8, u8),
    a: Result<Seq<OperandModel>, Seq<char>>,
    b: Result<Seq<OperandModel>, Seq<char>>,
)
    requires
        lists_alike(a, b),
    ensures
        results_alike(asm_x86::mov_form(a), asm_x86::mov_form(b)),
        results_alike(asm_x86::lea_form(a), asm_x86::lea_form(b)),
        results_alike(asm_x86::test_form(a), asm_x86::test_form(b)),
        results_alike(asm_x86::alu_form(mnem, codes, a), asm_x86::alu_form(mnem, codes, b)),
        results_alike(asm_x86::unary_form(mnem, codes, a), asm_x86::unary_form(mnem, codes, b)),
        results_alike(asm_x86::stack_form(mnem, a), asm_x86::stack_form(mnem, b)),
{
}

proof fn lemma_vector_forms(
    mnem: Seq<char>,
    codes: (Option<u8>, u8, Option<u8>),
    a: Result<Seq<OperandModel>, Seq<char>>,
    b: Result<Seq<OperandModel>, Seq<char>>,
)
    requires
        lists_alike(a, b),
    ensures
        results_alike(asm_x86::sse_form(mnem, codes, a), asm_x86::sse_form(mnem, codes, b)),
        results_alike(asm_x86::movdq_form(mnem, a), asm_x86::movdq_form(mnem, b)),
{
}

proof fn lemma_other_forms(
    mnem: Seq<char>,
    digit: u8,
    a: Result<Seq<OperandModel>, Seq<char>>,
    b: Result<Seq<OperandModel>, Seq<char>>,
)
    requires
        lists_alike(a, b),
    ensures
        results_alike(asm_x86::imul_form(a), asm_x86::imul_form(b)),
        results_alike(
            asm_x86::shift_form(mnem, digit, a),
            asm_x86::shift_form(mnem, digit, b),
        ),
        results_alike(asm_x86::movzx_form(a), asm_x86::movzx_form(b)),
{
    if let (Ok(v), Ok(w)) = (a, b) {
        if v.len() == 2 {
            if let (OperandModel::Imm(t), OperandModel::Imm(u)) = (v[1], w[1]) {
                lemma_lowered(t, u);
            }
        }
        if v.len() == 3 {
            assert(operands_alike(v[0], w[0]) && operands_alike(v[1], w[1]) && operands_alike(
                v[2],
                w[2],
            ));
        }
        lemma_general_forms("imul"@, (0xF7, 5), a, b);
    }
}

#[verifier::rlimit(30)]
proof fn lemma_instruction(
    mnem: Seq<char>,
    a: Result<Seq<OperandModel>, Seq<char>>,
    b: Result<Seq<OperandModel>, Seq<char>>,
)
    requires
        lists_alike(a, b),
    ensures
        match (asm_x86::instruction(mnem, a), asm_x86::instruction(mnem, b)) {
            (None, None) => true,
            (Some(r), Some(t)) => results_alike(r, t),
            _ => false,
        },
{
    lemma_general_forms(mnem, (0, 0), a, b);
    if asm_x86::alu_codes(mnem) is Some {
        lemma_general_forms(mnem, asm_x86::alu_codes(mnem)->0, a, b);
    }
    if asm_x86::unary_codes(mnem) is Some {
        lemma_general_forms(mnem, asm_x86::unary_codes(mnem)->0, a, b);
    }
    if asm_x86::sse_codes(mnem) is Some {
        lemma_vector_forms(mnem, asm_x86::sse_codes(mnem)->0, a, b);
    }
    lemma_vector_forms(mnem, (None, 0, None), a, b);
    lemma_other_forms(mnem, 0, a, b);
    if asm_x86::shift_digit(mnem) is Some {
        lemma_other_forms(mnem, asm_x86::shift_digit(mnem)->0, a, b);
    }
}

/// Two lines that differ in the case of their letters are both unknown, both
/// refused, or have the same machine code for every value of an immediate; the
/// texts of their immediates differ in case at most.
pub proof fn lemma_any_case(line: Seq<char>, other: Seq<char>)
    requires
        alike(line, other),
    ensures
        match (asm_x86::assembled(line), asm_x86::assembled(other)) {
            (None, None) => true,
            (Some(a), Some(b)) => results_alike(a, b) && (a matches Ok(i) ==> forall|imm: int|
                #[trigger] asm_x86::encoded(i.repr, imm) == asm_x86::encoded(b->Ok_0.repr, imm)),
            _ => false,
        },
{
    lemma_trimmed(line, other);
    let t = text::trimmed(line);
    let u = text::trimmed(other);
    lemma_cut(t, u, Class::Space);
    lemma_lowered(t, u);
    if let Some((m, r)) = text::cut(t, Class::Space) {
        let (n, q) = text::cut(u, Class::Space)->0;
        lemma_lowered(m, n);
        lemma_trimmed(r, q);
    }
    let (mnem, rest) = asm_x86::parted(line);
    let (name, tail) = asm_x86::parted(other);
    assert(mnem == name && alike(rest, tail));
    lemma_pieces(rest, tail, ',');
    lemma_operands(
        text::pieces(rest, ','),
        text::pieces(tail, ','),
        text::pieces(rest, ',').len() as int,
    );
    lemma_instruction(mnem, asm_x86::all_operands(rest), asm_x86::all_operands(tail));
}

/// An ASCII line and the same line in upper case assemble alike.
pub proof fn lemma_upper_case(line: Seq<char>)
    requires
        text::is_ascii_text(line),
    ensures
        match (asm_x86::assembled(line), asm_x86::assembled(text::ascii_uppered(line))) {
            (None, None) => true,
            (Some(Err(_)), Some(Err(_))) => true,
            (Some(Ok(i)), Some(Ok(j))) => forall|imm: int| #[trigger]
                asm_x86::encoded(i.repr, imm) == asm_x86::encoded(j.repr, imm),
            _ => false,
        },
{
    let other = text::ascii_uppered(line);
    assert forall|i: int|
        #![trigger line[i]]
        #![trigger other[i]]
        0 <= i < line.len() implies same(line[i], other[i]) by {
        assert((line[i] as u32) < 0x80);
    }
    lemma_any_case(line, other);
}

} // verus!
