//! Scripts: what each line writes.
use crate::assembler;
use crate::assembler::{CommandModel, EmitModel};
use crate::bytes;
use crate::laws::plain;
use crate::laws::texts;
use crate::text;
use vstd::prelude::*;

verus! {

/// A text that can be the target of a line: without white space and brackets, and
/// not the end of an anchor.
pub open spec fn target_text(t: Seq<char>) -> bool {
    &&& texts::solid(t)
    &&& forall|i: int| 0 <= i < t.len() ==> #[trigger] t[i] != '('
    &&& t.last() != ':'
}

/// Whether bytes are an opcode followed by the distance, in four bytes, from the end of
/// the instruction, which stands at `a`, to a target.
pub open spec fn leads_to(b: Seq<u8>, opcode: Seq<u8>, a: u64, target: u64) -> bool {
    let n = opcode.len() as int;
    &&& b.len() == n + 4
    &&& b.take(n) == opcode
    &&& (a + n + 4 + plain::signed(plain::four(b, n))) % 0x1_0000_0000_0000_0000 == target
}

/// Whether a distance leads from the end of an instruction of `size` bytes to a target.
pub open spec fn lands(a: u64, size: int, d: int, target: u64) -> bool {
    (a + size + d) % 0x1_0000_0000_0000_0000 == target
}

/// Whether a target lies within 32 bits of distance from the end of an instruction of
/// `size` bytes.
pub open spec fn in_reach(a: u64, size: int, target: u64) -> bool {
    exists|d: int| -0x8000_0000 <= d < 0x8000_0000 && #[trigger] lands(a, size, d, target)
}

/// Whether the line of a word and a target, placed at `a`, writes an opcode and the
/// distance to the value of the target; where that is out of reach nothing is written.
#[verifier::opaque]
pub open spec fn branches(
    head: Seq<char>,
    opcode: Seq<u8>,
    t: Seq<char>,
    symbols: Map<Seq<char>, u64>,
    a: u64,
) -> bool {
    assembler::command(head + " "@ + t, symbols) matches Ok(CommandModel::Emit(e)) && match (
        assembler::expression(symbols, t)
    ) {
        Ok(v) => if in_reach(a, opcode.len() as int + 4, v) {
            assembler::emitted(e, symbols, a) matches Ok(b) && leads_to(b, opcode, a, v)
        } else {
            assembler::emitted(e, symbols, a) is Err
        },
        Err(x) => assembler::emitted(e, symbols, a) == Err::<Seq<u8>, Seq<char>>(x),
    }
}

/// A line of a word and a target is read as the word and the target.
proof fn lemma_line(head: Seq<char>, t: Seq<char>, symbols: Map<Seq<char>, u64>)
    requires
        texts::solid(head),
        forall|i: int| 0 <= i < head.len() ==> #[trigger] head[i] != '(',
        target_text(t),
    ensures
        assembler::command(head + " "@ + t, symbols) == assembler::writes(
            assembler::emission(text::lowered(head), seq![t], head + " "@ + t),
        ),
        text::joined(seq![t]) == t,
{
    reveal_strlit(" ");
    let s = head + " "@ + t;
    assert(s.last() == t.last());
    assert forall|i: int| 0 <= i < s.len() implies #[trigger] s[i] != '(' by {
        if i < head.len() {
            assert(s[i] == head[i]);
        } else if i > head.len() {
            assert(s[i] == t[i - head.len() - 1]);
        }
    }
    texts::lemma_absent(s, '(');
    texts::lemma_two_words(head, t);
    assert(seq![head, t].skip(1) =~= seq![t]);
    assert(seq![t].drop_last() =~= Seq::<Seq<char>>::empty());
    assert(text::joined(Seq::<Seq<char>>::empty()) =~= Seq::<char>::empty());
    assert(text::joined(seq![t]) =~= t);
}

/// The bytes of a branch lead to its target.
proof fn lemma_branch(opcode: Seq<u8>, target: u64, a: u64)
    ensures
        if in_reach(a, opcode.len() as int + 4, target) {
            assembler::branch(opcode, target, a) matches Ok(b) && leads_to(b, opcode, a, target)
        } else {
            assembler::branch(opcode, target, a) is Err
        },
{
    let n = opcode.len() as int;
    let x = target - (a + n + 4);
    let rel = bytes::wrapped(x);
    let w: int = 0x1_0000_0000_0000_0000;
    assert((a + n + 4 + rel) % w == target) by {
        let q = (x - rel) / w;
        assert(x - rel == w * q);
        assert(a + n + 4 + rel == target - w * q);
    }
    if in_reach(a, n + 4, target) {
        let d = choose|d: int|
            -0x8000_0000 <= d < 0x8000_0000 && #[trigger] lands(a, n + 4, d, target);
        assert((a + n + 4 + d) % w == target);
        assert((d - rel) % w == 0) by {
            let p = (a + n + 4 + d) / w;
            let r = (a + n + 4 + rel) / w;
            assert(d - rel == w * (p - r));
        }
        assert(d == rel);
        plain::lemma_le4(rel);
        let b = opcode + bytes::le(rel, 4);
        assert(b.take(n) =~= opcode);
        assert(b[n] == bytes::le(rel, 4)[0]);
        assert(b[n + 1] == bytes::le(rel, 4)[1]);
        assert(b[n + 2] == bytes::le(rel, 4)[2]);
        assert(b[n + 3] == bytes::le(rel, 4)[3]);
        assert(plain::four(b, n) == plain::four(bytes::le(rel, 4), 0));
    } else {
        assert(lands(a, n + 4, rel, target));
    }
}

/// The distance of the branch of a target.
proof fn lemma_branches(
    head: Seq<char>,
    opcode: Seq<u8>,
    t: Seq<char>,
    symbols: Map<Seq<char>, u64>,
    a: u64,
    e: EmitModel,
)
    requires
        texts::solid(head),
        forall|i: int| 0 <= i < head.len() ==> #[trigger] head[i] != '(',
        target_text(t),
        assembler::emission(text::lowered(head), seq![t], head + " "@ + t) == Ok::<
            EmitModel,
            Seq<char>,
        >(e),
        assembler::emitted(e, symbols, a) == match assembler::expression(symbols, t) {
            Ok(v) => assembler::branch(opcode, v, a),
            Err(x) => Err(x),
        },
    ensures
        branches(head, opcode, t, symbols, a),
{
    reveal(branches);
    lemma_line(head, t, symbols);
    if let Ok(v) = assembler::expression(symbols, t) {
        lemma_branch(opcode, v, a);
    }
}

/// The spelling of the words that begin a line.
proof fn lemma_spelling()
    ensures
        "db"@.len() == 2,
        "db"@[0] == 'd',
        "db"@[1] == 'b',
        "nop"@.len() == 3,
        "nop"@[0] == 'n',
        "nop"@[1] == 'o',
        "nop"@[2] == 'p',
        "jmp"@.len() == 3,
        "jmp"@[0] == 'j',
        "jmp"@[1] == 'm',
        "jmp"@[2] == 'p',
        "call"@.len() == 4,
        "call"@[0] == 'c',
        "call"@[1] == 'a',
        "call"@[2] == 'l',
        "call"@[3] == 'l',
        "jmp64"@.len() == 5,
        "jmp64"@[0] == 'j',
        "jmp64"@[1] == 'm',
        "jmp64"@[2] == 'p',
        "jmp64"@[3] == '6',
        "jmp64"@[4] == '4',
        "dq"@.len() == 2,
        "dq"@[0] == 'd',
        "dq"@[1] == 'q',
        "dd"@.len() == 2,
        "dd"@[0] == 'd',
        "dd"@[1] == 'd',
        "jo"@.len() == 2,
        "jo"@[0] == 'j',
        "jo"@[1] == 'o',
        "jno"@.len() == 3,
        "jno"@[0] == 'j',
        "jno"@[1] == 'n',
        "jno"@[2] == 'o',
        "jb"@.len() == 2,
        "jb"@[0] == 'j',
        "jb"@[1] == 'b',
        "jc"@.len() == 2,
        "jc"@[0] == 'j',
        "jc"@[1] == 'c',
        "jnae"@.len() == 4,
        "jnae"@[0] == 'j',
        "jnae"@[1] == 'n',
        "jnae"@[2] == 'a',
        "jnae"@[3] == 'e',
        "jae"@.len() == 3,
        "jae"@[0] == 'j',
        "jae"@[1] == 'a',
        "jae"@[2] == 'e',
        "jnb"@.len() == 3,
        "jnb"@[0] == 'j',
        "jnb"@[1] == 'n',
        "jnb"@[2] == 'b',
        "jnc"@.len() == 3,
        "jnc"@[0] == 'j',
        "jnc"@[1] == 'n',
        "jnc"@[2] == 'c',
        "je"@.len() == 2,
        "je"@[0] == 'j',
        "je"@[1] == 'e',
        "jz"@.len() == 2,
        "jz"@[0] == 'j',
        "jz"@[1] == 'z',
        "jne"@.len() == 3,
        "jne"@[0] == 'j',
        "jne"@[1] == 'n',
        "jne"@[2] == 'e',
        "jnz"@.len() == 3,
        "jnz"@[0] == 'j',
        "jnz"@[1] == 'n',
        "jnz"@[2] == 'z',
        "jbe"@.len() == 3,
        "jbe"@[0] == 'j',
        "jbe"@[1] == 'b',
        "jbe"@[2] == 'e',
        "jna"@.len() == 3,
        "jna"@[0] == 'j',
        "jna"@[1] == 'n',
        "jna"@[2] == 'a',
        "ja"@.len() == 2,
        "ja"@[0] == 'j',
        "ja"@[1] == 'a',
        "jnbe"@.len() == 4,
        "jnbe"@[0] == 'j',
        "jnbe"@[1] == 'n',
        "jnbe"@[2] == 'b',
        "jnbe"@[3] == 'e',
        "js"@.len() == 2,
        "js"@[0] == 'j',
        "js"@[1] == 's',
        "jns"@.len() == 3,
        "jns"@[0] == 'j',
        "jns"@[1] == 'n',
        "jns"@[2] == 's',
        "jp"@.len() == 2,
        "jp"@[0] == 'j',
        "jp"@[1] == 'p',
        "jpe"@.len() == 3,
        "jpe"@[0] == 'j',
        "jpe"@[1] == 'p',
        "jpe"@[2] == 'e',
        "jnp"@.len() == 3,
        "jnp"@[0] == 'j',
        "jnp"@[1] == 'n',
        "jnp"@[2] == 'p',
        "jpo"@.len() == 3,
        "jpo"@[0] == 'j',
        "jpo"@[1] == 'p',
        "jpo"@[2] == 'o',
        "jl"@.len() == 2,
        "jl"@[0] == 'j',
        "jl"@[1] == 'l',
        "jnge"@.len() == 4,
        "jnge"@[0] == 'j',
        "jnge"@[1] == 'n',
        "jnge"@[2] == 'g',
        "jnge"@[3] == 'e',
        "jge"@.len() == 3,
        "jge"@[0] == 'j',
        "jge"@[1] == 'g',
        "jge"@[2] == 'e',
        "jnl"@.len() == 3,
        "jnl"@[0] == 'j',
        "jnl"@[1] == 'n',
        "jnl"@[2] == 'l',
        "jle"@.len() == 3,
        "jle"@[0] == 'j',
        "jle"@[1] == 'l',
        "jle"@[2] == 'e',
        "jng"@.len() == 3,
        "jng"@[0] == 'j',
        "jng"@[1] == 'n',
        "jng"@[2] == 'g',
        "jg"@.len() == 2,
        "jg"@[0] == 'j',
        "jg"@[1] == 'g',
        "jnle"@.len() == 4,
        "jnle"@[0] == 'j',
        "jnle"@[1] == 'n',
        "jnle"@[2] == 'l',
        "jnle"@[3] == 'e',
{
    reveal_strlit("db");
    reveal_strlit("nop");
    reveal_strlit("jmp");
    reveal_strlit("call");
    reveal_strlit("jmp64");
    reveal_strlit("dq");
    reveal_strlit("dd");
    reveal_strlit("jo");
    reveal_strlit("jno");
    reveal_strlit("jb");
    reveal_strlit("jc");
    reveal_strlit("jnae");
    reveal_strlit("jae");
    reveal_strlit("jnb");
    reveal_strlit("jnc");
    reveal_strlit("je");
    reveal_strlit("jz");
    reveal_strlit("jne");
    reveal_strlit("jnz");
    reveal_strlit("jbe");
    reveal_strlit("jna");
    reveal_strlit("ja");
    reveal_strlit("jnbe");
    reveal_strlit("js");
    reveal_strlit("jns");
    reveal_strlit("jp");
    reveal_strlit("jpe");
    reveal_strlit("jnp");
    reveal_strlit("jpo");
    reveal_strlit("jl");
    reveal_strlit("jnge");
    reveal_strlit("jge");
    reveal_strlit("jnl");
    reveal_strlit("jle");
    reveal_strlit("jng");
    reveal_strlit("jg");
    reveal_strlit("jnle");
}

proof fn lemma_joined(t: Seq<char>)
    ensures
        text::joined(seq![t]) == t,
{
    assert(seq![t].drop_last() =~= Seq::<Seq<char>>::empty());
    assert(text::joined(Seq::<Seq<char>>::empty()) =~= Seq::<char>::empty());
    assert(text::joined(seq![t]) =~= t);
}

proof fn lemma_head_jmp(t: Seq<char>, line: Seq<char>)
    ensures
        assembler::emission("jmp"@, seq![t], line) == Ok::<EmitModel, Seq<char>>(EmitModel::JmpRel(t)),
{
    lemma_spelling();
    lemma_joined(t);
}

proof fn lemma_word_jmp()
    ensures
        text::lowered("jmp"@) == "jmp"@,
        texts::solid("jmp"@),
        forall|i: int| 0 <= i < "jmp"@.len() ==> #[trigger] "jmp"@[i] != '(',
{
    lemma_spelling();
    texts::lemma_in_lower_case("jmp"@);
}

proof fn lemma_head_call(t: Seq<char>, line: Seq<char>)
    ensures
        assembler::emission("call"@, seq![t], line) == Ok::<EmitModel, Seq<char>>(EmitModel::CallRel(t)),
{
    lemma_spelling();
    lemma_joined(t);
}

proof fn lemma_word_call()
    ensures
        text::lowered("call"@) == "call"@,
        texts::solid("call"@),
        forall|i: int| 0 <= i < "call"@.len() ==> #[trigger] "call"@[i] != '(',
{
    lemma_spelling();
    texts::lemma_in_lower_case("call"@);
}

proof fn lemma_head_jmp64(t: Seq<char>, line: Seq<char>)
    ensures
        assembler::emission("jmp64"@, seq![t], line) == Ok::<EmitModel, Seq<char>>(EmitModel::JmpAbs(t)),
{
    lemma_spelling();
    lemma_joined(t);
}

proof fn lemma_word_jmp64()
    ensures
        text::lowered("jmp64"@) == "jmp64"@,
        texts::solid("jmp64"@),
        forall|i: int| 0 <= i < "jmp64"@.len() ==> #[trigger] "jmp64"@[i] != '(',
{
    lemma_spelling();
    texts::lemma_in_lower_case("jmp64"@);
}

proof fn lemma_head_dq(t: Seq<char>, line: Seq<char>)
    ensures
        assembler::emission("dq"@, seq![t], line) == Ok::<EmitModel, Seq<char>>(EmitModel::Dq(t)),
{
    lemma_spelling();
    lemma_joined(t);
}

proof fn lemma_word_dq()
    ensures
        text::lowered("dq"@) == "dq"@,
        texts::solid("dq"@),
        forall|i: int| 0 <= i < "dq"@.len() ==> #[trigger] "dq"@[i] != '(',
{
    lemma_spelling();
    texts::lemma_in_lower_case("dq"@);
}

proof fn lemma_head_dd(t: Seq<char>, line: Seq<char>)
    ensures
        assembler::emission("dd"@, seq![t], line) == Ok::<EmitModel, Seq<char>>(EmitModel::Dd(t)),
{
    lemma_spelling();
    lemma_joined(t);
}

proof fn lemma_word_dd()
    ensures
        text::lowered("dd"@) == "dd"@,
        texts::solid("dd"@),
        forall|i: int| 0 <= i < "dd"@.len() ==> #[trigger] "dd"@[i] != '(',
{
    lemma_spelling();
    texts::lemma_in_lower_case("dd"@);
}

/// `call t` at the address a writes 0xE8 and the distance from a+5 to the value of t;
/// `jmp t` writes 0xE9 in its place.
pub proof fn lemma_call_and_jump(t: Seq<char>, symbols: Map<Seq<char>, u64>, a: u64)
    requires
        target_text(t),
    ensures
        branches("call"@, seq![0xE8], t, symbols, a),
        branches("jmp"@, seq![0xE9], t, symbols, a),
{
    lemma_word_call();
    lemma_word_jmp();
    lemma_head_call(t, "call"@ + " "@ + t);
    lemma_head_jmp(t, "jmp"@ + " "@ + t);
    lemma_branches("call"@, seq![0xE8], t, symbols, a, EmitModel::CallRel(t));
    lemma_branches("jmp"@, seq![0xE9], t, symbols, a, EmitModel::JmpRel(t));
}

/// Whether the line of a word and a target writes these bytes before the bytes of the
/// value of the target, `k` of them, wherever it stands.
#[verifier::opaque]
pub open spec fn writes_value(
    head: Seq<char>,
    before: Seq<u8>,
    k: int,
    t: Seq<char>,
    symbols: Map<Seq<char>, u64>,
    a: u64,
) -> bool {
    assembler::command(head + " "@ + t, symbols) matches Ok(CommandModel::Emit(e)) && match (
        assembler::expression(symbols, t)
    ) {
        Ok(v) => assembler::emitted(e, symbols, a) == Ok::<Seq<u8>, Seq<char>>(
            before + plain::low_bytes(v as int, k),
        ),
        Err(x) => assembler::emitted(e, symbols, a) == Err::<Seq<u8>, Seq<char>>(x),
    }
}

proof fn lemma_writes_value(
    head: Seq<char>,
    before: Seq<u8>,
    k: int,
    t: Seq<char>,
    symbols: Map<Seq<char>, u64>,
    a: u64,
    e: EmitModel,
)
    requires
        texts::solid(head),
        forall|i: int| 0 <= i < head.len() ==> #[trigger] head[i] != '(',
        target_text(t),
        k == 4 || k == 8,
        assembler::emission(text::lowered(head), seq![t], head + " "@ + t) == Ok::<
            EmitModel,
            Seq<char>,
        >(e),
        assembler::emitted(e, symbols, a) == match assembler::expression(symbols, t) {
            Ok(v) => Ok::<Seq<u8>, Seq<char>>(before + bytes::le(v as int, k as nat)),
            Err(x) => Err(x),
        },
    ensures
        writes_value(head, before, k, t, symbols, a),
{
    reveal(writes_value);
    lemma_line(head, t, symbols);
    if let Ok(v) = assembler::expression(symbols, t) {
        plain::lemma_low_bytes(v as int, k as nat);
    }
}

proof fn lemma_far_jump_written(t: Seq<char>, symbols: Map<Seq<char>, u64>, a: u64)
    requires
        target_text(t),
    ensures
        writes_value("jmp64"@, seq![0xFF, 0x25, 0, 0, 0, 0], 8, t, symbols, a),
{
    lemma_word_jmp64();
    lemma_head_jmp64(t, "jmp64"@ + " "@ + t);
    let e = EmitModel::JmpAbs(t);
    let before: Seq<u8> = seq![0xFF, 0x25, 0, 0, 0, 0];
    if let Ok(v) = assembler::expression(symbols, t) {
        assert(assembler::emitted(e, symbols, a)->Ok_0 =~= before + bytes::le(v as int, 8));
    }
    lemma_writes_value("jmp64"@, before, 8, t, symbols, a, e);
}

proof fn lemma_eight_written(t: Seq<char>, symbols: Map<Seq<char>, u64>, a: u64)
    requires
        target_text(t),
    ensures
        writes_value("dq"@, Seq::empty(), 8, t, symbols, a),
{
    lemma_word_dq();
    lemma_head_dq(t, "dq"@ + " "@ + t);
    let e = EmitModel::Dq(t);
    let before: Seq<u8> = Seq::empty();
    if let Ok(v) = assembler::expression(symbols, t) {
        assert(assembler::emitted(e, symbols, a)->Ok_0 =~= before + bytes::le(v as int, 8));
    }
    lemma_writes_value("dq"@, before, 8, t, symbols, a, e);
}

proof fn lemma_four_written(t: Seq<char>, symbols: Map<Seq<char>, u64>, a: u64)
    requires
        target_text(t),
    ensures
        writes_value("dd"@, Seq::empty(), 4, t, symbols, a),
{
    lemma_word_dd();
    lemma_head_dd(t, "dd"@ + " "@ + t);
    let e = EmitModel::Dd(t);
    let before: Seq<u8> = Seq::empty();
    if let Ok(v) = assembler::expression(symbols, t) {
        assert(assembler::emitted(e, symbols, a)->Ok_0 =~= before + bytes::le(v as int, 4));
    }
    lemma_writes_value("dd"@, before, 4, t, symbols, a, e);
}

/// `jmp64 t` writes the jump through the eight bytes behind it, FF 25 00 00 00 00, and
/// the value of t in eight bytes; `dq t` writes the value in eight bytes, `dd t` in
/// four.
pub proof fn lemma_numbers_written(t: Seq<char>, symbols: Map<Seq<char>, u64>, a: u64)
    requires
        target_text(t),
    ensures
        writes_value("jmp64"@, seq![0xFF, 0x25, 0, 0, 0, 0], 8, t, symbols, a),
        writes_value("dq"@, Seq::empty(), 8, t, symbols, a),
        writes_value("dd"@, Seq::empty(), 4, t, symbols, a),
{
    lemma_far_jump_written(t, symbols, a);
    lemma_eight_written(t, symbols, a);
    lemma_four_written(t, symbols, a);
}

/// The names of a condition: bit 0 of its number turns it into its opposite.
pub open spec fn condition_names(k: int) -> Seq<Seq<char>> {
    if k == 0 {
        seq!["jo"@]
    } else if k == 1 {
        seq!["jno"@]
    } else if k == 2 {
        seq!["jb"@, "jc"@, "jnae"@]
    } else if k == 3 {
        seq!["jae"@, "jnb"@, "jnc"@]
    } else if k == 4 {
        seq!["je"@, "jz"@]
    } else if k == 5 {
        seq!["jne"@, "jnz"@]
    } else if k == 6 {
        seq!["jbe"@, "jna"@]
    } else if k == 7 {
        seq!["ja"@, "jnbe"@]
    } else if k == 8 {
        seq!["js"@]
    } else if k == 9 {
        seq!["jns"@]
    } else if k == 10 {
        seq!["jp"@, "jpe"@]
    } else if k == 11 {
        seq!["jnp"@, "jpo"@]
    } else if k == 12 {
        seq!["jl"@, "jnge"@]
    } else if k == 13 {
        seq!["jge"@, "jnl"@]
    } else if k == 14 {
        seq!["jle"@, "jng"@]
    } else if k == 15 {
        seq!["jg"@, "jnle"@]
    } else {
        Seq::empty()
    }
}

proof fn lemma_condition(k: int, i: int)
    requires
        0 <= k < 16,
        0 <= i < condition_names(k).len(),
    ensures
        assembler::condition(condition_names(k)[i]) == Some((0x80 + k) as u8),
        text::lowered(condition_names(k)[i]) == condition_names(k)[i],
        texts::solid(condition_names(k)[i]),
        forall|j: int|
            0 <= j < condition_names(k)[i].len() ==> #[trigger] condition_names(k)[i][j] != '(',
        condition_names(k)[i].len() > 1,
        condition_names(k)[i][0] == 'j',
        condition_names(k)[i][1] != 'm',
{
    lemma_spelling();
    texts::lemma_in_lower_case(condition_names(k)[i]);
}

/// A conditional jump writes 0x0F, 0x80 and the number of its condition, and the distance
/// from its end, six bytes on, to the value of its target.
pub proof fn lemma_conditional_jump(
    k: int,
    i: int,
    t: Seq<char>,
    symbols: Map<Seq<char>, u64>,
    a: u64,
)
    requires
        0 <= k < 16,
        0 <= i < condition_names(k).len(),
        target_text(t),
    ensures
        branches(condition_names(k)[i], seq![0x0F, (0x80 + k) as u8], t, symbols, a),
{
    lemma_condition(k, i);
    let h = condition_names(k)[i];
    lemma_head_conditional(h, (0x80 + k) as u8, t, h + " "@ + t);
    let code = (0x80 + k) as u8;
    lemma_branches(h, seq![0x0F, code], t, symbols, a, EmitModel::Jcc(code, t));
}

proof fn lemma_head_conditional(h: Seq<char>, code: u8, t: Seq<char>, line: Seq<char>)
    requires
        assembler::condition(h) == Some(code),
        h.len() > 1,
        h[0] == 'j',
        h[1] != 'm',
    ensures
        assembler::emission(h, seq![t], line) == Ok::<EmitModel, Seq<char>>(
            EmitModel::Jcc(code, t),
        ),
{
    lemma_spelling();
    lemma_joined(t);
}

/// A text without its white space.
pub open spec fn squeezed(t: Seq<char>) -> Seq<char>
    decreases t.len(),
{
    if t.len() == 0 {
        t
    } else if text::is_space(t[0]) {
        squeezed(t.skip(1))
    } else {
        seq![t[0]] + squeezed(t.skip(1))
    }
}

proof fn lemma_squeezed_space(t: Seq<char>, n: int)
    requires
        0 <= n <= t.len(),
        forall|i: int| 0 <= i < n ==> text::is_space(#[trigger] t[i]),
    ensures
        squeezed(t) == squeezed(t.skip(n)),
    decreases n,
{
    if n > 0 {
        assert(text::is_space(t[0]));
        let u = t.skip(1);
        assert forall|i: int| 0 <= i < n - 1 implies text::is_space(#[trigger] u[i]) by {
            assert(u[i] == t[i + 1]);
        }
        lemma_squeezed_space(u, n - 1);
        assert(u.skip(n - 1) =~= t.skip(n));
    } else {
        assert(t.skip(0) =~= t);
    }
}

proof fn lemma_squeezed_word(t: Seq<char>, n: int)
    requires
        0 <= n <= t.len(),
        forall|i: int| 0 <= i < n ==> !text::is_space(#[trigger] t[i]),
    ensures
        squeezed(t) == t.take(n) + squeezed(t.skip(n)),
    decreases n,
{
    if n > 0 {
        assert(!text::is_space(t[0]));
        let u = t.skip(1);
        assert forall|i: int| 0 <= i < n - 1 implies !text::is_space(#[trigger] u[i]) by {
            assert(u[i] == t[i + 1]);
        }
        lemma_squeezed_word(u, n - 1);
        assert(u.skip(n - 1) =~= t.skip(n));
        assert(t.take(n) =~= seq![t[0]] + u.take(n - 1));
        assert(seq![t[0]] + (u.take(n - 1) + squeezed(t.skip(n))) =~= t.take(n) + squeezed(
            t.skip(n),
        ));
    } else {
        assert(t.skip(0) =~= t);
        assert(t.take(0) + squeezed(t) =~= squeezed(t));
    }
}

proof fn lemma_joined_words(w: Seq<char>, q: Seq<Seq<char>>)
    ensures
        text::joined(seq![w] + q) == w + text::joined(q),
    decreases q.len(),
{
    let p = seq![w] + q;
    if q.len() == 0 {
        assert(p =~= seq![w]);
        lemma_joined(w);
        assert(w + text::joined(q) =~= w);
    } else {
        assert(p.drop_last() =~= seq![w] + q.drop_last());
        assert(p.last() == q.last());
        lemma_joined_words(w, q.drop_last());
        assert(w + text::joined(q.drop_last()) + q.last() =~= w + (text::joined(q.drop_last())
            + q.last()));
    }
}

/// The words of a text joined are the text without its white space.
pub proof fn lemma_words_joined(t: Seq<char>)
    ensures
        text::joined(text::words_of(t)) == squeezed(t),
    decreases t.len(),
{
    let k = text::Class::Space;
    texts::lemma_trimmed_start_is(t, k);
    let s = text::trimmed_start(t, k);
    let n = choose|n: int|
        0 <= n <= t.len() && s == #[trigger] t.skip(n) && (forall|i: int|
            0 <= i < n ==> text::in_class(#[trigger] t[i], k));
    assert forall|i: int| 0 <= i < n implies text::is_space(#[trigger] t[i]) by {
        assert(text::in_class(t[i], k));
    }
    lemma_squeezed_space(t, n);
    if s.len() > 0 {
        text::lemma_first_in(s, k);
        let i = text::first_in(s, k);
        assert(i > 0);
        assert forall|j: int| 0 <= j < i implies !text::is_space(#[trigger] s[j]) by {
            assert(!text::in_class(s[j], k));
        }
        lemma_squeezed_word(s, i);
        lemma_words_joined(s.skip(i));
        lemma_joined_words(s.take(i), text::words_of(s.skip(i)));
    }
}

/// Whether a line, placed at `a`, writes an opcode and the distance to the value of a target;
/// where that is out of reach nothing is written.
#[verifier::opaque]
pub open spec fn branches_to(
    line: Seq<char>,
    opcode: Seq<u8>,
    target: Seq<char>,
    symbols: Map<Seq<char>, u64>,
    a: u64,
) -> bool {
    assembler::command(line, symbols) matches Ok(CommandModel::Emit(e)) && match (
        assembler::expression(symbols, target)
    ) {
        Ok(v) => if in_reach(a, opcode.len() as int + 4, v) {
            assembler::emitted(e, symbols, a) matches Ok(b) && leads_to(b, opcode, a, v)
        } else {
            assembler::emitted(e, symbols, a) is Err
        },
        Err(x) => assembler::emitted(e, symbols, a) == Err::<Seq<u8>, Seq<char>>(x),
    }
}

proof fn lemma_spaced_line(head: Seq<char>, t: Seq<char>, symbols: Map<Seq<char>, u64>)
    requires
        texts::solid(head),
        forall|i: int| 0 <= i < head.len() ==> #[trigger] head[i] != '(',
        t.len() > 0,
        forall|i: int| 0 <= i < t.len() ==> #[trigger] t[i] != '(',
        t.last() != ':',
    ensures
        assembler::command(head + " "@ + t, symbols) == assembler::writes(
            assembler::emission(text::lowered(head), text::words_of(t), head + " "@ + t),
        ),
{
    reveal_strlit(" ");
    let s = head + " "@ + t;
    assert(s.last() == t.last());
    assert forall|i: int| 0 <= i < s.len() implies #[trigger] s[i] != '(' by {
        if i < head.len() {
            assert(s[i] == head[i]);
        } else if i > head.len() {
            assert(s[i] == t[i - head.len() - 1]);
        }
    }
    texts::lemma_absent(s, '(');
    texts::lemma_words(head, t);
    let w = seq![head] + text::words_of(t);
    assert(w[0] == head);
    assert(w.skip(1) =~= text::words_of(t));
}

proof fn lemma_spaced_heads(ws: Seq<Seq<char>>, line: Seq<char>)
    ensures
        assembler::emission("call"@, ws, line) == Ok::<EmitModel, Seq<char>>(
            EmitModel::CallRel(text::joined(ws)),
        ),
        assembler::emission("jmp"@, ws, line) == Ok::<EmitModel, Seq<char>>(
            EmitModel::JmpRel(text::joined(ws)),
        ),
{
    lemma_spelling();
}

/// White space inside a target does not count: `call` and `jmp` with any text behind them,
/// placed at a, write 0xE8 and 0xE9 and the distance from a+5 to the value of that text
/// without its white space.
pub proof fn lemma_spaced_targets(t: Seq<char>, symbols: Map<Seq<char>, u64>, a: u64)
    requires
        t.len() > 0,
        forall|i: int| 0 <= i < t.len() ==> #[trigger] t[i] != '(',
        t.last() != ':',
    ensures
        branches_to("call"@ + " "@ + t, seq![0xE8], squeezed(t), symbols, a),
        branches_to("jmp"@ + " "@ + t, seq![0xE9], squeezed(t), symbols, a),
{
    lemma_words_joined(t);
    lemma_spaced_call(t, symbols, a);
    lemma_spaced_jump(t, symbols, a);
}

proof fn lemma_spaced_call(t: Seq<char>, symbols: Map<Seq<char>, u64>, a: u64)
    requires
        t.len() > 0,
        forall|i: int| 0 <= i < t.len() ==> #[trigger] t[i] != '(',
        t.last() != ':',
    ensures
        branches_to("call"@ + " "@ + t, seq![0xE8], text::joined(text::words_of(t)), symbols, a),
{
    reveal(branches_to);
    lemma_word_call();
    lemma_spaced_line("call"@, t, symbols);
    lemma_spaced_heads(text::words_of(t), "call"@ + " "@ + t);
    if let Ok(v) = assembler::expression(symbols, text::joined(text::words_of(t))) {
        lemma_branch(seq![0xE8], v, a);
    }
}

proof fn lemma_spaced_jump(t: Seq<char>, symbols: Map<Seq<char>, u64>, a: u64)
    requires
        t.len() > 0,
        forall|i: int| 0 <= i < t.len() ==> #[trigger] t[i] != '(',
        t.last() != ':',
    ensures
        branches_to("jmp"@ + " "@ + t, seq![0xE9], text::joined(text::words_of(t)), symbols, a),
{
    reveal(branches_to);
    lemma_word_jmp();
    lemma_spaced_line("jmp"@, t, symbols);
    lemma_spaced_heads(text::words_of(t), "jmp"@ + " "@ + t);
    if let Ok(v) = assembler::expression(symbols, text::joined(text::words_of(t))) {
        lemma_branch(seq![0xE9], v, a);
    }
}

} // verus!
