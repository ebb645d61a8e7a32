//! The instructions of a processor: for each mnemonic the bytes that it stands for.
use crate::asm_x86;
use crate::asm_x86::{GReg, InsnModel, Mem, OperandModel, Repr, Rm};
use crate::laws::machine;
use crate::laws::machine::Place;
use crate::laws::plain;
use crate::text;
use vstd::prelude::*;

verus! {

/// Whether an encoding is a prefix, an opcode with its operands, and some bytes.
pub open spec fn means(
    r: Result<Seq<u8>, Seq<char>>,
    prefix: Seq<u8>,
    opcode: Seq<u8>,
    wide: bool,
    reg: int,
    place: Place,
    rest: Seq<u8>,
) -> bool {
    r matches Ok(b) && {
        &&& b.len() >= prefix.len()
        &&& b.take(prefix.len() as int) == prefix
        &&& machine::stands_for(b.skip(prefix.len() as int), opcode, wide, reg, place, rest)
    }
}

/// Whether a number can stand in an immediate of `width` bytes, with a sign or
/// without one.
pub open spec fn holds(v: int, width: int) -> bool {
    if width == 1 {
        -0x80 <= v < 0x100
    } else if width == 4 {
        -0x8000_0000 <= v < 0x1_0000_0000
    } else {
        true
    }
}

/// Whether a mnemonic with operands is assembled to an opcode with the operands
/// and, for every value that the immediate `t` may have, the bytes of that value.
pub open spec fn gives(
    mnem: Seq<char>,
    ops: Seq<OperandModel>,
    prefix: Seq<u8>,
    opcode: Seq<u8>,
    wide: bool,
    reg: int,
    place: Place,
    width: int,
    t: Option<Seq<char>>,
) -> bool {
    asm_x86::instruction(mnem, Ok(ops)) matches Some(r) && (r matches Ok(i) && {
        &&& i.imm == t
        &&& forall|v: int|
            {
                let e = #[trigger] asm_x86::encoded(i.repr, v);
                if holds(v, width) {
                    means(e, prefix, opcode, wide, reg, place, plain::low_bytes(v, width))
                } else {
                    e is Err
                }
            }
    })
}

/// Whether a mnemonic with operands is assembled to these bytes.
pub open spec fn is_just(mnem: Seq<char>, ops: Seq<OperandModel>, b: Seq<u8>) -> bool {
    asm_x86::instruction(mnem, Ok(ops)) matches Some(r) && (r matches Ok(i) && {
        &&& i.imm is None
        &&& forall|v: int| #[trigger] asm_x86::encoded(i.repr, v) == Ok::<Seq<u8>, Seq<char>>(b)
    })
}

/// Whether a mnemonic with operands is refused.
pub open spec fn refused(mnem: Seq<char>, ops: Seq<OperandModel>) -> bool {
    asm_x86::instruction(mnem, Ok(ops)) matches Some(r) && r is Err
}

/// The spelling of the mnemonics.
pub proof fn lemma_spelling()
    ensures
        "ret"@.len() == 3,
        "ret"@[0] == 'r',
        "ret"@[1] == 'e',
        "ret"@[2] == 't',
        "mov"@.len() == 3,
        "mov"@[0] == 'm',
        "mov"@[1] == 'o',
        "mov"@[2] == 'v',
        "lea"@.len() == 3,
        "lea"@[0] == 'l',
        "lea"@[1] == 'e',
        "lea"@[2] == 'a',
        "test"@.len() == 4,
        "test"@[0] == 't',
        "test"@[1] == 'e',
        "test"@[2] == 's',
        "test"@[3] == 't',
        "imul"@.len() == 4,
        "imul"@[0] == 'i',
        "imul"@[1] == 'm',
        "imul"@[2] == 'u',
        "imul"@[3] == 'l',
        "movzx"@.len() == 5,
        "movzx"@[0] == 'm',
        "movzx"@[1] == 'o',
        "movzx"@[2] == 'v',
        "movzx"@[3] == 'z',
        "movzx"@[4] == 'x',
        "shl"@.len() == 3,
        "shl"@[0] == 's',
        "shl"@[1] == 'h',
        "shl"@[2] == 'l',
        "sal"@.len() == 3,
        "sal"@[0] == 's',
        "sal"@[1] == 'a',
        "sal"@[2] == 'l',
        "shr"@.len() == 3,
        "shr"@[0] == 's',
        "shr"@[1] == 'h',
        "shr"@[2] == 'r',
        "sar"@.len() == 3,
        "sar"@[0] == 's',
        "sar"@[1] == 'a',
        "sar"@[2] == 'r',
        "push"@.len() == 4,
        "push"@[0] == 'p',
        "push"@[1] == 'u',
        "push"@[2] == 's',
        "push"@[3] == 'h',
        "pop"@.len() == 3,
        "pop"@[0] == 'p',
        "pop"@[1] == 'o',
        "pop"@[2] == 'p',
        "inc"@.len() == 3,
        "inc"@[0] == 'i',
        "inc"@[1] == 'n',
        "inc"@[2] == 'c',
        "dec"@.len() == 3,
        "dec"@[0] == 'd',
        "dec"@[1] == 'e',
        "dec"@[2] == 'c',
        "not"@.len() == 3,
        "not"@[0] == 'n',
        "not"@[1] == 'o',
        "not"@[2] == 't',
        "neg"@.len() == 3,
        "neg"@[0] == 'n',
        "neg"@[1] == 'e',
        "neg"@[2] == 'g',
        "movd"@.len() == 4,
        "movd"@[0] == 'm',
        "movd"@[1] == 'o',
        "movd"@[2] == 'v',
        "movd"@[3] == 'd',
        "movq"@.len() == 4,
        "movq"@[0] == 'm',
        "movq"@[1] == 'o',
        "movq"@[2] == 'v',
        "movq"@[3] == 'q',
        "movss"@.len() == 5,
        "movss"@[0] == 'm',
        "movss"@[1] == 'o',
        "movss"@[2] == 'v',
        "movss"@[3] == 's',
        "movss"@[4] == 's',
        "movsd"@.len() == 5,
        "movsd"@[0] == 'm',
        "movsd"@[1] == 'o',
        "movsd"@[2] == 'v',
        "movsd"@[3] == 's',
        "movsd"@[4] == 'd',
        "movups"@.len() == 6,
        "movups"@[0] == 'm',
        "movups"@[1] == 'o',
        "movups"@[2] == 'v',
        "movups"@[3] == 'u',
        "movups"@[4] == 'p',
        "movups"@[5] == 's',
        "movupd"@.len() == 6,
        "movupd"@[0] == 'm',
        "movupd"@[1] == 'o',
        "movupd"@[2] == 'v',
        "movupd"@[3] == 'u',
        "movupd"@[4] == 'p',
        "movupd"@[5] == 'd',
        "movaps"@.len() == 6,
        "movaps"@[0] == 'm',
        "movaps"@[1] == 'o',
        "movaps"@[2] == 'v',
        "movaps"@[3] == 'a',
        "movaps"@[4] == 'p',
        "movaps"@[5] == 's',
        "movapd"@.len() == 6,
        "movapd"@[0] == 'm',
        "movapd"@[1] == 'o',
        "movapd"@[2] == 'v',
        "movapd"@[3] == 'a',
        "movapd"@[4] == 'p',
        "movapd"@[5] == 'd',
        "addss"@.len() == 5,
        "addss"@[0] == 'a',
        "addss"@[1] == 'd',
        "addss"@[2] == 'd',
        "addss"@[3] == 's',
        "addss"@[4] == 's',
        "subss"@.len() == 5,
        "subss"@[0] == 's',
        "subss"@[1] == 'u',
        "subss"@[2] == 'b',
        "subss"@[3] == 's',
        "subss"@[4] == 's',
        "mulss"@.len() == 5,
        "mulss"@[0] == 'm',
        "mulss"@[1] == 'u',
        "mulss"@[2] == 'l',
        "mulss"@[3] == 's',
        "mulss"@[4] == 's',
        "divss"@.len() == 5,
        "divss"@[0] == 'd',
        "divss"@[1] == 'i',
        "divss"@[2] == 'v',
        "divss"@[3] == 's',
        "divss"@[4] == 's',
        "addsd"@.len() == 5,
        "addsd"@[0] == 'a',
        "addsd"@[1] == 'd',
        "addsd"@[2] == 'd',
        "addsd"@[3] == 's',
        "addsd"@[4] == 'd',
        "subsd"@.len() == 5,
        "subsd"@[0] == 's',
        "subsd"@[1] == 'u',
        "subsd"@[2] == 'b',
        "subsd"@[3] == 's',
        "subsd"@[4] == 'd',
        "mulsd"@.len() == 5,
        "mulsd"@[0] == 'm',
        "mulsd"@[1] == 'u',
        "mulsd"@[2] == 'l',
        "mulsd"@[3] == 's',
        "mulsd"@[4] == 'd',
        "divsd"@.len() == 5,
        "divsd"@[0] == 'd',
        "divsd"@[1] == 'i',
        "divsd"@[2] == 'v',
        "divsd"@[3] == 's',
        "divsd"@[4] == 'd',
        "addps"@.len() == 5,
        "addps"@[0] == 'a',
        "addps"@[1] == 'd',
        "addps"@[2] == 'd',
        "addps"@[3] == 'p',
        "addps"@[4] == 's',
        "subps"@.len() == 5,
        "subps"@[0] == 's',
        "subps"@[1] == 'u',
        "subps"@[2] == 'b',
        "subps"@[3] == 'p',
        "subps"@[4] == 's',
        "mulps"@.len() == 5,
        "mulps"@[0] == 'm',
        "mulps"@[1] == 'u',
        "mulps"@[2] == 'l',
        "mulps"@[3] == 'p',
        "mulps"@[4] == 's',
        "divps"@.len() == 5,
        "divps"@[0] == 'd',
        "divps"@[1] == 'i',
        "divps"@[2] == 'v',
        "divps"@[3] == 'p',
        "divps"@[4] == 's',
        "addpd"@.len() == 5,
        "addpd"@[0] == 'a',
        "addpd"@[1] == 'd',
        "addpd"@[2] == 'd',
        "addpd"@[3] == 'p',
        "addpd"@[4] == 'd',
        "subpd"@.len() == 5,
        "subpd"@[0] == 's',
        "subpd"@[1] == 'u',
        "subpd"@[2] == 'b',
        "subpd"@[3] == 'p',
        "subpd"@[4] == 'd',
        "mulpd"@.len() == 5,
        "mulpd"@[0] == 'm',
        "mulpd"@[1] == 'u',
        "mulpd"@[2] == 'l',
        "mulpd"@[3] == 'p',
        "mulpd"@[4] == 'd',
        "divpd"@.len() == 5,
        "divpd"@[0] == 'd',
        "divpd"@[1] == 'i',
        "divpd"@[2] == 'v',
        "divpd"@[3] == 'p',
        "divpd"@[4] == 'd',
        "xorps"@.len() == 5,
        "xorps"@[0] == 'x',
        "xorps"@[1] == 'o',
        "xorps"@[2] == 'r',
        "xorps"@[3] == 'p',
        "xorps"@[4] == 's',
        "xorpd"@.len() == 5,
        "xorpd"@[0] == 'x',
        "xorpd"@[1] == 'o',
        "xorpd"@[2] == 'r',
        "xorpd"@[3] == 'p',
        "xorpd"@[4] == 'd',
        "cvtsi2ss"@.len() == 8,
        "cvtsi2ss"@[0] == 'c',
        "cvtsi2ss"@[1] == 'v',
        "cvtsi2ss"@[2] == 't',
        "cvtsi2ss"@[3] == 's',
        "cvtsi2ss"@[4] == 'i',
        "cvtsi2ss"@[5] == '2',
        "cvtsi2ss"@[6] == 's',
        "cvtsi2ss"@[7] == 's',
        "cvtsi2sd"@.len() == 8,
        "cvtsi2sd"@[0] == 'c',
        "cvtsi2sd"@[1] == 'v',
        "cvtsi2sd"@[2] == 't',
        "cvtsi2sd"@[3] == 's',
        "cvtsi2sd"@[4] == 'i',
        "cvtsi2sd"@[5] == '2',
        "cvtsi2sd"@[6] == 's',
        "cvtsi2sd"@[7] == 'd',
        "cvttss2si"@.len() == 9,
        "cvttss2si"@[0] == 'c',
        "cvttss2si"@[1] == 'v',
        "cvttss2si"@[2] == 't',
        "cvttss2si"@[3] == 't',
        "cvttss2si"@[4] == 's',
        "cvttss2si"@[5] == 's',
        "cvttss2si"@[6] == '2',
        "cvttss2si"@[7] == 's',
        "cvttss2si"@[8] == 'i',
        "cvttsd2si"@.len() == 9,
        "cvttsd2si"@[0] == 'c',
        "cvttsd2si"@[1] == 'v',
        "cvttsd2si"@[2] == 't',
        "cvttsd2si"@[3] == 't',
        "cvttsd2si"@[4] == 's',
        "cvttsd2si"@[5] == 'd',
        "cvttsd2si"@[6] == '2',
        "cvttsd2si"@[7] == 's',
        "cvttsd2si"@[8] == 'i',
        "add"@.len() == 3,
        "add"@[0] == 'a',
        "add"@[1] == 'd',
        "add"@[2] == 'd',
        "or"@.len() == 2,
        "or"@[0] == 'o',
        "or"@[1] == 'r',
        "adc"@.len() == 3,
        "adc"@[0] == 'a',
        "adc"@[1] == 'd',
        "adc"@[2] == 'c',
        "sbb"@.len() == 3,
        "sbb"@[0] == 's',
        "sbb"@[1] == 'b',
        "sbb"@[2] == 'b',
        "and"@.len() == 3,
        "and"@[0] == 'a',
        "and"@[1] == 'n',
        "and"@[2] == 'd',
        "sub"@.len() == 3,
        "sub"@[0] == 's',
        "sub"@[1] == 'u',
        "sub"@[2] == 'b',
        "xor"@.len() == 3,
        "xor"@[0] == 'x',
        "xor"@[1] == 'o',
        "xor"@[2] == 'r',
        "cmp"@.len() == 3,
        "cmp"@[0] == 'c',
        "cmp"@[1] == 'm',
        "cmp"@[2] == 'p',
{
    reveal_strlit("ret");
    reveal_strlit("mov");
    reveal_strlit("lea");
    reveal_strlit("test");
    reveal_strlit("imul");
    reveal_strlit("movzx");
    reveal_strlit("shl");
    reveal_strlit("sal");
    reveal_strlit("shr");
    reveal_strlit("sar");
    reveal_strlit("push");
    reveal_strlit("pop");
    reveal_strlit("inc");
    reveal_strlit("dec");
    reveal_strlit("not");
    reveal_strlit("neg");
    reveal_strlit("movd");
    reveal_strlit("movq");
    reveal_strlit("movss");
    reveal_strlit("movsd");
    reveal_strlit("movups");
    reveal_strlit("movupd");
    reveal_strlit("movaps");
    reveal_strlit("movapd");
    reveal_strlit("addss");
    reveal_strlit("subss");
    reveal_strlit("mulss");
    reveal_strlit("divss");
    reveal_strlit("addsd");
    reveal_strlit("subsd");
    reveal_strlit("mulsd");
    reveal_strlit("divsd");
    reveal_strlit("addps");
    reveal_strlit("subps");
    reveal_strlit("mulps");
    reveal_strlit("divps");
    reveal_strlit("addpd");
    reveal_strlit("subpd");
    reveal_strlit("mulpd");
    reveal_strlit("divpd");
    reveal_strlit("xorps");
    reveal_strlit("xorpd");
    reveal_strlit("cvtsi2ss");
    reveal_strlit("cvtsi2sd");
    reveal_strlit("cvttss2si");
    reveal_strlit("cvttsd2si");
    reveal_strlit("add");
    reveal_strlit("or");
    reveal_strlit("adc");
    reveal_strlit("sbb");
    reveal_strlit("and");
    reveal_strlit("sub");
    reveal_strlit("xor");
    reveal_strlit("cmp");
}

proof fn lemma_operands(
    mnem: Seq<char>,
    ops: Seq<OperandModel>,
    opcode: u8,
    w: bool,
    reg: u8,
    rm: Rm,
)
    requires
        asm_x86::instruction(mnem, Ok(ops)) == Some(
            asm_x86::bare(Repr::RmR { opcode, w, reg, rm }),
        ),
        reg < 16,
        machine::addressable(rm),
        !(0x40 <= opcode < 0x50),
    ensures
        gives(
            mnem,
            ops,
            Seq::empty(),
            seq![opcode],
            w,
            reg as int,
            machine::place_of(rm),
            0,
            None,
        ),
{
    machine::lemma_operands_read_back(w, reg as int, rm, seq![opcode], Seq::empty());
    let b = asm_x86::modrm(w, reg as int, rm, seq![opcode])->Ok_0;
    assert(b + Seq::<u8>::empty() =~= b);
    assert(b.skip(0) =~= b);
    assert(b.take(0) =~= Seq::empty());
}

proof fn lemma_immediate(
    mnem: Seq<char>,
    ops: Seq<OperandModel>,
    opcode: u8,
    w: bool,
    digit: u8,
    rm: Rm,
    imm_width: u8,
    imm: Option<Seq<char>>,
)
    requires
        asm_x86::instruction(mnem, Ok(ops)) == Some(
            Ok::<InsnModel, Seq<char>>(
                InsnModel { repr: Repr::RmI { opcode, digit, w, rm, imm_width }, imm },
            ),
        ),
        digit < 16,
        machine::addressable(rm),
        !(0x40 <= opcode < 0x50),
        imm_width == 0 || imm_width == 1 || imm_width == 4,
    ensures
        gives(
            mnem,
            ops,
            Seq::empty(),
            seq![opcode],
            w,
            digit as int,
            machine::place_of(rm),
            imm_width as int,
            imm,
        ),
{
    let repr = Repr::RmI { opcode, digit, w, rm, imm_width };
    assert forall|v: int|
        {
            let e = #[trigger] asm_x86::encoded(repr, v);
            if holds(v, imm_width as int) {
                means(
                    e,
                    Seq::empty(),
                    seq![opcode],
                    w,
                    digit as int,
                    machine::place_of(rm),
                    plain::low_bytes(v, imm_width as int),
                )
            } else {
                e is Err
            }
        } by {
        let rest = plain::low_bytes(v, imm_width as int);
        plain::lemma_low_bytes(v, imm_width as nat);
        machine::lemma_operands_read_back(w, digit as int, rm, seq![opcode], rest);
        let b = asm_x86::modrm(w, digit as int, rm, seq![opcode])->Ok_0 + rest;
        assert(b.skip(0) =~= b);
        assert(b.take(0) =~= Seq::empty());
    }
}

proof fn lemma_two_bytes(
    mnem: Seq<char>,
    ops: Seq<OperandModel>,
    prefix: Option<u8>,
    opcode: u8,
    w: bool,
    reg: u8,
    rm: Rm,
)
    requires
        asm_x86::instruction(mnem, Ok(ops)) == Some(
            asm_x86::bare(Repr::Sse { prefix, opcode, w, reg, rm }),
        ),
        reg < 16,
        machine::addressable(rm),
    ensures
        gives(
            mnem,
            ops,
            match prefix {
                Some(p) => seq![p],
                None => Seq::empty(),
            },
            seq![0x0F, opcode],
            w,
            reg as int,
            machine::place_of(rm),
            0,
            None,
        ),
{
    machine::lemma_operands_read_back(w, reg as int, rm, seq![0x0F, opcode], Seq::empty());
    let b = asm_x86::modrm(w, reg as int, rm, seq![0x0F, opcode])->Ok_0;
    let p = asm_x86::maybe(prefix);
    assert(b + Seq::<u8>::empty() =~= b);
    assert((p + b).skip(p.len() as int) =~= b);
    assert((p + b).take(p.len() as int) =~= p);
}

/// The eight operations of arithmetic, in the order of their codes.
pub open spec fn arithmetic(k: int) -> Seq<char> {
    if k == 0 {
        "add"@
    } else if k == 1 {
        "or"@
    } else if k == 2 {
        "adc"@
    } else if k == 3 {
        "sbb"@
    } else if k == 4 {
        "and"@
    } else if k == 5 {
        "sub"@
    } else if k == 6 {
        "xor"@
    } else {
        "cmp"@
    }
}

/// Whether the processor has a general register of this number and size.
pub open spec fn general(r: GReg) -> bool {
    r.num < 16 && (r.size == 4 || r.size == 8)
}

/// The size of an operand in memory without a register beside it: 32 bits unless
/// the line says 64.
pub open spec fn plain_size(size: Option<u8>) -> bool {
    size is None || size == Some(4u8) || size == Some(8u8)
}

/// `add`, `or`, `adc`, `sbb`, `and`, `sub`, `xor` and `cmp` are the operations
/// 0 to 7: the opcode is eight times that number and 1 where the register is the
/// source, and 3 where it is the target of a memory operand; with an immediate of
/// 32 bits the opcode is 0x81 and the number its extension.
pub proof fn lemma_arithmetic(k: int, d: GReg, s: GReg, m: Mem, size: Option<u8>, t: Seq<char>)
    requires
        0 <= k < 8,
        general(d),
        general(s),
        machine::addressable(Rm::Mem(m)),
        plain_size(size),
    ensures
        ({
            let mem = machine::place_of(Rm::Mem(m));
            let no = Seq::<u8>::empty();
            &&& d.size == s.size ==> gives(
                arithmetic(k),
                seq![OperandModel::Reg(d), OperandModel::Reg(s)],
                no,
                seq![(8 * k + 1) as u8],
                d.size == 8,
                s.num as int,
                Place::Register(d.num as int),
                0,
                None,
            )
            &&& d.size != s.size ==> refused(
                arithmetic(k),
                seq![OperandModel::Reg(d), OperandModel::Reg(s)],
            )
            &&& gives(
                arithmetic(k),
                seq![OperandModel::Mem(m, size), OperandModel::Reg(s)],
                no,
                seq![(8 * k + 1) as u8],
                s.size == 8,
                s.num as int,
                mem,
                0,
                None,
            )
            &&& gives(
                arithmetic(k),
                seq![OperandModel::Reg(d), OperandModel::Mem(m, size)],
                no,
                seq![(8 * k + 3) as u8],
                d.size == 8,
                d.num as int,
                mem,
                0,
                None,
            )
            &&& gives(
                arithmetic(k),
                seq![OperandModel::Reg(d), OperandModel::Imm(t)],
                no,
                seq![0x81],
                d.size == 8,
                k,
                Place::Register(d.num as int),
                4,
                Some(t),
            )
            &&& gives(
                arithmetic(k),
                seq![OperandModel::Mem(m, size), OperandModel::Imm(t)],
                no,
                seq![0x81],
                size == Some(8u8),
                k,
                mem,
                4,
                Some(t),
            )
        }),
{
    lemma_spelling();
    let n = arithmetic(k);
    let op = (8 * k + 1) as u8;
    assert(asm_x86::alu_codes(n) == Some((op, k as u8)));
    assert(forall|ops: Result<Seq<OperandModel>, Seq<char>>| #[trigger]
        asm_x86::instruction(n, ops) == Some(asm_x86::alu_form(n, (op, k as u8), ops)));
    if d.size == s.size {
        lemma_operands(
            n,
            seq![OperandModel::Reg(d), OperandModel::Reg(s)],
            op,
            d.size == 8,
            s.num,
            Rm::Reg(d.num),
        );
    }
    lemma_operands(
        n,
        seq![OperandModel::Mem(m, size), OperandModel::Reg(s)],
        op,
        s.size == 8,
        s.num,
        Rm::Mem(m),
    );
    lemma_operands(
        n,
        seq![OperandModel::Reg(d), OperandModel::Mem(m, size)],
        (op + 2) as u8,
        d.size == 8,
        d.num,
        Rm::Mem(m),
    );
    lemma_immediate(
        n,
        seq![OperandModel::Reg(d), OperandModel::Imm(t)],
        0x81,
        d.size == 8,
        k as u8,
        Rm::Reg(d.num),
        4,
        Some(t),
    );
    lemma_immediate(
        n,
        seq![OperandModel::Mem(m, size), OperandModel::Imm(t)],
        0x81,
        size == Some(8u8),
        k as u8,
        Rm::Mem(m),
        4,
        Some(t),
    );
}

/// `mov` is 0x89 from a register, 0x8B from memory to a register, and 0xC7 with an
/// immediate of 32 bits to memory.
pub proof fn lemma_mov(d: GReg, s: GReg, m: Mem, size: Option<u8>, t: Seq<char>)
    requires
        general(d),
        general(s),
        machine::addressable(Rm::Mem(m)),
        plain_size(size),
    ensures
        d.size == s.size ==> gives(
            "mov"@,
            seq![OperandModel::Reg(d), OperandModel::Reg(s)],
            Seq::empty(),
            seq![0x89],
            d.size == 8,
            s.num as int,
            Place::Register(d.num as int),
            0,
            None,
        ),
        d.size != s.size ==> refused("mov"@, seq![OperandModel::Reg(d), OperandModel::Reg(s)]),
        gives(
            "mov"@,
            seq![OperandModel::Mem(m, size), OperandModel::Reg(s)],
            Seq::empty(),
            seq![0x89],
            s.size == 8,
            s.num as int,
            machine::place_of(Rm::Mem(m)),
            0,
            None,
        ),
        gives(
            "mov"@,
            seq![OperandModel::Reg(d), OperandModel::Mem(m, size)],
            Seq::empty(),
            seq![0x8B],
            d.size == 8,
            d.num as int,
            machine::place_of(Rm::Mem(m)),
            0,
            None,
        ),
        gives(
            "mov"@,
            seq![OperandModel::Mem(m, size), OperandModel::Imm(t)],
            Seq::empty(),
            seq![0xC7],
            size == Some(8u8),
            0,
            machine::place_of(Rm::Mem(m)),
            4,
            Some(t),
        ),
{
    lemma_spelling();
    if d.size == s.size {
        lemma_operands(
            "mov"@,
            seq![OperandModel::Reg(d), OperandModel::Reg(s)],
            0x89,
            d.size == 8,
            s.num,
            Rm::Reg(d.num),
        );
    }
    lemma_operands(
        "mov"@,
        seq![OperandModel::Mem(m, size), OperandModel::Reg(s)],
        0x89,
        s.size == 8,
        s.num,
        Rm::Mem(m),
    );
    lemma_operands(
        "mov"@,
        seq![OperandModel::Reg(d), OperandModel::Mem(m, size)],
        0x8B,
        d.size == 8,
        d.num,
        Rm::Mem(m),
    );
    lemma_immediate(
        "mov"@,
        seq![OperandModel::Mem(m, size), OperandModel::Imm(t)],
        0xC7,
        size == Some(8u8),
        0,
        Rm::Mem(m),
        4,
        Some(t),
    );
}

/// `test` is 0x85 with a register, and 0xF7 with an immediate of 32 bits; `lea` is 0x8D.
pub proof fn lemma_test_and_lea(d: GReg, s: GReg, m: Mem, size: Option<u8>, t: Seq<char>)
    requires
        general(d),
        general(s),
        machine::addressable(Rm::Mem(m)),
        plain_size(size),
    ensures
        d.size == s.size ==> gives(
            "test"@,
            seq![OperandModel::Reg(d), OperandModel::Reg(s)],
            Seq::empty(),
            seq![0x85],
            d.size == 8,
            s.num as int,
            Place::Register(d.num as int),
            0,
            None,
        ),
        d.size != s.size ==> refused("test"@, seq![OperandModel::Reg(d), OperandModel::Reg(s)]),
        gives(
            "test"@,
            seq![OperandModel::Mem(m, size), OperandModel::Reg(s)],
            Seq::empty(),
            seq![0x85],
            s.size == 8,
            s.num as int,
            machine::place_of(Rm::Mem(m)),
            0,
            None,
        ),
        gives(
            "test"@,
            seq![OperandModel::Reg(d), OperandModel::Mem(m, size)],
            Seq::empty(),
            seq![0x85],
            d.size == 8,
            d.num as int,
            machine::place_of(Rm::Mem(m)),
            0,
            None,
        ),
        gives(
            "test"@,
            seq![OperandModel::Reg(d), OperandModel::Imm(t)],
            Seq::empty(),
            seq![0xF7],
            d.size == 8,
            0,
            Place::Register(d.num as int),
            4,
            Some(t),
        ),
        gives(
            "test"@,
            seq![OperandModel::Mem(m, size), OperandModel::Imm(t)],
            Seq::empty(),
            seq![0xF7],
            size == Some(8u8),
            0,
            machine::place_of(Rm::Mem(m)),
            4,
            Some(t),
        ),
        gives(
            "lea"@,
            seq![OperandModel::Reg(d), OperandModel::Mem(m, size)],
            Seq::empty(),
            seq![0x8D],
            d.size == 8,
            d.num as int,
            machine::place_of(Rm::Mem(m)),
            0,
            None,
        ),
        refused("lea"@, seq![OperandModel::Reg(d), OperandModel::Reg(s)]),
{
    lemma_spelling();
    if d.size == s.size {
        lemma_operands(
            "test"@,
            seq![OperandModel::Reg(d), OperandModel::Reg(s)],
            0x85,
            d.size == 8,
            s.num,
            Rm::Reg(d.num),
        );
    }
    lemma_operands(
        "test"@,
        seq![OperandModel::Mem(m, size), OperandModel::Reg(s)],
        0x85,
        s.size == 8,
        s.num,
        Rm::Mem(m),
    );
    lemma_operands(
        "test"@,
        seq![OperandModel::Reg(d), OperandModel::Mem(m, size)],
        0x85,
        d.size == 8,
        d.num,
        Rm::Mem(m),
    );
    lemma_immediate(
        "test"@,
        seq![OperandModel::Reg(d), OperandModel::Imm(t)],
        0xF7,
        d.size == 8,
        0,
        Rm::Reg(d.num),
        4,
        Some(t),
    );
    lemma_immediate(
        "test"@,
        seq![OperandModel::Mem(m, size), OperandModel::Imm(t)],
        0xF7,
        size == Some(8u8),
        0,
        Rm::Mem(m),
        4,
        Some(t),
    );
    lemma_operands(
        "lea"@,
        seq![OperandModel::Reg(d), OperandModel::Mem(m, size)],
        0x8D,
        d.size == 8,
        d.num,
        Rm::Mem(m),
    );
}

/// `inc` and `dec` are 0xFF with the extensions 0 and 1, `not` and `neg` 0xF7 with 2
/// and 3.
pub proof fn lemma_unary(r: GReg, m: Mem, size: Option<u8>)
    requires
        general(r),
        machine::addressable(Rm::Mem(m)),
        plain_size(size),
    ensures
        gives(
            "inc"@,
            seq![OperandModel::Reg(r)],
            Seq::empty(),
            seq![0xFF],
            r.size == 8,
            0,
            Place::Register(r.num as int),
            0,
            None,
        ),
        gives(
            "inc"@,
            seq![OperandModel::Mem(m, size)],
            Seq::empty(),
            seq![0xFF],
            size == Some(8u8),
            0,
            machine::place_of(Rm::Mem(m)),
            0,
            None,
        ),
        gives(
            "dec"@,
            seq![OperandModel::Reg(r)],
            Seq::empty(),
            seq![0xFF],
            r.size == 8,
            1,
            Place::Register(r.num as int),
            0,
            None,
        ),
        gives(
            "dec"@,
            seq![OperandModel::Mem(m, size)],
            Seq::empty(),
            seq![0xFF],
            size == Some(8u8),
            1,
            machine::place_of(Rm::Mem(m)),
            0,
            None,
        ),
        gives(
            "not"@,
            seq![OperandModel::Reg(r)],
            Seq::empty(),
            seq![0xF7],
            r.size == 8,
            2,
            Place::Register(r.num as int),
            0,
            None,
        ),
        gives(
            "not"@,
            seq![OperandModel::Mem(m, size)],
            Seq::empty(),
            seq![0xF7],
            size == Some(8u8),
            2,
            machine::place_of(Rm::Mem(m)),
            0,
            None,
        ),
        gives(
            "neg"@,
            seq![OperandModel::Reg(r)],
            Seq::empty(),
            seq![0xF7],
            r.size == 8,
            3,
            Place::Register(r.num as int),
            0,
            None,
        ),
        gives(
            "neg"@,
            seq![OperandModel::Mem(m, size)],
            Seq::empty(),
            seq![0xF7],
            size == Some(8u8),
            3,
            machine::place_of(Rm::Mem(m)),
            0,
            None,
        ),
{
    lemma_spelling();
    lemma_immediate(
        "inc"@,
        seq![OperandModel::Reg(r)],
        0xFF,
        r.size == 8,
        0,
        Rm::Reg(r.num),
        0,
        None,
    );
    lemma_immediate(
        "inc"@,
        seq![OperandModel::Mem(m, size)],
        0xFF,
        size == Some(8u8),
        0,
        Rm::Mem(m),
        0,
        None,
    );
    lemma_immediate(
        "dec"@,
        seq![OperandModel::Reg(r)],
        0xFF,
        r.size == 8,
        1,
        Rm::Reg(r.num),
        0,
        None,
    );
    lemma_immediate(
        "dec"@,
        seq![OperandModel::Mem(m, size)],
        0xFF,
        size == Some(8u8),
        1,
        Rm::Mem(m),
        0,
        None,
    );
    lemma_immediate(
        "not"@,
        seq![OperandModel::Reg(r)],
        0xF7,
        r.size == 8,
        2,
        Rm::Reg(r.num),
        0,
        None,
    );
    lemma_immediate(
        "not"@,
        seq![OperandModel::Mem(m, size)],
        0xF7,
        size == Some(8u8),
        2,
        Rm::Mem(m),
        0,
        None,
    );
    lemma_immediate(
        "neg"@,
        seq![OperandModel::Reg(r)],
        0xF7,
        r.size == 8,
        3,
        Rm::Reg(r.num),
        0,
        None,
    );
    lemma_immediate(
        "neg"@,
        seq![OperandModel::Mem(m, size)],
        0xF7,
        size == Some(8u8),
        3,
        Rm::Mem(m),
        0,
        None,
    );
}

/// `imul` of one operand is 0xF7 with the extension 5, of two 0x0F 0xAF, and 0x69 with
/// an immediate of 32 bits.
pub proof fn lemma_imul(d: GReg, s: GReg, m: Mem, size: Option<u8>, t: Seq<char>)
    requires
        general(d),
        general(s),
        machine::addressable(Rm::Mem(m)),
        plain_size(size),
    ensures
        gives(
            "imul"@,
            seq![OperandModel::Reg(d)],
            Seq::empty(),
            seq![0xF7],
            d.size == 8,
            5,
            Place::Register(d.num as int),
            0,
            None,
        ),
        gives(
            "imul"@,
            seq![OperandModel::Mem(m, size)],
            Seq::empty(),
            seq![0xF7],
            size == Some(8u8),
            5,
            machine::place_of(Rm::Mem(m)),
            0,
            None,
        ),
        d.size == s.size ==> gives(
            "imul"@,
            seq![OperandModel::Reg(d), OperandModel::Reg(s)],
            Seq::empty(),
            seq![0x0F, 0xAF],
            d.size == 8,
            d.num as int,
            Place::Register(s.num as int),
            0,
            None,
        ),
        d.size != s.size ==> refused("imul"@, seq![OperandModel::Reg(d), OperandModel::Reg(s)]),
        gives(
            "imul"@,
            seq![OperandModel::Reg(d), OperandModel::Mem(m, size)],
            Seq::empty(),
            seq![0x0F, 0xAF],
            d.size == 8,
            d.num as int,
            machine::place_of(Rm::Mem(m)),
            0,
            None,
        ),
        gives(
            "imul"@,
            seq![OperandModel::Reg(d), OperandModel::Imm(t)],
            Seq::empty(),
            seq![0x69],
            d.size == 8,
            d.num as int,
            Place::Register(d.num as int),
            4,
            Some(t),
        ),
        d.size == s.size ==> gives(
            "imul"@,
            seq![OperandModel::Reg(d), OperandModel::Reg(s), OperandModel::Imm(t)],
            Seq::empty(),
            seq![0x69],
            d.size == 8,
            d.num as int,
            Place::Register(s.num as int),
            4,
            Some(t),
        ),
        d.size != s.size ==> refused(
            "imul"@,
            seq![OperandModel::Reg(d), OperandModel::Reg(s), OperandModel::Imm(t)],
        ),
        gives(
            "imul"@,
            seq![OperandModel::Reg(d), OperandModel::Mem(m, size), OperandModel::Imm(t)],
            Seq::empty(),
            seq![0x69],
            d.size == 8,
            d.num as int,
            machine::place_of(Rm::Mem(m)),
            4,
            Some(t),
        ),
{
    lemma_spelling();
    lemma_immediate(
        "imul"@,
        seq![OperandModel::Reg(d)],
        0xF7,
        d.size == 8,
        5,
        Rm::Reg(d.num),
        0,
        None,
    );
    lemma_immediate(
        "imul"@,
        seq![OperandModel::Mem(m, size)],
        0xF7,
        size == Some(8u8),
        5,
        Rm::Mem(m),
        0,
        None,
    );
    if d.size == s.size {
        lemma_two_bytes(
            "imul"@,
            seq![OperandModel::Reg(d), OperandModel::Reg(s)],
            None,
            0xAF,
            d.size == 8,
            d.num,
            Rm::Reg(s.num),
        );
    }
    lemma_two_bytes(
        "imul"@,
        seq![OperandModel::Reg(d), OperandModel::Mem(m, size)],
        None,
        0xAF,
        d.size == 8,
        d.num,
        Rm::Mem(m),
    );
    lemma_immediate(
        "imul"@,
        seq![OperandModel::Reg(d), OperandModel::Imm(t)],
        0x69,
        d.size == 8,
        d.num,
        Rm::Reg(d.num),
        4,
        Some(t),
    );
    if d.size == s.size {
        lemma_immediate(
            "imul"@,
            seq![OperandModel::Reg(d), OperandModel::Reg(s), OperandModel::Imm(t)],
            0x69,
            d.size == 8,
            d.num,
            Rm::Reg(s.num),
            4,
            Some(t),
        );
    }
    lemma_immediate(
        "imul"@,
        seq![OperandModel::Reg(d), OperandModel::Mem(m, size), OperandModel::Imm(t)],
        0x69,
        d.size == 8,
        d.num,
        Rm::Mem(m),
        4,
        Some(t),
    );
}

/// `shl`, `sal`, `shr` and `sar` have the extensions 4, 4, 5 and 7: the opcode is 0xC1
/// with a count of one byte.
pub proof fn lemma_shift(r: GReg, m: Mem, size: Option<u8>, t: Seq<char>)
    requires
        general(r),
        machine::addressable(Rm::Mem(m)),
        plain_size(size),
        text::lowered(t) != "cl"@,
    ensures
        gives(
            "shl"@,
            seq![OperandModel::Reg(r), OperandModel::Imm(t)],
            Seq::empty(),
            seq![0xC1],
            r.size == 8,
            4,
            Place::Register(r.num as int),
            1,
            Some(t),
        ),
        gives(
            "shl"@,
            seq![OperandModel::Mem(m, size), OperandModel::Imm(t)],
            Seq::empty(),
            seq![0xC1],
            size == Some(8u8),
            4,
            machine::place_of(Rm::Mem(m)),
            1,
            Some(t),
        ),
        gives(
            "sal"@,
            seq![OperandModel::Reg(r), OperandModel::Imm(t)],
            Seq::empty(),
            seq![0xC1],
            r.size == 8,
            4,
            Place::Register(r.num as int),
            1,
            Some(t),
        ),
        gives(
            "sal"@,
            seq![OperandModel::Mem(m, size), OperandModel::Imm(t)],
            Seq::empty(),
            seq![0xC1],
            size == Some(8u8),
            4,
            machine::place_of(Rm::Mem(m)),
            1,
            Some(t),
        ),
        gives(
            "shr"@,
            seq![OperandModel::Reg(r), OperandModel::Imm(t)],
            Seq::empty(),
            seq![0xC1],
            r.size == 8,
            5,
            Place::Register(r.num as int),
            1,
            Some(t),
        ),
        gives(
            "shr"@,
            seq![OperandModel::Mem(m, size), OperandModel::Imm(t)],
            Seq::empty(),
            seq![0xC1],
            size == Some(8u8),
            5,
            machine::place_of(Rm::Mem(m)),
            1,
            Some(t),
        ),
        gives(
            "sar"@,
            seq![OperandModel::Reg(r), OperandModel::Imm(t)],
            Seq::empty(),
            seq![0xC1],
            r.size == 8,
            7,
            Place::Register(r.num as int),
            1,
            Some(t),
        ),
        gives(
            "sar"@,
            seq![OperandModel::Mem(m, size), OperandModel::Imm(t)],
            Seq::empty(),
            seq![0xC1],
            size == Some(8u8),
            7,
            machine::place_of(Rm::Mem(m)),
            1,
            Some(t),
        ),
{
    lemma_spelling();
    lemma_immediate(
        "shl"@,
        seq![OperandModel::Reg(r), OperandModel::Imm(t)],
        0xC1,
        r.size == 8,
        4,
        Rm::Reg(r.num),
        1,
        Some(t),
    );
    lemma_immediate(
        "shl"@,
        seq![OperandModel::Mem(m, size), OperandModel::Imm(t)],
        0xC1,
        size == Some(8u8),
        4,
        Rm::Mem(m),
        1,
        Some(t),
    );
    lemma_immediate(
        "sal"@,
        seq![OperandModel::Reg(r), OperandModel::Imm(t)],
        0xC1,
        r.size == 8,
        4,
        Rm::Reg(r.num),
        1,
        Some(t),
    );
    lemma_immediate(
        "sal"@,
        seq![OperandModel::Mem(m, size), OperandModel::Imm(t)],
        0xC1,
        size == Some(8u8),
        4,
        Rm::Mem(m),
        1,
        Some(t),
    );
    lemma_immediate(
        "shr"@,
        seq![OperandModel::Reg(r), OperandModel::Imm(t)],
        0xC1,
        r.size == 8,
        5,
        Rm::Reg(r.num),
        1,
        Some(t),
    );
    lemma_immediate(
        "shr"@,
        seq![OperandModel::Mem(m, size), OperandModel::Imm(t)],
        0xC1,
        size == Some(8u8),
        5,
        Rm::Mem(m),
        1,
        Some(t),
    );
    lemma_immediate(
        "sar"@,
        seq![OperandModel::Reg(r), OperandModel::Imm(t)],
        0xC1,
        r.size == 8,
        7,
        Rm::Reg(r.num),
        1,
        Some(t),
    );
    lemma_immediate(
        "sar"@,
        seq![OperandModel::Mem(m, size), OperandModel::Imm(t)],
        0xC1,
        size == Some(8u8),
        7,
        Rm::Mem(m),
        1,
        Some(t),
    );
}

/// `shl`, `sal`, `shr` and `sar` by the register `cl` are 0xD3 with the extensions 4, 4, 5
/// and 7.
pub proof fn lemma_shift_by_cl(r: GReg, m: Mem, size: Option<u8>, t: Seq<char>)
    requires
        general(r),
        machine::addressable(Rm::Mem(m)),
        plain_size(size),
        text::lowered(t) == "cl"@,
    ensures
        gives(
            "shl"@,
            seq![OperandModel::Reg(r), OperandModel::Imm(t)],
            Seq::empty(),
            seq![0xD3],
            r.size == 8,
            4,
            Place::Register(r.num as int),
            0,
            None,
        ),
        gives(
            "shl"@,
            seq![OperandModel::Mem(m, size), OperandModel::Imm(t)],
            Seq::empty(),
            seq![0xD3],
            size == Some(8u8),
            4,
            machine::place_of(Rm::Mem(m)),
            0,
            None,
        ),
        gives(
            "sal"@,
            seq![OperandModel::Reg(r), OperandModel::Imm(t)],
            Seq::empty(),
            seq![0xD3],
            r.size == 8,
            4,
            Place::Register(r.num as int),
            0,
            None,
        ),
        gives(
            "sal"@,
            seq![OperandModel::Mem(m, size), OperandModel::Imm(t)],
            Seq::empty(),
            seq![0xD3],
            size == Some(8u8),
            4,
            machine::place_of(Rm::Mem(m)),
            0,
            None,
        ),
        gives(
            "shr"@,
            seq![OperandModel::Reg(r), OperandModel::Imm(t)],
            Seq::empty(),
            seq![0xD3],
            r.size == 8,
            5,
            Place::Register(r.num as int),
            0,
            None,
        ),
        gives(
            "shr"@,
            seq![OperandModel::Mem(m, size), OperandModel::Imm(t)],
            Seq::empty(),
            seq![0xD3],
            size == Some(8u8),
            5,
            machine::place_of(Rm::Mem(m)),
            0,
            None,
        ),
        gives(
            "sar"@,
            seq![OperandModel::Reg(r), OperandModel::Imm(t)],
            Seq::empty(),
            seq![0xD3],
            r.size == 8,
            7,
            Place::Register(r.num as int),
            0,
            None,
        ),
        gives(
            "sar"@,
            seq![OperandModel::Mem(m, size), OperandModel::Imm(t)],
            Seq::empty(),
            seq![0xD3],
            size == Some(8u8),
            7,
            machine::place_of(Rm::Mem(m)),
            0,
            None,
        ),
{
    lemma_spelling();
    lemma_immediate(
        "shl"@,
        seq![OperandModel::Reg(r), OperandModel::Imm(t)],
        0xD3,
        r.size == 8,
        4,
        Rm::Reg(r.num),
        0,
        None,
    );
    lemma_immediate(
        "shl"@,
        seq![OperandModel::Mem(m, size), OperandModel::Imm(t)],
        0xD3,
        size == Some(8u8),
        4,
        Rm::Mem(m),
        0,
        None,
    );
    lemma_immediate(
        "sal"@,
        seq![OperandModel::Reg(r), OperandModel::Imm(t)],
        0xD3,
        r.size == 8,
        4,
        Rm::Reg(r.num),
        0,
        None,
    );
    lemma_immediate(
        "sal"@,
        seq![OperandModel::Mem(m, size), OperandModel::Imm(t)],
        0xD3,
        size == Some(8u8),
        4,
        Rm::Mem(m),
        0,
        None,
    );
    lemma_immediate(
        "shr"@,
        seq![OperandModel::Reg(r), OperandModel::Imm(t)],
        0xD3,
        r.size == 8,
        5,
        Rm::Reg(r.num),
        0,
        None,
    );
    lemma_immediate(
        "shr"@,
        seq![OperandModel::Mem(m, size), OperandModel::Imm(t)],
        0xD3,
        size == Some(8u8),
        5,
        Rm::Mem(m),
        0,
        None,
    );
    lemma_immediate(
        "sar"@,
        seq![OperandModel::Reg(r), OperandModel::Imm(t)],
        0xD3,
        r.size == 8,
        7,
        Rm::Reg(r.num),
        0,
        None,
    );
    lemma_immediate(
        "sar"@,
        seq![OperandModel::Mem(m, size), OperandModel::Imm(t)],
        0xD3,
        size == Some(8u8),
        7,
        Rm::Mem(m),
        0,
        None,
    );
}

/// `addss`, `mulss`, `subss` and `divss` are 0x0F and 0x58, 0x59, 0x5C and 0x5E behind 0xF3.
pub proof fn lemma_vector_ss(d: u8, s: u8, m: Mem, size: Option<u8>)
    requires
        d < 16,
        s < 16,
        machine::addressable(Rm::Mem(m)),
    ensures
        gives(
            "addss"@,
            seq![OperandModel::Xmm(d), OperandModel::Xmm(s)],
            seq![0xF3],
            seq![0x0F, 0x58],
            false,
            d as int,
            Place::Register(s as int),
            0,
            None,
        ),
        gives(
            "addss"@,
            seq![OperandModel::Xmm(d), OperandModel::Mem(m, size)],
            seq![0xF3],
            seq![0x0F, 0x58],
            false,
            d as int,
            machine::place_of(Rm::Mem(m)),
            0,
            None,
        ),
        refused("addss"@, seq![OperandModel::Mem(m, size), OperandModel::Xmm(s)]),
        gives(
            "mulss"@,
            seq![OperandModel::Xmm(d), OperandModel::Xmm(s)],
            seq![0xF3],
            seq![0x0F, 0x59],
            false,
            d as int,
            Place::Register(s as int),
            0,
            None,
        ),
        gives(
            "mulss"@,
            seq![OperandModel::Xmm(d), OperandModel::Mem(m, size)],
            seq![0xF3],
            seq![0x0F, 0x59],
            false,
            d as int,
            machine::place_of(Rm::Mem(m)),
            0,
            None,
        ),
        refused("mulss"@, seq![OperandModel::Mem(m, size), OperandModel::Xmm(s)]),
        gives(
            "subss"@,
            seq![OperandModel::Xmm(d), OperandModel::Xmm(s)],
            seq![0xF3],
            seq![0x0F, 0x5C],
            false,
            d as int,
            Place::Register(s as int),
            0,
            None,
        ),
        gives(
            "subss"@,
            seq![OperandModel::Xmm(d), OperandModel::Mem(m, size)],
            seq![0xF3],
            seq![0x0F, 0x5C],
            false,
            d as int,
            machine::place_of(Rm::Mem(m)),
            0,
            None,
        ),
        refused("subss"@, seq![OperandModel::Mem(m, size), OperandModel::Xmm(s)]),
        gives(
            "divss"@,
            seq![OperandModel::Xmm(d), OperandModel::Xmm(s)],
            seq![0xF3],
            seq![0x0F, 0x5E],
            false,
            d as int,
            Place::Register(s as int),
            0,
            None,
        ),
        gives(
            "divss"@,
            seq![OperandModel::Xmm(d), OperandModel::Mem(m, size)],
            seq![0xF3],
            seq![0x0F, 0x5E],
            false,
            d as int,
            machine::place_of(Rm::Mem(m)),
            0,
            None,
        ),
        refused("divss"@, seq![OperandModel::Mem(m, size), OperandModel::Xmm(s)]),
{
    lemma_spelling();
    lemma_two_bytes(
        "addss"@,
        seq![OperandModel::Xmm(d), OperandModel::Xmm(s)],
        Some(0xF3),
        0x58,
        false,
        d,
        Rm::Reg(s),
    );
    lemma_two_bytes(
        "addss"@,
        seq![OperandModel::Xmm(d), OperandModel::Mem(m, size)],
        Some(0xF3),
        0x58,
        false,
        d,
        Rm::Mem(m),
    );
    lemma_two_bytes(
        "mulss"@,
        seq![OperandModel::Xmm(d), OperandModel::Xmm(s)],
        Some(0xF3),
        0x59,
        false,
        d,
        Rm::Reg(s),
    );
    lemma_two_bytes(
        "mulss"@,
        seq![OperandModel::Xmm(d), OperandModel::Mem(m, size)],
        Some(0xF3),
        0x59,
        false,
        d,
        Rm::Mem(m),
    );
    lemma_two_bytes(
        "subss"@,
        seq![OperandModel::Xmm(d), OperandModel::Xmm(s)],
        Some(0xF3),
        0x5C,
        false,
        d,
        Rm::Reg(s),
    );
    lemma_two_bytes(
        "subss"@,
        seq![OperandModel::Xmm(d), OperandModel::Mem(m, size)],
        Some(0xF3),
        0x5C,
        false,
        d,
        Rm::Mem(m),
    );
    lemma_two_bytes(
        "divss"@,
        seq![OperandModel::Xmm(d), OperandModel::Xmm(s)],
        Some(0xF3),
        0x5E,
        false,
        d,
        Rm::Reg(s),
    );
    lemma_two_bytes(
        "divss"@,
        seq![OperandModel::Xmm(d), OperandModel::Mem(m, size)],
        Some(0xF3),
        0x5E,
        false,
        d,
        Rm::Mem(m),
    );
}

/// `addsd`, `mulsd`, `subsd` and `divsd` are 0x0F and 0x58, 0x59, 0x5C and 0x5E behind 0xF2.
pub proof fn lemma_vector_sd(d: u8, s: u8, m: Mem, size: Option<u8>)
    requires
        d < 16,
        s < 16,
        machine::addressable(Rm::Mem(m)),
    ensures
        gives(
            "addsd"@,
            seq![OperandModel::Xmm(d), OperandModel::Xmm(s)],
            seq![0xF2],
            seq![0x0F, 0x58],
            false,
            d as int,
            Place::Register(s as int),
            0,
            None,
        ),
        gives(
            "addsd"@,
            seq![OperandModel::Xmm(d), OperandModel::Mem(m, size)],
            seq![0xF2],
            seq![0x0F, 0x58],
            false,
            d as int,
            machine::place_of(Rm::Mem(m)),
            0,
            None,
        ),
        refused("addsd"@, seq![OperandModel::Mem(m, size), OperandModel::Xmm(s)]),
        gives(
            "mulsd"@,
            seq![OperandModel::Xmm(d), OperandModel::Xmm(s)],
            seq![0xF2],
            seq![0x0F, 0x59],
            false,
            d as int,
            Place::Register(s as int),
            0,
            None,
        ),
        gives(
            "mulsd"@,
            seq![OperandModel::Xmm(d), OperandModel::Mem(m, size)],
            seq![0xF2],
            seq![0x0F, 0x59],
            false,
            d as int,
            machine::place_of(Rm::Mem(m)),
            0,
            None,
        ),
        refused("mulsd"@, seq![OperandModel::Mem(m, size), OperandModel::Xmm(s)]),
        gives(
            "subsd"@,
            seq![OperandModel::Xmm(d), OperandModel::Xmm(s)],
            seq![0xF2],
            seq![0x0F, 0x5C],
            false,
            d as int,
            Place::Register(s as int),
            0,
            None,
        ),
        gives(
            "subsd"@,
            seq![OperandModel::Xmm(d), OperandModel::Mem(m, size)],
            seq![0xF2],
            seq![0x0F, 0x5C],
            false,
            d as int,
            machine::place_of(Rm::Mem(m)),
            0,
            None,
        ),
        refused("subsd"@, seq![OperandModel::Mem(m, size), OperandModel::Xmm(s)]),
        gives(
            "divsd"@,
            seq![OperandModel::Xmm(d), OperandModel::Xmm(s)],
            seq![0xF2],
            seq![0x0F, 0x5E],
            false,
            d as int,
            Place::Register(s as int),
            0,
            None,
        ),
        gives(
            "divsd"@,
            seq![OperandModel::Xmm(d), OperandModel::Mem(m, size)],
            seq![0xF2],
            seq![0x0F, 0x5E],
            false,
            d as int,
            machine::place_of(Rm::Mem(m)),
            0,
            None,
        ),
        refused("divsd"@, seq![OperandModel::Mem(m, size), OperandModel::Xmm(s)]),
{
    lemma_spelling();
    lemma_two_bytes(
        "addsd"@,
        seq![OperandModel::Xmm(d), OperandModel::Xmm(s)],
        Some(0xF2),
        0x58,
        false,
        d,
        Rm::Reg(s),
    );
    lemma_two_bytes(
        "addsd"@,
        seq![OperandModel::Xmm(d), OperandModel::Mem(m, size)],
        Some(0xF2),
        0x58,
        false,
        d,
        Rm::Mem(m),
    );
    lemma_two_bytes(
        "mulsd"@,
        seq![OperandModel::Xmm(d), OperandModel::Xmm(s)],
        Some(0xF2),
        0x59,
        false,
        d,
        Rm::Reg(s),
    );
    lemma_two_bytes(
        "mulsd"@,
        seq![OperandModel::Xmm(d), OperandModel::Mem(m, size)],
        Some(0xF2),
        0x59,
        false,
        d,
        Rm::Mem(m),
    );
    lemma_two_bytes(
        "subsd"@,
        seq![OperandModel::Xmm(d), OperandModel::Xmm(s)],
        Some(0xF2),
        0x5C,
        false,
        d,
        Rm::Reg(s),
    );
    lemma_two_bytes(
        "subsd"@,
        seq![OperandModel::Xmm(d), OperandModel::Mem(m, size)],
        Some(0xF2),
        0x5C,
        false,
        d,
        Rm::Mem(m),
    );
    lemma_two_bytes(
        "divsd"@,
        seq![OperandModel::Xmm(d), OperandModel::Xmm(s)],
        Some(0xF2),
        0x5E,
        false,
        d,
        Rm::Reg(s),
    );
    lemma_two_bytes(
        "divsd"@,
        seq![OperandModel::Xmm(d), OperandModel::Mem(m, size)],
        Some(0xF2),
        0x5E,
        false,
        d,
        Rm::Mem(m),
    );
}

/// `addps`, `mulps`, `subps` and `divps` are 0x0F and 0x58, 0x59, 0x5C and 0x5E.
/// `xorps` is 0x57.
pub proof fn lemma_vector_ps(d: u8, s: u8, m: Mem, size: Option<u8>)
    requires
        d < 16,
        s < 16,
        machine::addressable(Rm::Mem(m)),
    ensures
        gives(
            "addps"@,
            seq![OperandModel::Xmm(d), OperandModel::Xmm(s)],
            Seq::empty(),
            seq![0x0F, 0x58],
            false,
            d as int,
            Place::Register(s as int),
            0,
            None,
        ),
        gives(
            "addps"@,
            seq![OperandModel::Xmm(d), OperandModel::Mem(m, size)],
            Seq::empty(),
            seq![0x0F, 0x58],
            false,
            d as int,
            machine::place_of(Rm::Mem(m)),
            0,
            None,
        ),
        refused("addps"@, seq![OperandModel::Mem(m, size), OperandModel::Xmm(s)]),
        gives(
            "mulps"@,
            seq![OperandModel::Xmm(d), OperandModel::Xmm(s)],
            Seq::empty(),
            seq![0x0F, 0x59],
            false,
            d as int,
            Place::Register(s as int),
            0,
            None,
        ),
        gives(
            "mulps"@,
            seq![OperandModel::Xmm(d), OperandModel::Mem(m, size)],
            Seq::empty(),
            seq![0x0F, 0x59],
            false,
            d as int,
            machine::place_of(Rm::Mem(m)),
            0,
            None,
        ),
        refused("mulps"@, seq![OperandModel::Mem(m, size), OperandModel::Xmm(s)]),
        gives(
            "subps"@,
            seq![OperandModel::Xmm(d), OperandModel::Xmm(s)],
            Seq::empty(),
            seq![0x0F, 0x5C],
            false,
            d as int,
            Place::Register(s as int),
            0,
            None,
        ),
        gives(
            "subps"@,
            seq![OperandModel::Xmm(d), OperandModel::Mem(m, size)],
            Seq::empty(),
            seq![0x0F, 0x5C],
            false,
            d as int,
            machine::place_of(Rm::Mem(m)),
            0,
            None,
        ),
        refused("subps"@, seq![OperandModel::Mem(m, size), OperandModel::Xmm(s)]),
        gives(
            "divps"@,
            seq![OperandModel::Xmm(d), OperandModel::Xmm(s)],
            Seq::empty(),
            seq![0x0F, 0x5E],
            false,
            d as int,
            Place::Register(s as int),
            0,
            None,
        ),
        gives(
            "divps"@,
            seq![OperandModel::Xmm(d), OperandModel::Mem(m, size)],
            Seq::empty(),
            seq![0x0F, 0x5E],
            false,
            d as int,
            machine::place_of(Rm::Mem(m)),
            0,
            None,
        ),
        refused("divps"@, seq![OperandModel::Mem(m, size), OperandModel::Xmm(s)]),
        gives(
            "xorps"@,
            seq![OperandModel::Xmm(d), OperandModel::Xmm(s)],
            Seq::empty(),
            seq![0x0F, 0x57],
            false,
            d as int,
            Place::Register(s as int),
            0,
            None,
        ),
        gives(
            "xorps"@,
            seq![OperandModel::Xmm(d), OperandModel::Mem(m, size)],
            Seq::empty(),
            seq![0x0F, 0x57],
            false,
            d as int,
            machine::place_of(Rm::Mem(m)),
            0,
            None,
        ),
{
    lemma_spelling();
    lemma_two_bytes(
        "addps"@,
        seq![OperandModel::Xmm(d), OperandModel::Xmm(s)],
        None,
        0x58,
        false,
        d,
        Rm::Reg(s),
    );
    lemma_two_bytes(
        "addps"@,
        seq![OperandModel::Xmm(d), OperandModel::Mem(m, size)],
        None,
        0x58,
        false,
        d,
        Rm::Mem(m),
    );
    lemma_two_bytes(
        "mulps"@,
        seq![OperandModel::Xmm(d), OperandModel::Xmm(s)],
        None,
        0x59,
        false,
        d,
        Rm::Reg(s),
    );
    lemma_two_bytes(
        "mulps"@,
        seq![OperandModel::Xmm(d), OperandModel::Mem(m, size)],
        None,
        0x59,
        false,
        d,
        Rm::Mem(m),
    );
    lemma_two_bytes(
        "subps"@,
        seq![OperandModel::Xmm(d), OperandModel::Xmm(s)],
        None,
        0x5C,
        false,
        d,
        Rm::Reg(s),
    );
    lemma_two_bytes(
        "subps"@,
        seq![OperandModel::Xmm(d), OperandModel::Mem(m, size)],
        None,
        0x5C,
        false,
        d,
        Rm::Mem(m),
    );
    lemma_two_bytes(
        "divps"@,
        seq![OperandModel::Xmm(d), OperandModel::Xmm(s)],
        None,
        0x5E,
        false,
        d,
        Rm::Reg(s),
    );
    lemma_two_bytes(
        "divps"@,
        seq![OperandModel::Xmm(d), OperandModel::Mem(m, size)],
        None,
        0x5E,
        false,
        d,
        Rm::Mem(m),
    );
    lemma_two_bytes(
        "xorps"@,
        seq![OperandModel::Xmm(d), OperandModel::Xmm(s)],
        None,
        0x57,
        false,
        d,
        Rm::Reg(s),
    );
    lemma_two_bytes(
        "xorps"@,
        seq![OperandModel::Xmm(d), OperandModel::Mem(m, size)],
        None,
        0x57,
        false,
        d,
        Rm::Mem(m),
    );
}

/// `addpd`, `mulpd`, `subpd` and `divpd` are 0x0F and 0x58, 0x59, 0x5C and 0x5E behind 0x66.
/// `xorpd` is 0x57.
pub proof fn lemma_vector_pd(d: u8, s: u8, m: Mem, size: Option<u8>)
    requires
        d < 16,
        s < 16,
        machine::addressable(Rm::Mem(m)),
    ensures
        gives(
            "addpd"@,
            seq![OperandModel::Xmm(d), OperandModel::Xmm(s)],
            seq![0x66],
            seq![0x0F, 0x58],
            false,
            d as int,
            Place::Register(s as int),
            0,
            None,
        ),
        gives(
            "addpd"@,
            seq![OperandModel::Xmm(d), OperandModel::Mem(m, size)],
            seq![0x66],
            seq![0x0F, 0x58],
            false,
            d as int,
            machine::place_of(Rm::Mem(m)),
            0,
            None,
        ),
        refused("addpd"@, seq![OperandModel::Mem(m, size), OperandModel::Xmm(s)]),
        gives(
            "mulpd"@,
            seq![OperandModel::Xmm(d), OperandModel::Xmm(s)],
            seq![0x66],
            seq![0x0F, 0x59],
            false,
            d as int,
            Place::Register(s as int),
            0,
            None,
        ),
        gives(
            "mulpd"@,
            seq![OperandModel::Xmm(d), OperandModel::Mem(m, size)],
            seq![0x66],
            seq![0x0F, 0x59],
            false,
            d as int,
            machine::place_of(Rm::Mem(m)),
            0,
            None,
        ),
        refused("mulpd"@, seq![OperandModel::Mem(m, size), OperandModel::Xmm(s)]),
        gives(
            "subpd"@,
            seq![OperandModel::Xmm(d), OperandModel::Xmm(s)],
            seq![0x66],
            seq![0x0F, 0x5C],
            false,
            d as int,
            Place::Register(s as int),
            0,
            None,
        ),
        gives(
            "subpd"@,
            seq![OperandModel::Xmm(d), OperandModel::Mem(m, size)],
            seq![0x66],
            seq![0x0F, 0x5C],
            false,
            d as int,
            machine::place_of(Rm::Mem(m)),
            0,
            None,
        ),
        refused("subpd"@, seq![OperandModel::Mem(m, size), OperandModel::Xmm(s)]),
        gives(
            "divpd"@,
            seq![OperandModel::Xmm(d), OperandModel::Xmm(s)],
            seq![0x66],
            seq![0x0F, 0x5E],
            false,
            d as int,
            Place::Register(s as int),
            0,
            None,
        ),
        gives(
            "divpd"@,
            seq![OperandModel::Xmm(d), OperandModel::Mem(m, size)],
            seq![0x66],
            seq![0x0F, 0x5E],
            false,
            d as int,
            machine::place_of(Rm::Mem(m)),
            0,
            None,
        ),
        refused("divpd"@, seq![OperandModel::Mem(m, size), OperandModel::Xmm(s)]),
        gives(
            "xorpd"@,
            seq![OperandModel::Xmm(d), OperandModel::Xmm(s)],
            seq![0x66],
            seq![0x0F, 0x57],
            false,
            d as int,
            Place::Register(s as int),
            0,
            None,
        ),
        gives(
            "xorpd"@,
            seq![OperandModel::Xmm(d), OperandModel::Mem(m, size)],
            seq![0x66],
            seq![0x0F, 0x57],
            false,
            d as int,
            machine::place_of(Rm::Mem(m)),
            0,
            None,
        ),
{
    lemma_spelling();
    lemma_two_bytes(
        "addpd"@,
        seq![OperandModel::Xmm(d), OperandModel::Xmm(s)],
        Some(0x66),
        0x58,
        false,
        d,
        Rm::Reg(s),
    );
    lemma_two_bytes(
        "addpd"@,
        seq![OperandModel::Xmm(d), OperandModel::Mem(m, size)],
        Some(0x66),
        0x58,
        false,
        d,
        Rm::Mem(m),
    );
    lemma_two_bytes(
        "mulpd"@,
        seq![OperandModel::Xmm(d), OperandModel::Xmm(s)],
        Some(0x66),
        0x59,
        false,
        d,
        Rm::Reg(s),
    );
    lemma_two_bytes(
        "mulpd"@,
        seq![OperandModel::Xmm(d), OperandModel::Mem(m, size)],
        Some(0x66),
        0x59,
        false,
        d,
        Rm::Mem(m),
    );
    lemma_two_bytes(
        "subpd"@,
        seq![OperandModel::Xmm(d), OperandModel::Xmm(s)],
        Some(0x66),
        0x5C,
        false,
        d,
        Rm::Reg(s),
    );
    lemma_two_bytes(
        "subpd"@,
        seq![OperandModel::Xmm(d), OperandModel::Mem(m, size)],
        Some(0x66),
        0x5C,
        false,
        d,
        Rm::Mem(m),
    );
    lemma_two_bytes(
        "divpd"@,
        seq![OperandModel::Xmm(d), OperandModel::Xmm(s)],
        Some(0x66),
        0x5E,
        false,
        d,
        Rm::Reg(s),
    );
    lemma_two_bytes(
        "divpd"@,
        seq![OperandModel::Xmm(d), OperandModel::Mem(m, size)],
        Some(0x66),
        0x5E,
        false,
        d,
        Rm::Mem(m),
    );
    lemma_two_bytes(
        "xorpd"@,
        seq![OperandModel::Xmm(d), OperandModel::Xmm(s)],
        Some(0x66),
        0x57,
        false,
        d,
        Rm::Reg(s),
    );
    lemma_two_bytes(
        "xorpd"@,
        seq![OperandModel::Xmm(d), OperandModel::Mem(m, size)],
        Some(0x66),
        0x57,
        false,
        d,
        Rm::Mem(m),
    );
}

/// The moves of vectors: 0x0F 0x10 loads and 0x11 stores, 0x28 and 0x29 where the
/// operand is aligned; the prefix is that of the suffix.
pub proof fn lemma_vector_moves(d: u8, s: u8, m: Mem, size: Option<u8>)
    requires
        d < 16,
        s < 16,
        machine::addressable(Rm::Mem(m)),
    ensures
        gives(
            "movss"@,
            seq![OperandModel::Xmm(d), OperandModel::Xmm(s)],
            seq![0xF3],
            seq![0x0F, 0x10],
            false,
            d as int,
            Place::Register(s as int),
            0,
            None,
        ),
        gives(
            "movss"@,
            seq![OperandModel::Xmm(d), OperandModel::Mem(m, size)],
            seq![0xF3],
            seq![0x0F, 0x10],
            false,
            d as int,
            machine::place_of(Rm::Mem(m)),
            0,
            None,
        ),
        gives(
            "movss"@,
            seq![OperandModel::Mem(m, size), OperandModel::Xmm(s)],
            seq![0xF3],
            seq![0x0F, 0x11],
            false,
            s as int,
            machine::place_of(Rm::Mem(m)),
            0,
            None,
        ),
        gives(
            "movsd"@,
            seq![OperandModel::Xmm(d), OperandModel::Xmm(s)],
            seq![0xF2],
            seq![0x0F, 0x10],
            false,
            d as int,
            Place::Register(s as int),
            0,
            None,
        ),
        gives(
            "movsd"@,
            seq![OperandModel::Xmm(d), OperandModel::Mem(m, size)],
            seq![0xF2],
            seq![0x0F, 0x10],
            false,
            d as int,
            machine::place_of(Rm::Mem(m)),
            0,
            None,
        ),
        gives(
            "movsd"@,
            seq![OperandModel::Mem(m, size), OperandModel::Xmm(s)],
            seq![0xF2],
            seq![0x0F, 0x11],
            false,
            s as int,
            machine::place_of(Rm::Mem(m)),
            0,
            None,
        ),
        gives(
            "movups"@,
            seq![OperandModel::Xmm(d), OperandModel::Xmm(s)],
            Seq::empty(),
            seq![0x0F, 0x10],
            false,
            d as int,
            Place::Register(s as int),
            0,
            None,
        ),
        gives(
            "movups"@,
            seq![OperandModel::Xmm(d), OperandModel::Mem(m, size)],
            Seq::empty(),
            seq![0x0F, 0x10],
            false,
            d as int,
            machine::place_of(Rm::Mem(m)),
            0,
            None,
        ),
        gives(
            "movups"@,
            seq![OperandModel::Mem(m, size), OperandModel::Xmm(s)],
            Seq::empty(),
            seq![0x0F, 0x11],
            false,
            s as int,
            machine::place_of(Rm::Mem(m)),
            0,
            None,
        ),
        gives(
            "movupd"@,
            seq![OperandModel::Xmm(d), OperandModel::Xmm(s)],
            seq![0x66],
            seq![0x0F, 0x10],
            false,
            d as int,
            Place::Register(s as int),
            0,
            None,
        ),
        gives(
            "movupd"@,
            seq![OperandModel::Xmm(d), OperandModel::Mem(m, size)],
            seq![0x66],
            seq![0x0F, 0x10],
            false,
            d as int,
            machine::place_of(Rm::Mem(m)),
            0,
            None,
        ),
        gives(
            "movupd"@,
            seq![OperandModel::Mem(m, size), OperandModel::Xmm(s)],
            seq![0x66],
            seq![0x0F, 0x11],
            false,
            s as int,
            machine::place_of(Rm::Mem(m)),
            0,
            None,
        ),
        gives(
            "movaps"@,
            seq![OperandModel::Xmm(d), OperandModel::Xmm(s)],
            Seq::empty(),
            seq![0x0F, 0x28],
            false,
            d as int,
            Place::Register(s as int),
            0,
            None,
        ),
        gives(
            "movaps"@,
            seq![OperandModel::Xmm(d), OperandModel::Mem(m, size)],
            Seq::empty(),
            seq![0x0F, 0x28],
            false,
            d as int,
            machine::place_of(Rm::Mem(m)),
            0,
            None,
        ),
        gives(
            "movaps"@,
            seq![OperandModel::Mem(m, size), OperandModel::Xmm(s)],
            Seq::empty(),
            seq![0x0F, 0x29],
            false,
            s as int,
            machine::place_of(Rm::Mem(m)),
            0,
            None,
        ),
        gives(
            "movapd"@,
            seq![OperandModel::Xmm(d), OperandModel::Xmm(s)],
            seq![0x66],
            seq![0x0F, 0x28],
            false,
            d as int,
            Place::Register(s as int),
            0,
            None,
        ),
        gives(
            "movapd"@,
            seq![OperandModel::Xmm(d), OperandModel::Mem(m, size)],
            seq![0x66],
            seq![0x0F, 0x28],
            false,
            d as int,
            machine::place_of(Rm::Mem(m)),
            0,
            None,
        ),
        gives(
            "movapd"@,
            seq![OperandModel::Mem(m, size), OperandModel::Xmm(s)],
            seq![0x66],
            seq![0x0F, 0x29],
            false,
            s as int,
            machine::place_of(Rm::Mem(m)),
            0,
            None,
        ),
{
    lemma_spelling();
    lemma_two_bytes(
        "movss"@,
        seq![OperandModel::Xmm(d), OperandModel::Xmm(s)],
        Some(0xF3),
        0x10,
        false,
        d,
        Rm::Reg(s),
    );
    lemma_two_bytes(
        "movss"@,
        seq![OperandModel::Xmm(d), OperandModel::Mem(m, size)],
        Some(0xF3),
        0x10,
        false,
        d,
        Rm::Mem(m),
    );
    lemma_two_bytes(
        "movss"@,
        seq![OperandModel::Mem(m, size), OperandModel::Xmm(s)],
        Some(0xF3),
        0x11,
        false,
        s,
        Rm::Mem(m),
    );
    lemma_two_bytes(
        "movsd"@,
        seq![OperandModel::Xmm(d), OperandModel::Xmm(s)],
        Some(0xF2),
        0x10,
        false,
        d,
        Rm::Reg(s),
    );
    lemma_two_bytes(
        "movsd"@,
        seq![OperandModel::Xmm(d), OperandModel::Mem(m, size)],
        Some(0xF2),
        0x10,
        false,
        d,
        Rm::Mem(m),
    );
    lemma_two_bytes(
        "movsd"@,
        seq![OperandModel::Mem(m, size), OperandModel::Xmm(s)],
        Some(0xF2),
        0x11,
        false,
        s,
        Rm::Mem(m),
    );
    lemma_two_bytes(
        "movups"@,
        seq![OperandModel::Xmm(d), OperandModel::Xmm(s)],
        None,
        0x10,
        false,
        d,
        Rm::Reg(s),
    );
    lemma_two_bytes(
        "movups"@,
        seq![OperandModel::Xmm(d), OperandModel::Mem(m, size)],
        None,
        0x10,
        false,
        d,
        Rm::Mem(m),
    );
    lemma_two_bytes(
        "movups"@,
        seq![OperandModel::Mem(m, size), OperandModel::Xmm(s)],
        None,
        0x11,
        false,
        s,
        Rm::Mem(m),
    );
    lemma_two_bytes(
        "movupd"@,
        seq![OperandModel::Xmm(d), OperandModel::Xmm(s)],
        Some(0x66),
        0x10,
        false,
        d,
        Rm::Reg(s),
    );
    lemma_two_bytes(
        "movupd"@,
        seq![OperandModel::Xmm(d), OperandModel::Mem(m, size)],
        Some(0x66),
        0x10,
        false,
        d,
        Rm::Mem(m),
    );
    lemma_two_bytes(
        "movupd"@,
        seq![OperandModel::Mem(m, size), OperandModel::Xmm(s)],
        Some(0x66),
        0x11,
        false,
        s,
        Rm::Mem(m),
    );
    lemma_two_bytes(
        "movaps"@,
        seq![OperandModel::Xmm(d), OperandModel::Xmm(s)],
        None,
        0x28,
        false,
        d,
        Rm::Reg(s),
    );
    lemma_two_bytes(
        "movaps"@,
        seq![OperandModel::Xmm(d), OperandModel::Mem(m, size)],
        None,
        0x28,
        false,
        d,
        Rm::Mem(m),
    );
    lemma_two_bytes(
        "movaps"@,
        seq![OperandModel::Mem(m, size), OperandModel::Xmm(s)],
        None,
        0x29,
        false,
        s,
        Rm::Mem(m),
    );
    lemma_two_bytes(
        "movapd"@,
        seq![OperandModel::Xmm(d), OperandModel::Xmm(s)],
        Some(0x66),
        0x28,
        false,
        d,
        Rm::Reg(s),
    );
    lemma_two_bytes(
        "movapd"@,
        seq![OperandModel::Xmm(d), OperandModel::Mem(m, size)],
        Some(0x66),
        0x28,
        false,
        d,
        Rm::Mem(m),
    );
    lemma_two_bytes(
        "movapd"@,
        seq![OperandModel::Mem(m, size), OperandModel::Xmm(s)],
        Some(0x66),
        0x29,
        false,
        s,
        Rm::Mem(m),
    );
}

/// Conversions: 0x0F 0x2A from an integer and 0x2C to one, behind 0xF3 for single and
/// 0xF2 for double precision; 64 bits are those of the integer register.
pub proof fn lemma_conversions(d: u8, r: GReg, m: Mem, size: Option<u8>)
    requires
        d < 16,
        general(r),
        machine::addressable(Rm::Mem(m)),
    ensures
        gives(
            "cvtsi2ss"@,
            seq![OperandModel::Xmm(d), OperandModel::Reg(r)],
            seq![0xF3],
            seq![0x0F, 0x2A],
            r.size == 8,
            d as int,
            Place::Register(r.num as int),
            0,
            None,
        ),
        gives(
            "cvtsi2ss"@,
            seq![OperandModel::Xmm(d), OperandModel::Mem(m, size)],
            seq![0xF3],
            seq![0x0F, 0x2A],
            false,
            d as int,
            machine::place_of(Rm::Mem(m)),
            0,
            None,
        ),
        gives(
            "cvtsi2sd"@,
            seq![OperandModel::Xmm(d), OperandModel::Reg(r)],
            seq![0xF2],
            seq![0x0F, 0x2A],
            r.size == 8,
            d as int,
            Place::Register(r.num as int),
            0,
            None,
        ),
        gives(
            "cvtsi2sd"@,
            seq![OperandModel::Xmm(d), OperandModel::Mem(m, size)],
            seq![0xF2],
            seq![0x0F, 0x2A],
            false,
            d as int,
            machine::place_of(Rm::Mem(m)),
            0,
            None,
        ),
        gives(
            "cvttss2si"@,
            seq![OperandModel::Reg(r), OperandModel::Xmm(d)],
            seq![0xF3],
            seq![0x0F, 0x2C],
            r.size == 8,
            r.num as int,
            Place::Register(d as int),
            0,
            None,
        ),
        gives(
            "cvttss2si"@,
            seq![OperandModel::Reg(r), OperandModel::Mem(m, size)],
            seq![0xF3],
            seq![0x0F, 0x2C],
            r.size == 8,
            r.num as int,
            machine::place_of(Rm::Mem(m)),
            0,
            None,
        ),
        gives(
            "cvttsd2si"@,
            seq![OperandModel::Reg(r), OperandModel::Xmm(d)],
            seq![0xF2],
            seq![0x0F, 0x2C],
            r.size == 8,
            r.num as int,
            Place::Register(d as int),
            0,
            None,
        ),
        gives(
            "cvttsd2si"@,
            seq![OperandModel::Reg(r), OperandModel::Mem(m, size)],
            seq![0xF2],
            seq![0x0F, 0x2C],
            r.size == 8,
            r.num as int,
            machine::place_of(Rm::Mem(m)),
            0,
            None,
        ),
{
    lemma_spelling();
    lemma_two_bytes(
        "cvtsi2ss"@,
        seq![OperandModel::Xmm(d), OperandModel::Reg(r)],
        Some(0xF3),
        0x2A,
        r.size == 8,
        d,
        Rm::Reg(r.num),
    );
    lemma_two_bytes(
        "cvtsi2ss"@,
        seq![OperandModel::Xmm(d), OperandModel::Mem(m, size)],
        Some(0xF3),
        0x2A,
        false,
        d,
        Rm::Mem(m),
    );
    lemma_two_bytes(
        "cvtsi2sd"@,
        seq![OperandModel::Xmm(d), OperandModel::Reg(r)],
        Some(0xF2),
        0x2A,
        r.size == 8,
        d,
        Rm::Reg(r.num),
    );
    lemma_two_bytes(
        "cvtsi2sd"@,
        seq![OperandModel::Xmm(d), OperandModel::Mem(m, size)],
        Some(0xF2),
        0x2A,
        false,
        d,
        Rm::Mem(m),
    );
    lemma_two_bytes(
        "cvttss2si"@,
        seq![OperandModel::Reg(r), OperandModel::Xmm(d)],
        Some(0xF3),
        0x2C,
        r.size == 8,
        r.num,
        Rm::Reg(d),
    );
    lemma_two_bytes(
        "cvttss2si"@,
        seq![OperandModel::Reg(r), OperandModel::Mem(m, size)],
        Some(0xF3),
        0x2C,
        r.size == 8,
        r.num,
        Rm::Mem(m),
    );
    lemma_two_bytes(
        "cvttsd2si"@,
        seq![OperandModel::Reg(r), OperandModel::Xmm(d)],
        Some(0xF2),
        0x2C,
        r.size == 8,
        r.num,
        Rm::Reg(d),
    );
    lemma_two_bytes(
        "cvttsd2si"@,
        seq![OperandModel::Reg(r), OperandModel::Mem(m, size)],
        Some(0xF2),
        0x2C,
        r.size == 8,
        r.num,
        Rm::Mem(m),
    );
}

/// `movd` and `movq` are 0x66 0x0F 0x6E to a vector and 0x7E from one, with the size of
/// the register beside it; in memory `movq` has 64 bits, and between vectors it is 0xF3
/// 0x0F 0x7E.
pub proof fn lemma_movd_and_movq(d: u8, s: u8, r: GReg, m: Mem, size: Option<u8>)
    requires
        d < 16,
        s < 16,
        general(r),
        machine::addressable(Rm::Mem(m)),
    ensures
        gives(
            "movd"@,
            seq![OperandModel::Xmm(d), OperandModel::Reg(r)],
            seq![0x66],
            seq![0x0F, 0x6E],
            r.size == 8,
            d as int,
            Place::Register(r.num as int),
            0,
            None,
        ),
        gives(
            "movd"@,
            seq![OperandModel::Reg(r), OperandModel::Xmm(d)],
            seq![0x66],
            seq![0x0F, 0x7E],
            r.size == 8,
            d as int,
            Place::Register(r.num as int),
            0,
            None,
        ),
        gives(
            "movd"@,
            seq![OperandModel::Xmm(d), OperandModel::Mem(m, size)],
            seq![0x66],
            seq![0x0F, 0x6E],
            false,
            d as int,
            machine::place_of(Rm::Mem(m)),
            0,
            None,
        ),
        gives(
            "movd"@,
            seq![OperandModel::Mem(m, size), OperandModel::Xmm(s)],
            seq![0x66],
            seq![0x0F, 0x7E],
            false,
            s as int,
            machine::place_of(Rm::Mem(m)),
            0,
            None,
        ),
        gives(
            "movq"@,
            seq![OperandModel::Xmm(d), OperandModel::Reg(r)],
            seq![0x66],
            seq![0x0F, 0x6E],
            r.size == 8,
            d as int,
            Place::Register(r.num as int),
            0,
            None,
        ),
        gives(
            "movq"@,
            seq![OperandModel::Reg(r), OperandModel::Xmm(d)],
            seq![0x66],
            seq![0x0F, 0x7E],
            r.size == 8,
            d as int,
            Place::Register(r.num as int),
            0,
            None,
        ),
        gives(
            "movq"@,
            seq![OperandModel::Xmm(d), OperandModel::Mem(m, size)],
            seq![0x66],
            seq![0x0F, 0x6E],
            true,
            d as int,
            machine::place_of(Rm::Mem(m)),
            0,
            None,
        ),
        gives(
            "movq"@,
            seq![OperandModel::Mem(m, size), OperandModel::Xmm(s)],
            seq![0x66],
            seq![0x0F, 0x7E],
            true,
            s as int,
            machine::place_of(Rm::Mem(m)),
            0,
            None,
        ),
        gives(
            "movq"@,
            seq![OperandModel::Xmm(d), OperandModel::Xmm(s)],
            seq![0xF3],
            seq![0x0F, 0x7E],
            false,
            d as int,
            Place::Register(s as int),
            0,
            None,
        ),
        refused("movd"@, seq![OperandModel::Xmm(d), OperandModel::Xmm(s)]),
{
    lemma_spelling();
    lemma_two_bytes(
        "movd"@,
        seq![OperandModel::Xmm(d), OperandModel::Reg(r)],
        Some(0x66),
        0x6E,
        r.size == 8,
        d,
        Rm::Reg(r.num),
    );
    lemma_two_bytes(
        "movd"@,
        seq![OperandModel::Reg(r), OperandModel::Xmm(d)],
        Some(0x66),
        0x7E,
        r.size == 8,
        d,
        Rm::Reg(r.num),
    );
    lemma_two_bytes(
        "movd"@,
        seq![OperandModel::Xmm(d), OperandModel::Mem(m, size)],
        Some(0x66),
        0x6E,
        false,
        d,
        Rm::Mem(m),
    );
    lemma_two_bytes(
        "movd"@,
        seq![OperandModel::Mem(m, size), OperandModel::Xmm(s)],
        Some(0x66),
        0x7E,
        false,
        s,
        Rm::Mem(m),
    );
    lemma_two_bytes(
        "movq"@,
        seq![OperandModel::Xmm(d), OperandModel::Reg(r)],
        Some(0x66),
        0x6E,
        r.size == 8,
        d,
        Rm::Reg(r.num),
    );
    lemma_two_bytes(
        "movq"@,
        seq![OperandModel::Reg(r), OperandModel::Xmm(d)],
        Some(0x66),
        0x7E,
        r.size == 8,
        d,
        Rm::Reg(r.num),
    );
    lemma_two_bytes(
        "movq"@,
        seq![OperandModel::Xmm(d), OperandModel::Mem(m, size)],
        Some(0x66),
        0x6E,
        true,
        d,
        Rm::Mem(m),
    );
    lemma_two_bytes(
        "movq"@,
        seq![OperandModel::Mem(m, size), OperandModel::Xmm(s)],
        Some(0x66),
        0x7E,
        true,
        s,
        Rm::Mem(m),
    );
    lemma_two_bytes(
        "movq"@,
        seq![OperandModel::Xmm(d), OperandModel::Xmm(s)],
        Some(0xF3),
        0x7E,
        false,
        d,
        Rm::Reg(s),
    );
}

/// `mov` of an immediate to a register is one byte, 0xB8 and the lower three bits of
/// its number, with all the bytes of the register behind it; a prefix says that it has
/// 64 bits (0x48) or that it is one of the upper eight (0x41).
pub proof fn lemma_mov_immediate(r: GReg, t: Seq<char>, v: int)
    requires
        general(r),
    ensures
        asm_x86::instruction("mov"@, Ok(seq![OperandModel::Reg(r), OperandModel::Imm(t)])) matches Some(
            x,
        ) && (x matches Ok(i) && {
            let first = (0xB8 + r.num % 8) as u8;
            &&& i.imm == Some(t)
            &&& if r.size == 8 && r.num < 8 {
                asm_x86::encoded(i.repr, v) == Ok::<Seq<u8>, Seq<char>>(
                    seq![0x48u8, first] + plain::low_bytes(v, 8),
                )
            } else if r.size == 8 {
                asm_x86::encoded(i.repr, v) == Ok::<Seq<u8>, Seq<char>>(
                    seq![0x49u8, first] + plain::low_bytes(v, 8),
                )
            } else if !holds(v, 4) {
                asm_x86::encoded(i.repr, v) is Err
            } else if r.num < 8 {
                asm_x86::encoded(i.repr, v) == Ok::<Seq<u8>, Seq<char>>(
                    seq![first] + plain::low_bytes(v, 4),
                )
            } else {
                asm_x86::encoded(i.repr, v) == Ok::<Seq<u8>, Seq<char>>(
                    seq![0x41u8, first] + plain::low_bytes(v, 4),
                )
            }
        }),
{
    lemma_spelling();
    plain::lemma_low_bytes(v, 4);
    plain::lemma_low_bytes(v, 8);
    let e = asm_x86::encoded(Repr::MovRI { reg: r }, v);
    let first = (0xB8 + r.num % 8) as u8;
    assert(r.num / 8 == if r.num < 8 {
        0int
    } else {
        1
    });
    if e is Ok {
        let k = if r.size == 8 {
            8int
        } else {
            4
        };
        let head = asm_x86::rex(r.size == 8, 0, 0, (r.num / 8) as int);
        assert(head + seq![first] =~= if r.size == 8 && r.num < 8 {
            seq![0x48u8, first]
        } else if r.size == 8 {
            seq![0x49u8, first]
        } else if r.num < 8 {
            seq![first]
        } else {
            seq![0x41u8, first]
        });
    }
}

/// `push` is 0x50 and `pop` 0x58 with the lower three bits of a 64-bit register, behind
/// 0x41 for the upper eight; `ret` is 0xC3.
pub proof fn lemma_stack(r: GReg, ops: Seq<OperandModel>)
    requires
        general(r),
    ensures
        r.size == 8 && r.num < 8 ==> is_just(
            "push"@,
            seq![OperandModel::Reg(r)],
            seq![(0x50 + r.num) as u8],
        ),
        r.size == 8 && r.num >= 8 ==> is_just(
            "push"@,
            seq![OperandModel::Reg(r)],
            seq![0x41, (0x48 + r.num) as u8],
        ),
        r.size == 8 && r.num < 8 ==> is_just(
            "pop"@,
            seq![OperandModel::Reg(r)],
            seq![(0x58 + r.num) as u8],
        ),
        r.size == 8 && r.num >= 8 ==> is_just(
            "pop"@,
            seq![OperandModel::Reg(r)],
            seq![0x41, (0x50 + r.num) as u8],
        ),
        r.size == 4 ==> refused("push"@, seq![OperandModel::Reg(r)]),
        r.size == 4 ==> refused("pop"@, seq![OperandModel::Reg(r)]),
        is_just("ret"@, ops, seq![0xC3]),
{
    lemma_spelling();
    assert(r.num >= 8 ==> 0x50 + r.num % 8 == 0x48 + r.num);
    assert(r.num >= 8 ==> 0x58 + r.num % 8 == 0x50 + r.num);
    assert(r.num < 8 ==> r.num % 8 == r.num);
    let p = Repr::Push { num: r.num };
    let q = Repr::Pop { num: r.num };
    if r.size == 8 {
        assert(asm_x86::instruction("push"@, Ok(seq![OperandModel::Reg(r)])) == Some(
            asm_x86::bare(p),
        ));
        assert(asm_x86::instruction("pop"@, Ok(seq![OperandModel::Reg(r)])) == Some(
            asm_x86::bare(q),
        ));
        assert forall|v: int| #[trigger]
            asm_x86::encoded(p, v) == Ok::<Seq<u8>, Seq<char>>(
                if r.num < 8 {
                    seq![(0x50 + r.num) as u8]
                } else {
                    seq![0x41u8, (0x48 + r.num) as u8]
                },
            ) by {
            assert(asm_x86::encoded(p, v)->Ok_0 =~= if r.num < 8 {
                seq![(0x50 + r.num) as u8]
            } else {
                seq![0x41u8, (0x48 + r.num) as u8]
            });
        }
        assert forall|v: int| #[trigger]
            asm_x86::encoded(q, v) == Ok::<Seq<u8>, Seq<char>>(
                if r.num < 8 {
                    seq![(0x58 + r.num) as u8]
                } else {
                    seq![0x41u8, (0x50 + r.num) as u8]
                },
            ) by {
            assert(asm_x86::encoded(q, v)->Ok_0 =~= if r.num < 8 {
                seq![(0x58 + r.num) as u8]
            } else {
                seq![0x41u8, (0x50 + r.num) as u8]
            });
        }
    }
}

/// `movzx` is 0x0F 0xB6 from a byte in memory and 0xB7 from two bytes; without a size it
/// is refused.
pub proof fn lemma_movzx_memory(d: GReg, m: Mem)
    requires
        general(d),
        machine::addressable(Rm::Mem(m)),
    ensures
        gives(
            "movzx"@,
            seq![OperandModel::Reg(d), OperandModel::Mem(m, Some(1))],
            Seq::empty(),
            seq![0x0F, 0xB6],
            d.size == 8,
            d.num as int,
            machine::place_of(Rm::Mem(m)),
            0,
            None,
        ),
        gives(
            "movzx"@,
            seq![OperandModel::Reg(d), OperandModel::Mem(m, Some(2))],
            Seq::empty(),
            seq![0x0F, 0xB7],
            d.size == 8,
            d.num as int,
            machine::place_of(Rm::Mem(m)),
            0,
            None,
        ),
        refused("movzx"@, seq![OperandModel::Reg(d), OperandModel::Mem(m, None)]),
{
    lemma_spelling();
    lemma_two_bytes(
        "movzx"@,
        seq![OperandModel::Reg(d), OperandModel::Mem(m, Some(1))],
        None,
        0xB6,
        d.size == 8,
        d.num,
        Rm::Mem(m),
    );
    lemma_two_bytes(
        "movzx"@,
        seq![OperandModel::Reg(d), OperandModel::Mem(m, Some(2))],
        None,
        0xB7,
        d.size == 8,
        d.num,
        Rm::Mem(m),
    );
}

/// The lowest byte of the register `n`.
pub open spec fn byte_name(n: int) -> Seq<char> {
    if n == 0 {
        "al"@
    } else if n == 1 {
        "cl"@
    } else if n == 2 {
        "dl"@
    } else if n == 3 {
        "bl"@
    } else if n == 4 {
        "spl"@
    } else if n == 5 {
        "bpl"@
    } else if n == 6 {
        "sil"@
    } else if n == 7 {
        "dil"@
    } else {
        "r"@ + plain::small(n) + "b"@
    }
}

/// The lowest two bytes of the register `n`.
pub open spec fn word_name(n: int) -> Seq<char> {
    if n == 0 {
        "ax"@
    } else if n == 1 {
        "cx"@
    } else if n == 2 {
        "dx"@
    } else if n == 3 {
        "bx"@
    } else if n == 4 {
        "sp"@
    } else if n == 5 {
        "bp"@
    } else if n == 6 {
        "si"@
    } else if n == 7 {
        "di"@
    } else {
        "r"@ + plain::small(n) + "w"@
    }
}

/// The name of the general register `n` of 32 or 64 bits.
pub open spec fn register_name(n: int, size: int) -> Seq<char> {
    if n >= 8 && size == 8 {
        "r"@ + plain::small(n)
    } else if n >= 8 {
        "r"@ + plain::small(n) + "d"@
    } else if size == 8 {
        "r"@ + word_name(n)
    } else {
        "e"@ + word_name(n)
    }
}

/// The spelling of the registers.
pub proof fn lemma_register_spelling()
    ensures
        "rax"@.len() == 3,
        "rax"@[0] == 'r',
        "rax"@[1] == 'a',
        "rax"@[2] == 'x',
        "rcx"@.len() == 3,
        "rcx"@[0] == 'r',
        "rcx"@[1] == 'c',
        "rcx"@[2] == 'x',
        "rdx"@.len() == 3,
        "rdx"@[0] == 'r',
        "rdx"@[1] == 'd',
        "rdx"@[2] == 'x',
        "rbx"@.len() == 3,
        "rbx"@[0] == 'r',
        "rbx"@[1] == 'b',
        "rbx"@[2] == 'x',
        "rsp"@.len() == 3,
        "rsp"@[0] == 'r',
        "rsp"@[1] == 's',
        "rsp"@[2] == 'p',
        "rbp"@.len() == 3,
        "rbp"@[0] == 'r',
        "rbp"@[1] == 'b',
        "rbp"@[2] == 'p',
        "rsi"@.len() == 3,
        "rsi"@[0] == 'r',
        "rsi"@[1] == 's',
        "rsi"@[2] == 'i',
        "rdi"@.len() == 3,
        "rdi"@[0] == 'r',
        "rdi"@[1] == 'd',
        "rdi"@[2] == 'i',
        "r8"@.len() == 2,
        "r8"@[0] == 'r',
        "r8"@[1] == '8',
        "r9"@.len() == 2,
        "r9"@[0] == 'r',
        "r9"@[1] == '9',
        "r10"@.len() == 3,
        "r10"@[0] == 'r',
        "r10"@[1] == '1',
        "r10"@[2] == '0',
        "r11"@.len() == 3,
        "r11"@[0] == 'r',
        "r11"@[1] == '1',
        "r11"@[2] == '1',
        "r12"@.len() == 3,
        "r12"@[0] == 'r',
        "r12"@[1] == '1',
        "r12"@[2] == '2',
        "r13"@.len() == 3,
        "r13"@[0] == 'r',
        "r13"@[1] == '1',
        "r13"@[2] == '3',
        "r14"@.len() == 3,
        "r14"@[0] == 'r',
        "r14"@[1] == '1',
        "r14"@[2] == '4',
        "r15"@.len() == 3,
        "r15"@[0] == 'r',
        "r15"@[1] == '1',
        "r15"@[2] == '5',
        "eax"@.len() == 3,
        "eax"@[0] == 'e',
        "eax"@[1] == 'a',
        "eax"@[2] == 'x',
        "ecx"@.len() == 3,
        "ecx"@[0] == 'e',
        "ecx"@[1] == 'c',
        "ecx"@[2] == 'x',
        "edx"@.len() == 3,
        "edx"@[0] == 'e',
        "edx"@[1] == 'd',
        "edx"@[2] == 'x',
        "ebx"@.len() == 3,
        "ebx"@[0] == 'e',
        "ebx"@[1] == 'b',
        "ebx"@[2] == 'x',
        "esp"@.len() == 3,
        "esp"@[0] == 'e',
        "esp"@[1] == 's',
        "esp"@[2] == 'p',
        "ebp"@.len() == 3,
        "ebp"@[0] == 'e',
        "ebp"@[1] == 'b',
        "ebp"@[2] == 'p',
        "esi"@.len() == 3,
        "esi"@[0] == 'e',
        "esi"@[1] == 's',
        "esi"@[2] == 'i',
        "edi"@.len() == 3,
        "edi"@[0] == 'e',
        "edi"@[1] == 'd',
        "edi"@[2] == 'i',
        "r8d"@.len() == 3,
        "r8d"@[0] == 'r',
        "r8d"@[1] == '8',
        "r8d"@[2] == 'd',
        "r9d"@.len() == 3,
        "r9d"@[0] == 'r',
        "r9d"@[1] == '9',
        "r9d"@[2] == 'd',
        "r10d"@.len() == 4,
        "r10d"@[0] == 'r',
        "r10d"@[1] == '1',
        "r10d"@[2] == '0',
        "r10d"@[3] == 'd',
        "r11d"@.len() == 4,
        "r11d"@[0] == 'r',
        "r11d"@[1] == '1',
        "r11d"@[2] == '1',
        "r11d"@[3] == 'd',
        "r12d"@.len() == 4,
        "r12d"@[0] == 'r',
        "r12d"@[1] == '1',
        "r12d"@[2] == '2',
        "r12d"@[3] == 'd',
        "r13d"@.len() == 4,
        "r13d"@[0] == 'r',
        "r13d"@[1] == '1',
        "r13d"@[2] == '3',
        "r13d"@[3] == 'd',
        "r14d"@.len() == 4,
        "r14d"@[0] == 'r',
        "r14d"@[1] == '1',
        "r14d"@[2] == '4',
        "r14d"@[3] == 'd',
        "r15d"@.len() == 4,
        "r15d"@[0] == 'r',
        "r15d"@[1] == '1',
        "r15d"@[2] == '5',
        "r15d"@[3] == 'd',
        "al"@.len() == 2,
        "al"@[0] == 'a',
        "al"@[1] == 'l',
        "cl"@.len() == 2,
        "cl"@[0] == 'c',
        "cl"@[1] == 'l',
        "dl"@.len() == 2,
        "dl"@[0] == 'd',
        "dl"@[1] == 'l',
        "bl"@.len() == 2,
        "bl"@[0] == 'b',
        "bl"@[1] == 'l',
        "spl"@.len() == 3,
        "spl"@[0] == 's',
        "spl"@[1] == 'p',
        "spl"@[2] == 'l',
        "bpl"@.len() == 3,
        "bpl"@[0] == 'b',
        "bpl"@[1] == 'p',
        "bpl"@[2] == 'l',
        "sil"@.len() == 3,
        "sil"@[0] == 's',
        "sil"@[1] == 'i',
        "sil"@[2] == 'l',
        "dil"@.len() == 3,
        "dil"@[0] == 'd',
        "dil"@[1] == 'i',
        "dil"@[2] == 'l',
        "r8b"@.len() == 3,
        "r8b"@[0] == 'r',
        "r8b"@[1] == '8',
        "r8b"@[2] == 'b',
        "r9b"@.len() == 3,
        "r9b"@[0] == 'r',
        "r9b"@[1] == '9',
        "r9b"@[2] == 'b',
        "r10b"@.len() == 4,
        "r10b"@[0] == 'r',
        "r10b"@[1] == '1',
        "r10b"@[2] == '0',
        "r10b"@[3] == 'b',
        "r11b"@.len() == 4,
        "r11b"@[0] == 'r',
        "r11b"@[1] == '1',
        "r11b"@[2] == '1',
        "r11b"@[3] == 'b',
        "r12b"@.len() == 4,
        "r12b"@[0] == 'r',
        "r12b"@[1] == '1',
        "r12b"@[2] == '2',
        "r12b"@[3] == 'b',
        "r13b"@.len() == 4,
        "r13b"@[0] == 'r',
        "r13b"@[1] == '1',
        "r13b"@[2] == '3',
        "r13b"@[3] == 'b',
        "r14b"@.len() == 4,
        "r14b"@[0] == 'r',
        "r14b"@[1] == '1',
        "r14b"@[2] == '4',
        "r14b"@[3] == 'b',
        "r15b"@.len() == 4,
        "r15b"@[0] == 'r',
        "r15b"@[1] == '1',
        "r15b"@[2] == '5',
        "r15b"@[3] == 'b',
        "ax"@.len() == 2,
        "ax"@[0] == 'a',
        "ax"@[1] == 'x',
        "cx"@.len() == 2,
        "cx"@[0] == 'c',
        "cx"@[1] == 'x',
        "dx"@.len() == 2,
        "dx"@[0] == 'd',
        "dx"@[1] == 'x',
        "bx"@.len() == 2,
        "bx"@[0] == 'b',
        "bx"@[1] == 'x',
        "sp"@.len() == 2,
        "sp"@[0] == 's',
        "sp"@[1] == 'p',
        "bp"@.len() == 2,
        "bp"@[0] == 'b',
        "bp"@[1] == 'p',
        "si"@.len() == 2,
        "si"@[0] == 's',
        "si"@[1] == 'i',
        "di"@.len() == 2,
        "di"@[0] == 'd',
        "di"@[1] == 'i',
        "r8w"@.len() == 3,
        "r8w"@[0] == 'r',
        "r8w"@[1] == '8',
        "r8w"@[2] == 'w',
        "r9w"@.len() == 3,
        "r9w"@[0] == 'r',
        "r9w"@[1] == '9',
        "r9w"@[2] == 'w',
        "r10w"@.len() == 4,
        "r10w"@[0] == 'r',
        "r10w"@[1] == '1',
        "r10w"@[2] == '0',
        "r10w"@[3] == 'w',
        "r11w"@.len() == 4,
        "r11w"@[0] == 'r',
        "r11w"@[1] == '1',
        "r11w"@[2] == '1',
        "r11w"@[3] == 'w',
        "r12w"@.len() == 4,
        "r12w"@[0] == 'r',
        "r12w"@[1] == '1',
        "r12w"@[2] == '2',
        "r12w"@[3] == 'w',
        "r13w"@.len() == 4,
        "r13w"@[0] == 'r',
        "r13w"@[1] == '1',
        "r13w"@[2] == '3',
        "r13w"@[3] == 'w',
        "r14w"@.len() == 4,
        "r14w"@[0] == 'r',
        "r14w"@[1] == '1',
        "r14w"@[2] == '4',
        "r14w"@[3] == 'w',
        "r15w"@.len() == 4,
        "r15w"@[0] == 'r',
        "r15w"@[1] == '1',
        "r15w"@[2] == '5',
        "r15w"@[3] == 'w',
        "r"@.len() == 1,
        "r"@[0] == 'r',
        "e"@.len() == 1,
        "e"@[0] == 'e',
        "d"@.len() == 1,
        "d"@[0] == 'd',
        "b"@.len() == 1,
        "b"@[0] == 'b',
        "w"@.len() == 1,
        "w"@[0] == 'w',
        "xmm"@.len() == 3,
        "xmm"@[0] == 'x',
        "xmm"@[1] == 'm',
        "xmm"@[2] == 'm',
{
    reveal_strlit("rax");
    reveal_strlit("rcx");
    reveal_strlit("rdx");
    reveal_strlit("rbx");
    reveal_strlit("rsp");
    reveal_strlit("rbp");
    reveal_strlit("rsi");
    reveal_strlit("rdi");
    reveal_strlit("r8");
    reveal_strlit("r9");
    reveal_strlit("r10");
    reveal_strlit("r11");
    reveal_strlit("r12");
    reveal_strlit("r13");
    reveal_strlit("r14");
    reveal_strlit("r15");
    reveal_strlit("eax");
    reveal_strlit("ecx");
    reveal_strlit("edx");
    reveal_strlit("ebx");
    reveal_strlit("esp");
    reveal_strlit("ebp");
    reveal_strlit("esi");
    reveal_strlit("edi");
    reveal_strlit("r8d");
    reveal_strlit("r9d");
    reveal_strlit("r10d");
    reveal_strlit("r11d");
    reveal_strlit("r12d");
    reveal_strlit("r13d");
    reveal_strlit("r14d");
    reveal_strlit("r15d");
    reveal_strlit("al");
    reveal_strlit("cl");
    reveal_strlit("dl");
    reveal_strlit("bl");
    reveal_strlit("spl");
    reveal_strlit("bpl");
    reveal_strlit("sil");
    reveal_strlit("dil");
    reveal_strlit("r8b");
    reveal_strlit("r9b");
    reveal_strlit("r10b");
    reveal_strlit("r11b");
    reveal_strlit("r12b");
    reveal_strlit("r13b");
    reveal_strlit("r14b");
    reveal_strlit("r15b");
    reveal_strlit("ax");
    reveal_strlit("cx");
    reveal_strlit("dx");
    reveal_strlit("bx");
    reveal_strlit("sp");
    reveal_strlit("bp");
    reveal_strlit("si");
    reveal_strlit("di");
    reveal_strlit("r8w");
    reveal_strlit("r9w");
    reveal_strlit("r10w");
    reveal_strlit("r11w");
    reveal_strlit("r12w");
    reveal_strlit("r13w");
    reveal_strlit("r14w");
    reveal_strlit("r15w");
    reveal_strlit("r");
    reveal_strlit("e");
    reveal_strlit("d");
    reveal_strlit("b");
    reveal_strlit("w");
    reveal_strlit("xmm");
}

pub proof fn lemma_register_names()
    ensures
        register_name(0, 8) == "rax"@,
        register_name(0, 4) == "eax"@,
        byte_name(0) == "al"@,
        word_name(0) == "ax"@,
        register_name(1, 8) == "rcx"@,
        register_name(1, 4) == "ecx"@,
        byte_name(1) == "cl"@,
        word_name(1) == "cx"@,
        register_name(2, 8) == "rdx"@,
        register_name(2, 4) == "edx"@,
        byte_name(2) == "dl"@,
        word_name(2) == "dx"@,
        register_name(3, 8) == "rbx"@,
        register_name(3, 4) == "ebx"@,
        byte_name(3) == "bl"@,
        word_name(3) == "bx"@,
        register_name(4, 8) == "rsp"@,
        register_name(4, 4) == "esp"@,
        byte_name(4) == "spl"@,
        word_name(4) == "sp"@,
        register_name(5, 8) == "rbp"@,
        register_name(5, 4) == "ebp"@,
        byte_name(5) == "bpl"@,
        word_name(5) == "bp"@,
        register_name(6, 8) == "rsi"@,
        register_name(6, 4) == "esi"@,
        byte_name(6) == "sil"@,
        word_name(6) == "si"@,
        register_name(7, 8) == "rdi"@,
        register_name(7, 4) == "edi"@,
        byte_name(7) == "dil"@,
        word_name(7) == "di"@,
        register_name(8, 8) == "r8"@,
        register_name(8, 4) == "r8d"@,
        byte_name(8) == "r8b"@,
        word_name(8) == "r8w"@,
        register_name(9, 8) == "r9"@,
        register_name(9, 4) == "r9d"@,
        byte_name(9) == "r9b"@,
        word_name(9) == "r9w"@,
        register_name(10, 8) == "r10"@,
        register_name(10, 4) == "r10d"@,
        byte_name(10) == "r10b"@,
        word_name(10) == "r10w"@,
        register_name(11, 8) == "r11"@,
        register_name(11, 4) == "r11d"@,
        byte_name(11) == "r11b"@,
        word_name(11) == "r11w"@,
        register_name(12, 8) == "r12"@,
        register_name(12, 4) == "r12d"@,
        byte_name(12) == "r12b"@,
        word_name(12) == "r12w"@,
        register_name(13, 8) == "r13"@,
        register_name(13, 4) == "r13d"@,
        byte_name(13) == "r13b"@,
        word_name(13) == "r13w"@,
        register_name(14, 8) == "r14"@,
        register_name(14, 4) == "r14d"@,
        byte_name(14) == "r14b"@,
        word_name(14) == "r14w"@,
        register_name(15, 8) == "r15"@,
        register_name(15, 4) == "r15d"@,
        byte_name(15) == "r15b"@,
        word_name(15) == "r15w"@,
{
    lemma_register_spelling();
    assert(register_name(0, 8) =~= "rax"@);
    assert(register_name(0, 4) =~= "eax"@);
    assert(register_name(1, 8) =~= "rcx"@);
    assert(register_name(1, 4) =~= "ecx"@);
    assert(register_name(2, 8) =~= "rdx"@);
    assert(register_name(2, 4) =~= "edx"@);
    assert(register_name(3, 8) =~= "rbx"@);
    assert(register_name(3, 4) =~= "ebx"@);
    assert(register_name(4, 8) =~= "rsp"@);
    assert(register_name(4, 4) =~= "esp"@);
    assert(register_name(5, 8) =~= "rbp"@);
    assert(register_name(5, 4) =~= "ebp"@);
    assert(register_name(6, 8) =~= "rsi"@);
    assert(register_name(6, 4) =~= "esi"@);
    assert(register_name(7, 8) =~= "rdi"@);
    assert(register_name(7, 4) =~= "edi"@);
    assert(register_name(8, 8) =~= "r8"@);
    assert(register_name(8, 4) =~= "r8d"@);
    assert(byte_name(8) =~= "r8b"@);
    assert(word_name(8) =~= "r8w"@);
    assert(register_name(9, 8) =~= "r9"@);
    assert(register_name(9, 4) =~= "r9d"@);
    assert(byte_name(9) =~= "r9b"@);
    assert(word_name(9) =~= "r9w"@);
    assert(register_name(10, 8) =~= "r10"@);
    assert(register_name(10, 4) =~= "r10d"@);
    assert(byte_name(10) =~= "r10b"@);
    assert(word_name(10) =~= "r10w"@);
    assert(register_name(11, 8) =~= "r11"@);
    assert(register_name(11, 4) =~= "r11d"@);
    assert(byte_name(11) =~= "r11b"@);
    assert(word_name(11) =~= "r11w"@);
    assert(register_name(12, 8) =~= "r12"@);
    assert(register_name(12, 4) =~= "r12d"@);
    assert(byte_name(12) =~= "r12b"@);
    assert(word_name(12) =~= "r12w"@);
    assert(register_name(13, 8) =~= "r13"@);
    assert(register_name(13, 4) =~= "r13d"@);
    assert(byte_name(13) =~= "r13b"@);
    assert(word_name(13) =~= "r13w"@);
    assert(register_name(14, 8) =~= "r14"@);
    assert(register_name(14, 4) =~= "r14d"@);
    assert(byte_name(14) =~= "r14b"@);
    assert(word_name(14) =~= "r14w"@);
    assert(register_name(15, 8) =~= "r15"@);
    assert(register_name(15, 4) =~= "r15d"@);
    assert(byte_name(15) =~= "r15b"@);
    assert(word_name(15) =~= "r15w"@);
}

/// A text names a general register exactly if it is the name of that register, in
/// whatever case and with space round it.
pub proof fn lemma_general_registers(s: Seq<char>, r: GReg)
    requires
        general(r),
    ensures
        asm_x86::register(s) == Some(r) <==> text::lowered(text::trimmed(s)) == register_name(
            r.num as int,
            r.size as int,
        ),
{
    lemma_register_names();
    lemma_register_spelling();
}

/// A text names the lowest byte, or the lowest two, of a register exactly if it is the
/// name of that part.
pub proof fn lemma_parts_of_registers(t: Seq<char>, n: u8)
    requires
        n < 16,
    ensures
        asm_x86::byte_register(t) == Some(n) <==> t == byte_name(n as int),
        asm_x86::word_register(t) == Some(n) <==> t == word_name(n as int),
{
    lemma_register_names();
    lemma_register_spelling();
}

/// The sixteen vector registers are `xmm` and their number.
pub proof fn lemma_vector_registers(s: Seq<char>, n: int)
    requires
        0 <= n < 16,
        text::lowered(text::trimmed(s)) == "xmm"@ + plain::small(n),
    ensures
        asm_x86::xmm_register(s) == Some(n),
{
    lemma_register_spelling();
    let d = plain::small(n);
    let t = "xmm"@ + d;
    assert(t.take(3) =~= "xmm"@);
    assert(t.skip(3) =~= d);
    reveal_with_fuel(text::number, 4);
    if n < 10 {
        assert(d.drop_last() =~= Seq::<char>::empty());
    } else {
        assert(d.drop_last() =~= seq![d[0]]);
        assert(d.drop_last().drop_last() =~= Seq::<char>::empty());
    }
    assert(text::number(d, 10) == n);
}

/// `movzx` from a register: 0x0F 0xB6 from its lowest byte, with a prefix where the byte
/// has no name without one, and 0x0F 0xB7 from its lowest two.
pub proof fn lemma_movzx_register(d: GReg, n: u8, t: Seq<char>, v: int)
    requires
        general(d),
        n < 16,
    ensures
        text::lowered(t) == word_name(n as int) ==> gives(
            "movzx"@,
            seq![OperandModel::Reg(d), OperandModel::Imm(t)],
            Seq::empty(),
            seq![0x0F, 0xB7],
            d.size == 8,
            d.num as int,
            Place::Register(n as int),
            0,
            None,
        ),
        text::lowered(t) == byte_name(n as int) ==> gives(
            "movzx"@,
            seq![OperandModel::Reg(d), OperandModel::Imm(t)],
            Seq::empty(),
            seq![0x0F, 0xB6],
            d.size == 8,
            d.num as int,
            Place::Register(n as int),
            0,
            None,
        ),
        text::lowered(t) == byte_name(n as int) && 4 <= n < 8 ==> {
            let i = asm_x86::instruction(
                "movzx"@,
                Ok(seq![OperandModel::Reg(d), OperandModel::Imm(t)]),
            )->0->Ok_0;
            machine::prefixed(asm_x86::encoded(i.repr, v)->Ok_0)
        },
{
    lemma_spelling();
    lemma_parts_of_registers(text::lowered(t), n);
    let ops = seq![OperandModel::Reg(d), OperandModel::Imm(t)];
    if text::lowered(t) == word_name(n as int) {
        lemma_names_apart(text::lowered(t), n);
        lemma_two_bytes("movzx"@, ops, None, 0xB7, d.size == 8, d.num, Rm::Reg(n));
    }
    if text::lowered(t) == byte_name(n as int) {
        let w = d.size == 8;
        let repr = Repr::LowByte { opcode: 0xB6, w, reg: d.num, num: n };
        let head = asm_x86::low_rex(w, d.num, n);
        let tail = seq![
            0x0Fu8,
            0xB6,
            asm_x86::fields(3, (d.num % 8) as int, (n % 8) as int),
        ];
        assert(asm_x86::instruction("movzx"@, Ok(ops)) == Some(asm_x86::bare(repr)));
        let b = head + tail;
        machine::lemma_low_byte(b, w, d.num, n, tail);
        assert(tail =~= seq![0x0Fu8, 0xB6] + seq![
            asm_x86::fields(3, (d.num % 8) as int, (n % 8) as int),
        ] + Seq::<u8>::empty());
        machine::lemma_register_read_back(
            b,
            tail,
            w,
            d.num as int,
            n,
            seq![0x0Fu8, 0xB6],
            Seq::empty(),
        );
        assert(b.skip(0) =~= b);
        assert(b.take(0) =~= Seq::empty());
        assert(forall|u: int| #[trigger] asm_x86::encoded(repr, u) == Ok::<Seq<u8>, Seq<char>>(b));
    }
}

proof fn lemma_names_apart(t: Seq<char>, n: u8)
    requires
        n < 16,
        t == word_name(n as int),
    ensures
        asm_x86::byte_register(t) is None,
{
    lemma_register_names();
    lemma_register_spelling();
}

/// Whether the processor has such an operand.
pub open spec fn usable(o: OperandModel) -> bool {
    match o {
        OperandModel::Reg(r) => general(r),
        OperandModel::Xmm(n) => n < 16,
        OperandModel::Mem(m, size) => machine::addressable(Rm::Mem(m)) && plain_size(size),
        OperandModel::Imm(_) => true,
    }
}

/// Two readings of the same bytes have the same opcode and the same register.
proof fn lemma_one_reading(
    r: Result<Seq<u8>, Seq<char>>,
    a: u8,
    b: u8,
    w: bool,
    v: bool,
    i: int,
    j: int,
    p: Place,
    q: Place,
    x: Seq<u8>,
    y: Seq<u8>,
)
    requires
        means(r, Seq::empty(), seq![a], w, i, p, x),
        means(r, Seq::empty(), seq![b], v, j, q, y),
    ensures
        a == b,
        i == j,
{
    reveal(machine::stands_for);
    assert(seq![a][0] == a);
    assert(seq![b][0] == b);
}

/// Distinct operations of arithmetic are never assembled, with the same operands,
/// to the same bytes.
pub proof fn lemma_arithmetic_distinct(
    j: int,
    k: int,
    a: OperandModel,
    b: OperandModel,
    x: InsnModel,
    y: InsnModel,
    v: int,
)
    requires
        0 <= j < 8,
        0 <= k < 8,
        j != k,
        usable(a),
        usable(b),
        asm_x86::instruction(arithmetic(j), Ok(seq![a, b])) == Some(Ok::<InsnModel, Seq<char>>(x)),
        asm_x86::instruction(arithmetic(k), Ok(seq![a, b])) == Some(Ok::<InsnModel, Seq<char>>(y)),
        asm_x86::encoded(x.repr, v) is Ok,
    ensures
        asm_x86::encoded(x.repr, v) != asm_x86::encoded(y.repr, v),
{
    let g = GReg { num: 0, size: 8 };
    let n = Mem { base: 0, index: None, scale: 1, disp: 0 };
    let no = Seq::<u8>::empty();
    let t = Seq::<char>::empty();
    let e = asm_x86::encoded(x.repr, v);
    let rest = plain::low_bytes(v, 4);
    if e == asm_x86::encoded(y.repr, v) {
        match (a, b) {
            (OperandModel::Reg(d), OperandModel::Reg(s)) => {
                lemma_arithmetic(j, d, s, n, None, t);
                lemma_arithmetic(k, d, s, n, None, t);
                let p = Place::Register(d.num as int);
                let w = d.size == 8;
                let c = s.num as int;
                lemma_one_reading(
                    e,
                    (8 * j + 1) as u8,
                    (8 * k + 1) as u8,
                    w,
                    w,
                    c,
                    c,
                    p,
                    p,
                    plain::low_bytes(v, 0),
                    plain::low_bytes(v, 0),
                );
            },
            (OperandModel::Reg(d), OperandModel::Mem(m, size)) => {
                lemma_arithmetic(j, d, g, m, size, t);
                lemma_arithmetic(k, d, g, m, size, t);
                let p = machine::place_of(Rm::Mem(m));
                let w = d.size == 8;
                let c = d.num as int;
                lemma_one_reading(
                    e,
                    (8 * j + 3) as u8,
                    (8 * k + 3) as u8,
                    w,
                    w,
                    c,
                    c,
                    p,
                    p,
                    plain::low_bytes(v, 0),
                    plain::low_bytes(v, 0),
                );
            },
            (OperandModel::Mem(m, size), OperandModel::Reg(s)) => {
                lemma_arithmetic(j, g, s, m, size, t);
                lemma_arithmetic(k, g, s, m, size, t);
                let p = machine::place_of(Rm::Mem(m));
                let w = s.size == 8;
                let c = s.num as int;
                lemma_one_reading(
                    e,
                    (8 * j + 1) as u8,
                    (8 * k + 1) as u8,
                    w,
                    w,
                    c,
                    c,
                    p,
                    p,
                    plain::low_bytes(v, 0),
                    plain::low_bytes(v, 0),
                );
            },
            (OperandModel::Reg(d), OperandModel::Imm(u)) => {
                lemma_arithmetic(j, d, g, n, None, u);
                lemma_arithmetic(k, d, g, n, None, u);
                let p = Place::Register(d.num as int);
                let w = d.size == 8;
                lemma_one_reading(e, 0x81, 0x81, w, w, j, k, p, p, rest, rest);
            },
            (OperandModel::Mem(m, size), OperandModel::Imm(u)) => {
                lemma_arithmetic(j, g, g, m, size, u);
                lemma_arithmetic(k, g, g, m, size, u);
                let p = machine::place_of(Rm::Mem(m));
                let w = size == Some(8u8);
                lemma_one_reading(e, 0x81, 0x81, w, w, j, k, p, p, rest, rest);
            },
            _ => {
                lemma_other_operands(j, a, b);
            },
        }
    }
}

/// Arithmetic takes no vectors, no immediate as its target and no two operands in memory.
pub proof fn lemma_other_operands(k: int, a: OperandModel, b: OperandModel)
    requires
        0 <= k < 8,
        a is Xmm || a is Imm || b is Xmm || (a is Mem && b is Mem),
    ensures
        refused(arithmetic(k), seq![a, b]),
{
    lemma_spelling();
}

} // verus!
