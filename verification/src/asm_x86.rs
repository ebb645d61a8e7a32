//! Assembler for a practical subset of x86-64, enough to write readable code
//! caves.
//!
//! Instructions (operands of 32 or 64 bits):
//!   mov   reg,imm | reg,reg | reg,[mem] | [mem],reg | [mem],imm
//!   add/sub/and/or/xor/cmp/adc/sbb   the same forms
//!   test  reg,reg | reg,imm | reg,[mem] | [mem],reg | [mem],imm
//!   lea   reg,[mem]
//!   inc/dec/neg/not   reg | [mem]
//!   imul  reg,reg/[mem] | reg,imm | reg,reg/[mem],imm | reg/[mem]
//!   shl/sal/shr/sar   reg/[mem],imm | reg/[mem],cl
//!   movzx reg,reg8/reg16 | reg,byte/word [mem]
//!   push/pop  reg
//!   ret
//!   movss/movsd/movups/movupd/movaps/movapd   xmm,xmm/[mem] | [mem],xmm
//!   add/sub/mul/div ss|sd|ps|pd   xmm,xmm/[mem]
//!   xorps/xorpd, cvtsi2ss/cvtsi2sd, cvttss2si/cvttsd2si
//!   movd/movq   xmm,reg/[mem] | reg/[mem],xmm | movq xmm,xmm
//!
//! Memory operands are `[base]`, `[base+disp]`, `[base-disp]` and
//! `[base+index*scale+disp]` with the scale 1, 2, 4 or 8. Numbers without a
//! prefix are hexadecimal, `0x..` and `$..` too, `#..` is decimal, `(float)N` and
//! `(double)N` are IEEE 754 bit patterns. An immediate may be a symbol: `parse`
//! keeps its text and `build` takes its value.
use crate::bytes;
use crate::ieee;
use crate::text;
use vstd::prelude::*;

verus! {

/// A general-purpose register.
#[derive(Clone, Copy, Debug)]
pub struct GReg {
    /// Its number, 0 to 15.
    pub num: u8,
    /// Its size in bytes, 4 or 8.
    pub size: u8,
}

/// A memory operand: base plus index times scale plus displacement.
#[derive(Clone, Copy, Debug)]
pub struct Mem {
    pub base: u8,
    pub index: Option<u8>,
    pub scale: u8,
    pub disp: i64,
}

/// What a ModRM byte refers to besides a register.
#[derive(Clone, Copy, Debug)]
pub enum Rm {
    Reg(u8),
    Mem(Mem),
}

/// The normal form of an instruction; its size is already determined.
#[allow(inconsistent_fields)]
#[derive(Clone, Copy, Debug)]
pub enum Repr {
    /// One opcode byte and a ModRM byte with the register `reg`.
    RmR { opcode: u8, w: bool, reg: u8, rm: Rm },
    /// One opcode byte and a ModRM byte with `digit`, an opcode extension or a
    /// register, followed by an immediate of `imm_width` bytes.
    RmI { opcode: u8, digit: u8, w: bool, rm: Rm, imm_width: u8 },
    /// A move of an immediate of the register's size.
    MovRI { reg: GReg },
    /// A two-byte opcode, with an optional prefix before it.
    Sse { prefix: Option<u8>, opcode: u8, w: bool, reg: u8, rm: Rm },
    /// A two-byte opcode whose source is the lowest byte of the register `num`.
    LowByte { opcode: u8, w: bool, reg: u8, num: u8 },
    Push { num: u8 },
    Pop { num: u8 },
    Ret,
}

/// An assembled instruction: its normal form and the text of its immediate.
#[derive(Debug)]
pub struct Insn {
    pub repr: Repr,
    pub imm: Option<String>,
}

/// The value of an instruction.
pub struct InsnModel {
    pub repr: Repr,
    pub imm: Option<Seq<char>>,
}

impl Insn {
    /// The value of the instruction.
    pub open spec fn model(self) -> InsnModel {
        InsnModel { repr: self.repr, imm: text::option_view(self.imm) }
    }
}

/// The value of a result that may be a message.
pub open spec fn insn_result(r: Result<Insn, String>) -> Result<InsnModel, Seq<char>> {
    match r {
        Ok(i) => Ok(i.model()),
        Err(e) => Err(e@),
    }
}

/// The value of assembled bytes or a message.
pub open spec fn bytes_result(r: Result<Vec<u8>, String>) -> Result<Seq<u8>, Seq<char>> {
    match r {
        Ok(v) => Ok(v@),
        Err(e) => Err(e@),
    }
}

// ---------------------------------------------------------------------------
// Encoding
// ---------------------------------------------------------------------------
/// A number as it is shown in messages: `0x` and its 64-bit pattern in
/// hexadecimal.
pub open spec fn shown_hex(n: int) -> Seq<char> {
    "0x"@ + text::hex((n % 0x1_0000_0000_0000_0000) as nat)
}

/// The REX prefix, present if any of its bits is needed.
pub open spec fn rex(w: bool, r: int, x: int, b: int) -> Seq<u8> {
    if w || r != 0 || x != 0 || b != 0 {
        seq![(0x40 + (if w { 8int } else { 0 }) + 4 * (r % 2) + 2 * (x % 2) + b % 2) as u8]
    } else {
        Seq::empty()
    }
}

/// A byte of three fields of 2, 3 and 3 bits.
pub open spec fn fields(high: int, mid: int, low: int) -> u8 {
    (64 * high + 8 * mid + low) as u8
}

/// How a memory operand is encoded around the ModRM byte.
pub struct Address {
    /// The SIB byte, if one is needed.
    pub sib: Option<u8>,
    /// The bytes of the displacement.
    pub disp: Seq<u8>,
    /// The REX bit of the index.
    pub x: int,
    /// The REX bit of the base.
    pub b: int,
    /// The addressing mode: 0, 1 or 4 bytes of displacement.
    pub mode: int,
    /// The low field of the ModRM byte.
    pub low: int,
}

/// The addressing mode and the bytes of the displacement. The bases 5 and 13
/// have no mode without displacement.
pub open spec fn displacement(m: Mem) -> Result<(int, Seq<u8>), Seq<char>> {
    if m.disp == 0 && m.base % 8 != 5 {
        Ok((0, Seq::empty()))
    } else if -128 <= m.disp <= 127 {
        Ok((1, bytes::le(m.disp as int, 1)))
    } else if i32::MIN <= m.disp <= i32::MAX {
        Ok((2, bytes::le(m.disp as int, 4)))
    } else {
        Err("deslocamento fora do alcance: "@ + shown_hex(m.disp as int))
    }
}

/// The scale field of a SIB byte.
pub open spec fn scale_field(scale: u8) -> Option<int> {
    if scale == 1 {
        Some(0)
    } else if scale == 2 {
        Some(1)
    } else if scale == 4 {
        Some(2)
    } else if scale == 8 {
        Some(3)
    } else {
        None
    }
}

/// The encoding of a memory operand. A SIB byte is needed for an index and for
/// the bases 4 and 12; 4 in its index field, without the REX bit, means no index.
pub open spec fn address(m: Mem) -> Result<Address, Seq<char>> {
    let base = (m.base % 8) as int;
    let b = ((m.base / 8) % 2) as int;
    match displacement(m) {
        Err(e) => Err(e),
        Ok((mode, disp)) => if m.index is Some || base == 4 {
            if m.index == Some(4u8) {
                Err("rsp/esp nao pode ser registrador de indice"@)
            } else {
                let (field, x) = match m.index {
                    Some(i) => ((i % 8) as int, ((i / 8) % 2) as int),
                    None => (4, 0),
                };
                match scale_field(m.scale) {
                    Some(s) => Ok(
                        Address { sib: Some(fields(s, field, base)), disp, x, b, mode, low: 4 },
                    ),
                    None => Err("escala invalida: "@ + text::decimal(m.scale as nat)),
                }
            }
        } else {
            Ok(Address { sib: None, disp, x: 0, b, mode, low: base })
        },
    }
}

/// An optional byte as bytes.
pub open spec fn maybe(b: Option<u8>) -> Seq<u8> {
    match b {
        Some(x) => seq![x],
        None => Seq::empty(),
    }
}

/// REX prefix, opcode bytes, ModRM byte and what follows it.
pub open spec fn modrm(w: bool, reg: int, rm: Rm, opcode: Seq<u8>) -> Result<Seq<u8>, Seq<char>> {
    match rm {
        Rm::Reg(n) => Ok(
            rex(w, reg / 8, 0, (n / 8) as int) + opcode + seq![
                fields(3, reg % 8, (n % 8) as int),
            ],
        ),
        Rm::Mem(m) => match address(m) {
            Ok(a) => Ok(
                rex(w, reg / 8, a.x, a.b) + opcode + seq![fields(a.mode, reg % 8, a.low)] + maybe(
                    a.sib,
                ) + a.disp,
            ),
            Err(e) => Err(e),
        },
    }
}

/// The bytes of an immediate.
pub open spec fn immediate(imm: int, width: int) -> Result<Seq<u8>, Seq<char>> {
    if width == 0 {
        Ok(Seq::empty())
    } else if width == 1 {
        if i8::MIN <= imm <= u8::MAX {
            Ok(bytes::le(imm, 1))
        } else {
            Err("imediato "@ + shown_hex(imm) + " nao cabe em 8 bits"@)
        }
    } else if width == 4 {
        if i32::MIN <= imm <= u32::MAX {
            Ok(bytes::le(imm, 4))
        } else {
            Err("imediato "@ + shown_hex(imm) + " nao cabe em 32 bits"@)
        }
    } else if width == 8 {
        Ok(bytes::le(imm, 8))
    } else {
        Err("largura de imediato invalida: "@ + text::decimal(width as nat))
    }
}

/// Bytes with an immediate behind them.
pub open spec fn followed_by(
    a: Result<Seq<u8>, Seq<char>>,
    b: Result<Seq<u8>, Seq<char>>,
) -> Result<Seq<u8>, Seq<char>> {
    match a {
        Err(e) => Err(e),
        Ok(x) => match b {
            Err(e) => Err(e),
            Ok(y) => Ok(x + y),
        },
    }
}

/// The REX prefix before a source of one byte: the registers above 3 need one,
/// since without it their numbers mean the second byte of the first four.
pub open spec fn low_rex(w: bool, reg: u8, num: u8) -> Seq<u8> {
    if num >= 4 {
        seq![
            (0x40 + (if w {
                8int
            } else {
                0
            }) + 4 * ((reg / 8) % 2) + (num / 8) % 2) as u8,
        ]
    } else {
        rex(w, (reg / 8) as int, 0, 0)
    }
}

/// The machine code of an instruction whose immediate has the value `imm`.
pub open spec fn encoded(repr: Repr, imm: int) -> Result<Seq<u8>, Seq<char>> {
    match repr {
        Repr::RmR { opcode, w, reg, rm } => modrm(w, reg as int, rm, seq![opcode]),
        Repr::RmI { opcode, digit, w, rm, imm_width } => followed_by(
            modrm(w, digit as int, rm, seq![opcode]),
            immediate(imm, imm_width as int),
        ),
        Repr::MovRI { reg } => followed_by(
            Ok(
                rex(reg.size == 8, 0, 0, (reg.num / 8) as int) + seq![
                    (0xB8 + reg.num % 8) as u8,
                ],
            ),
            immediate(imm, if reg.size == 8 { 8 } else { 4 }),
        ),
        Repr::Sse { prefix, opcode, w, reg, rm } => followed_by(
            Ok(maybe(prefix)),
            modrm(w, reg as int, rm, seq![0x0F, opcode]),
        ),
        Repr::LowByte { opcode, w, reg, num } => Ok(
            low_rex(w, reg, num) + seq![
                0x0F,
                opcode,
                fields(3, (reg % 8) as int, (num % 8) as int),
            ],
        ),
        Repr::Push { num } => Ok(
            (if num >= 8 {
                seq![0x41u8]
            } else {
                Seq::empty()
            }) + seq![(0x50 + num % 8) as u8],
        ),
        Repr::Pop { num } => Ok(
            (if num >= 8 {
                seq![0x41u8]
            } else {
                Seq::empty()
            }) + seq![(0x58 + num % 8) as u8],
        ),
        Repr::Ret => Ok(seq![0xC3]),
    }
}

/// How many bytes an instruction takes; none if it cannot be encoded.
#[verifier::opaque]
pub open spec fn length(repr: Repr) -> nat {
    match encoded(repr, 0) {
        Ok(b) => b.len(),
        Err(_) => 0,
    }
}

/// A message that ends in a number in hexadecimal.
pub(crate) fn message_hex(head: &str, n: i64) -> (r: String)
    ensures
        r@ == head@ + shown_hex(n as int),
{
    let mut hex: String = "0x".to_owned();
    let digits: String = text::write_hex(bytes::as_unsigned(n));
    hex.append(digits.as_str());
    let mut r: String = head.to_owned();
    r.append(hex.as_str());
    r
}

/// A message that ends in a number in decimal.
fn message_decimal(head: &str, n: u64) -> (r: String)
    ensures
        r@ == head@ + text::decimal(n as nat),
{
    let digits: String = text::write_decimal(n);
    let mut r: String = head.to_owned();
    r.append(digits.as_str());
    r
}

/// Appends the REX prefix if any of its bits is needed.
fn push_rex(w: bool, r: u8, x: u8, b: u8, out: &mut Vec<u8>)
    ensures
        final(out)@ == old(out)@ + rex(w, r as int, x as int, b as int),
{
    if w || r != 0 || x != 0 || b != 0 {
        let wide: u8 = if w {
            8
        } else {
            0
        };
        out.push(0x40 + wide + 4 * (r % 2) + 2 * (x % 2) + b % 2);
    }
    proof {
        assert(out@ =~= old(out)@ + rex(w, r as int, x as int, b as int));
    }
}

/// Computes SIB byte, displacement, REX bits, mode and low field of a memory
/// operand.
fn encode_mem(m: &Mem) -> (r: Result<(Option<u8>, Vec<u8>, u8, u8, u8, u8), String>)
    ensures
        match r {
            Ok(t) => address(*m) == Ok::<Address, Seq<char>>(
                Address {
                    sib: t.0,
                    disp: t.1@,
                    x: t.2 as int,
                    b: t.3 as int,
                    mode: t.4 as int,
                    low: t.5 as int,
                },
            ) && t.4 <= 2 && t.5 < 8,
            Err(e) => address(*m) == Err::<Address, Seq<char>>(e@),
        },
{
    let base: u8 = m.base % 8;
    let b: u8 = (m.base / 8) % 2;
    let mut disp: Vec<u8> = Vec::new();
    let mode: u8;
    if m.disp == 0 && base != 5 {
        mode = 0;
    } else if -128 <= m.disp && m.disp <= 127 {
        mode = 1;
        bytes::push_le(&mut disp, bytes::as_unsigned(m.disp), 1);
        proof {
            bytes::lemma_le_of_remainder(m.disp as int, 1);
            assert(disp@ =~= bytes::le(m.disp as int, 1));
        }
    } else {
        if m.disp < i32::MIN as i64 || m.disp > i32::MAX as i64 {
            return Err(message_hex("deslocamento fora do alcance: ", m.disp));
        }
        mode = 2;
        bytes::push_le(&mut disp, bytes::as_unsigned(m.disp), 4);
        proof {
            bytes::lemma_le_of_remainder(m.disp as int, 4);
            assert(disp@ =~= bytes::le(m.disp as int, 4));
        }
    }
    if m.index.is_some() || base == 4 {
        let (field, x): (u8, u8) = match m.index {
            Some(i) => {
                if i == 4 {
                    return Err("rsp/esp nao pode ser registrador de indice".to_owned());
                }
                (i % 8, (i / 8) % 2)
            },
            None => (4, 0),
        };
        let scale: u8 = if m.scale == 1 {
            0
        } else if m.scale == 2 {
            1
        } else if m.scale == 4 {
            2
        } else if m.scale == 8 {
            3
        } else {
            return Err(message_decimal("escala invalida: ", m.scale as u64));
        };
        let sib: u8 = 64 * scale + 8 * field + base;
        Ok((Some(sib), disp, x, b, mode, 4))
    } else {
        Ok((None, disp, 0, b, mode, base))
    }
}

/// Appends an optional byte.
fn push_maybe(b: Option<u8>, out: &mut Vec<u8>)
    ensures
        final(out)@ == old(out)@ + maybe(b),
{
    match b {
        Some(x) => {
            out.push(x);
        },
        None => {},
    }
    proof {
        assert(out@ =~= old(out)@ + maybe(b));
    }
}

/// Appends REX prefix, opcode bytes, ModRM byte, SIB byte and displacement.
fn emit_modrm(w: bool, reg: u8, rm: &Rm, opcode: &[u8], out: &mut Vec<u8>) -> (r: Result<
    (),
    String,
>)
    ensures
        match r {
            Ok(_) => match modrm(w, reg as int, *rm, opcode@) {
                Ok(b) => final(out)@ == old(out)@ + b,
                Err(_) => false,
            },
            Err(e) => modrm(w, reg as int, *rm, opcode@) == Err::<Seq<u8>, Seq<char>>(e@)
                && final(out)@ == old(out)@,
        },
{
    let ghost before = out@;
    match rm {
        Rm::Reg(n) => {
            push_rex(w, reg / 8, 0, *n / 8, out);
            bytes::push_bytes(out, opcode);
            out.push(192 + 8 * (reg % 8) + *n % 8);
            proof {
                let head = rex(w, (reg / 8) as int, 0, (*n / 8) as int);
                let last = fields(3, (reg % 8) as int, (*n % 8) as int);
                assert(out@ =~= before + (head + opcode@ + seq![last]));
            }
        },
        Rm::Mem(m) => {
            let (sib, disp, x, b, mode, low) = match encode_mem(m) {
                Ok(t) => t,
                Err(e) => {
                    return Err(e);
                },
            };
            push_rex(w, reg / 8, x, b, out);
            bytes::push_bytes(out, opcode);
            out.push(64 * mode + 8 * (reg % 8) + low);
            push_maybe(sib, out);
            bytes::push_bytes(out, &disp);
            proof {
                let head = rex(w, (reg / 8) as int, x as int, b as int);
                let last = fields(mode as int, (reg % 8) as int, low as int);
                assert(out@ =~= before + (head + opcode@ + seq![last] + maybe(sib) + disp@));
            }
        },
    }
    Ok(())
}

/// Appends a one-byte instruction with its ModRM byte.
fn emit_rm(w: bool, reg: u8, rm: &Rm, opcode: u8, out: &mut Vec<u8>) -> (r: Result<(), String>)
    ensures
        match r {
            Ok(_) => match modrm(w, reg as int, *rm, seq![opcode]) {
                Ok(b) => final(out)@ == old(out)@ + b,
                Err(_) => false,
            },
            Err(e) => modrm(w, reg as int, *rm, seq![opcode]) == Err::<Seq<u8>, Seq<char>>(e@)
                && final(out)@ == old(out)@,
        },
{
    let mut code: Vec<u8> = Vec::new();
    code.push(opcode);
    proof {
        assert(code@ =~= seq![opcode]);
    }
    emit_modrm(w, reg, rm, &code, out)
}

/// Appends a two-byte instruction: prefix, REX prefix, 0F, opcode and ModRM
/// byte. The prefix stands before the REX prefix.
fn emit_sse(prefix: Option<u8>, w: bool, opcode: u8, reg: u8, rm: &Rm, out: &mut Vec<u8>) -> (r:
    Result<(), String>)
    ensures
        match r {
            Ok(_) => match modrm(w, reg as int, *rm, seq![0x0F, opcode]) {
                Ok(b) => final(out)@ == old(out)@ + (maybe(prefix) + b),
                Err(_) => false,
            },
            Err(e) => modrm(w, reg as int, *rm, seq![0x0F, opcode]) == Err::<Seq<u8>, Seq<char>>(
                e@,
            ),
        },
{
    let ghost before = out@;
    push_maybe(prefix, out);
    let mut code: Vec<u8> = Vec::new();
    code.push(0x0F);
    code.push(opcode);
    proof {
        assert(code@ =~= seq![0x0F, opcode]);
    }
    let r: Result<(), String> = emit_modrm(w, reg, rm, &code, out);
    proof {
        if let Ok(b) = modrm(w, reg as int, *rm, seq![0x0F, opcode]) {
            assert(before + maybe(prefix) + b =~= before + (maybe(prefix) + b));
        }
    }
    r
}

/// Appends an immediate of `width` bytes, if it fits.
fn append_imm(imm: i64, width: u8, out: &mut Vec<u8>) -> (r: Result<(), String>)
    ensures
        match r {
            Ok(_) => match immediate(imm as int, width as int) {
                Ok(b) => final(out)@ == old(out)@ + b,
                Err(_) => false,
            },
            Err(e) => immediate(imm as int, width as int) == Err::<Seq<u8>, Seq<char>>(e@),
        },
{
    if width == 0 {
        proof {
            assert(out@ =~= old(out)@ + Seq::<u8>::empty());
        }
    } else if width == 1 {
        if imm < i8::MIN as i64 || imm > u8::MAX as i64 {
            let mut e: String = message_hex("imediato ", imm);
            e.append(" nao cabe em 8 bits");
            return Err(e);
        }
        proof {
            bytes::lemma_le_of_remainder(imm as int, 1);
        }
        bytes::push_le(out, bytes::as_unsigned(imm), 1);
    } else if width == 4 {
        if imm < i32::MIN as i64 || imm > u32::MAX as i64 {
            let mut e: String = message_hex("imediato ", imm);
            e.append(" nao cabe em 32 bits");
            return Err(e);
        }
        proof {
            bytes::lemma_le_of_remainder(imm as int, 4);
        }
        bytes::push_le(out, bytes::as_unsigned(imm), 4);
    } else if width == 8 {
        proof {
            bytes::lemma_le_of_remainder(imm as int, 8);
        }
        bytes::push_le(out, bytes::as_unsigned(imm), 8);
    } else {
        return Err(message_decimal("largura de imediato invalida: ", width as u64));
    }
    Ok(())
}

impl Insn {
    /// The text of the immediate that is to be resolved, if there is one.
    pub fn imm_text(&self) -> (r: Option<&str>)
        ensures
            match r {
                Some(s) => self.model().imm == Some(s@),
                None => self.model().imm is None,
            },
    {
        match &self.imm {
            Some(s) => Some(s.as_str()),
            None => None,
        }
    }

    /// The size in bytes, which the value of the immediate does not change.
    pub fn size(&self) -> (r: usize)
        ensures
            r == length(self.repr),
            forall|imm: int| #[trigger]
                encoded(self.repr, imm) matches Ok(b) ==> b.len() == r,
    {
        proof {
            reveal(length);
            assert forall|imm: int| #[trigger] encoded(self.repr, imm) is Ok implies encoded(
                self.repr,
                0,
            ) is Ok && encoded(self.repr, imm)->Ok_0.len() == encoded(
                self.repr,
                0,
            )->Ok_0.len() by {
                lemma_size_fixed(self.repr, imm);
            }
        }
        match self.build(0) {
            Ok(v) => v.len(),
            Err(_) => 0,
        }
    }

    /// Assembles the bytes, given the value of the immediate.
    pub fn build(&self, imm: i64) -> (r: Result<Vec<u8>, String>)
        ensures
            bytes_result(r) == encoded(self.repr, imm as int),
    {
        let mut out: Vec<u8> = Vec::new();
        match &self.repr {
            Repr::RmR { opcode, w, reg, rm } => {
                match emit_rm(*w, *reg, rm, *opcode, &mut out) {
                    Ok(_) => {},
                    Err(e) => {
                        return Err(e);
                    },
                }
                proof {
                    assert(Seq::<u8>::empty() + modrm(*w, *reg as int, *rm, seq![*opcode])->Ok_0
                        =~= modrm(*w, *reg as int, *rm, seq![*opcode])->Ok_0);
                }
            },
            Repr::RmI { opcode, digit, w, rm, imm_width } => {
                match emit_rm(*w, *digit, rm, *opcode, &mut out) {
                    Ok(_) => {},
                    Err(e) => {
                        return Err(e);
                    },
                }
                proof {
                    assert(out@ =~= modrm(*w, *digit as int, *rm, seq![*opcode])->Ok_0);
                }
                match append_imm(imm, *imm_width, &mut out) {
                    Ok(_) => {},
                    Err(e) => {
                        return Err(e);
                    },
                }
            },
            Repr::MovRI { reg } => {
                push_rex(reg.size == 8, 0, 0, reg.num / 8, &mut out);
                out.push(0xB8 + reg.num % 8);
                proof {
                    assert(out@ =~= rex(reg.size == 8, 0, 0, (reg.num / 8) as int) + seq![
                        (0xB8 + reg.num % 8) as u8,
                    ]);
                }
                let width: u8 = if reg.size == 8 {
                    8
                } else {
                    4
                };
                match append_imm(imm, width, &mut out) {
                    Ok(_) => {},
                    Err(e) => {
                        return Err(e);
                    },
                }
            },
            Repr::Sse { prefix, opcode, w, reg, rm } => {
                match emit_sse(*prefix, *w, *opcode, *reg, rm, &mut out) {
                    Ok(_) => {},
                    Err(e) => {
                        return Err(e);
                    },
                }
                proof {
                    let tail = maybe(*prefix) + modrm(
                        *w,
                        *reg as int,
                        *rm,
                        seq![0x0F, *opcode],
                    )->Ok_0;
                    assert(Seq::<u8>::empty() + tail =~= tail);
                }
            },
            Repr::LowByte { opcode, w, reg, num } => {
                let wide: u8 = if *w {
                    8
                } else {
                    0
                };
                if *num >= 4 {
                    out.push(0x40 + wide + 4 * ((*reg / 8) % 2) + (*num / 8) % 2);
                } else {
                    push_rex(*w, *reg / 8, 0, 0, &mut out);
                }
                out.push(0x0F);
                out.push(*opcode);
                out.push(192 + 8 * (*reg % 8) + *num % 8);
                proof {
                    assert(out@ =~= encoded(self.repr, imm as int)->Ok_0);
                }
            },
            Repr::Push { num } => {
                if *num >= 8 {
                    out.push(0x41);
                }
                out.push(0x50 + *num % 8);
                proof {
                    assert(out@ =~= encoded(self.repr, imm as int)->Ok_0);
                }
            },
            Repr::Pop { num } => {
                if *num >= 8 {
                    out.push(0x41);
                }
                out.push(0x58 + *num % 8);
                proof {
                    assert(out@ =~= encoded(self.repr, imm as int)->Ok_0);
                }
            },
            Repr::Ret => {
                out.push(0xC3);
                proof {
                    assert(out@ =~= seq![0xC3u8]);
                }
            },
        }
        Ok(out)
    }
}

/// The size of an instruction does not depend on the value of its immediate:
/// where an immediate can be encoded, zero can be too, in as many bytes.
pub proof fn lemma_size_fixed(repr: Repr, imm: int)
    requires
        encoded(repr, imm) is Ok,
    ensures
        encoded(repr, 0) is Ok,
        encoded(repr, 0)->Ok_0.len() == encoded(repr, imm)->Ok_0.len(),
        encoded(repr, imm)->Ok_0.len() == length(repr),
{
    reveal(length);
    bytes::lemma_le_len(imm, 1);
    bytes::lemma_le_len(imm, 4);
    bytes::lemma_le_len(imm, 8);
    bytes::lemma_le_len(0, 1);
    bytes::lemma_le_len(0, 4);
    bytes::lemma_le_len(0, 8);
}

/// The fields of a byte of three fields can be read back.
proof fn lemma_fields(a: int, b: int, c: int)
    requires
        0 <= a < 4,
        0 <= b < 8,
        0 <= c < 8,
    ensures
        fields(a, b, c) / 64 == a,
        (fields(a, b, c) / 8) % 8 == b,
        fields(a, b, c) % 8 == c,
{
}

/// Two memory operands on registers 0 to 15 with the same encoding are the
/// same operand; a scale counts only where there is an index.
pub proof fn lemma_address_injective(m: Mem, n: Mem)
    requires
        m.base < 16,
        n.base < 16,
        m.index matches Some(i) ==> i < 16,
        n.index matches Some(i) ==> i < 16,
        address(m) is Ok,
        address(m) == address(n),
    ensures
        m.base == n.base,
        m.index == n.index,
        m.index is Some ==> m.scale == n.scale,
        m.disp == n.disp,
{
    let a = address(m)->Ok_0;
    let dm = displacement(m)->Ok_0;
    let dn = displacement(n)->Ok_0;
    if a.sib is Some {
        let sm = scale_field(m.scale)->0;
        let sn = scale_field(n.scale)->0;
        let fm = if m.index is Some {
            (m.index->0 % 8) as int
        } else {
            4
        };
        let fnn = if n.index is Some {
            (n.index->0 % 8) as int
        } else {
            4
        };
        lemma_fields(sm, fm, (m.base % 8) as int);
        lemma_fields(sn, fnn, (n.base % 8) as int);
    }
    assert(m.base == n.base);
    bytes::lemma_256_to_8();
    bytes::lemma_le_len(m.disp as int, 1);
    bytes::lemma_le_len(m.disp as int, 4);
    bytes::lemma_le_len(n.disp as int, 1);
    bytes::lemma_le_len(n.disp as int, 4);
    if a.mode == 1 {
        bytes::lemma_le_injective(m.disp as int, n.disp as int, 1);
    } else if a.mode == 2 {
        bytes::lemma_le_injective(m.disp as int, n.disp as int, 4);
    }
}

// ---------------------------------------------------------------------------
// Reading
// ---------------------------------------------------------------------------
/// What follows a prefix, if the text starts with it up to ASCII case.
pub open spec fn after_prefix(s: Seq<char>, prefix: Seq<char>) -> Option<Seq<char>> {
    if s.len() >= prefix.len() && text::same_ignoring_case(s.take(prefix.len() as int), prefix) {
        Some(s.skip(prefix.len() as int))
    } else {
        None
    }
}

/// The value of a number without sign and float prefix.
pub open spec fn plain_number(t: Seq<char>) -> Option<int> {
    if t.len() > 0 && t[0] == '#' {
        text::signed(t.skip(1), 10)
    } else if t.len() > 1 && t[0] == '0' && (t[1] == 'x' || t[1] == 'X') {
        text::signed(t.skip(2), 16)
    } else if t.len() > 0 && t[0] == '$' {
        text::signed(t.skip(1), 16)
    } else {
        text::signed(t, 16)
    }
}

/// The value of a number: `(float)N` and `(double)N` are the bit patterns of
/// single and double precision, `#N` is decimal, `$N`, `0xN` and `N` are
/// hexadecimal.
pub open spec fn number_value(s: Seq<char>) -> Option<int> {
    let t = text::trimmed(s);
    match after_prefix(t, "(float)"@) {
        Some(inner) => ieee::pattern(text::trimmed(inner), ieee::Format::Single),
        None => match after_prefix(t, "(double)"@) {
            Some(inner) => match ieee::pattern(text::trimmed(inner), ieee::Format::Double) {
                Some(b) => Some(bytes::wrapped(b)),
                None => None,
            },
            None => if t.len() > 0 && t[0] == '-' {
                match plain_number(t.skip(1)) {
                    Some(v) => Some(bytes::wrapped(-v)),
                    None => None,
                }
            } else {
                plain_number(t)
            },
        },
    }
}

/// What follows a prefix, if the text starts with it up to ASCII case.
fn strip_ci<'a>(s: &'a [char], prefix: &str) -> (r: Option<&'a [char]>)
    ensures
        match r {
            Some(t) => after_prefix(s@, prefix@) == Some(t@),
            None => after_prefix(s@, prefix@) is None,
        },
{
    let p: Vec<char> = text::chars_of(prefix);
    if s.len() >= p.len() && text::same_any_case(text::up_to(s, p.len()), &p) {
        Some(text::from_index(s, p.len()))
    } else {
        None
    }
}

/// Reads a number without sign and float prefix.
fn parse_plain(t: &[char]) -> (r: Option<i64>)
    ensures
        match r {
            Some(v) => plain_number(t@) == Some(v as int),
            None => plain_number(t@) is None,
        },
{
    if t.len() > 0 && t[0] == '#' {
        text::parse_signed(text::from_index(t, 1), 10)
    } else if t.len() > 1 && t[0] == '0' && (t[1] == 'x' || t[1] == 'X') {
        text::parse_signed(text::from_index(t, 2), 16)
    } else if t.len() > 0 && t[0] == '$' {
        text::parse_signed(text::from_index(t, 1), 16)
    } else {
        text::parse_signed(t, 16)
    }
}

/// Reads a number.
fn parse_number(tok: &[char]) -> (r: Option<i64>)
    ensures
        match r {
            Some(v) => number_value(tok@) == Some(v as int),
            None => number_value(tok@) is None,
        },
{
    let t: &[char] = text::trim(tok);
    match strip_ci(t, "(float)") {
        Some(inner) => {
            return match ieee::parse_pattern(text::trim(inner), ieee::Format::Single) {
                Some(b) => Some(b as i64),
                None => None,
            };
        },
        None => {},
    }
    match strip_ci(t, "(double)") {
        Some(inner) => {
            return match ieee::parse_pattern(text::trim(inner), ieee::Format::Double) {
                Some(b) => Some(bytes::wrap(b as i128)),
                None => None,
            };
        },
        None => {},
    }
    if t.len() > 0 && t[0] == '-' {
        match parse_plain(text::from_index(t, 1)) {
            Some(v) => Some(bytes::wrap(0 - v as i128)),
            None => None,
        }
    } else {
        parse_plain(t)
    }
}

/// Reads a number: `(float)N` and `(double)N` are the bit patterns of single
/// and double precision, `#N` is decimal, `$N`, `0xN` and `N` are hexadecimal.
pub fn parse_num(tok: &str) -> (r: Option<i64>)
    ensures
        match r {
            Some(v) => number_value(tok@) == Some(v as int),
            None => number_value(tok@) is None,
        },
{
    let t: Vec<char> = text::chars_of(tok);
    parse_number(&t)
}

/// The number of a 64-bit register.
pub open spec fn wide_register(t: Seq<char>) -> Option<u8> {
    if t == "rax"@ {
        Some(0)
    } else if t == "rcx"@ {
        Some(1)
    } else if t == "rdx"@ {
        Some(2)
    } else if t == "rbx"@ {
        Some(3)
    } else if t == "rsp"@ {
        Some(4)
    } else if t == "rbp"@ {
        Some(5)
    } else if t == "rsi"@ {
        Some(6)
    } else if t == "rdi"@ {
        Some(7)
    } else if t == "r8"@ {
        Some(8)
    } else if t == "r9"@ {
        Some(9)
    } else if t == "r10"@ {
        Some(10)
    } else if t == "r11"@ {
        Some(11)
    } else if t == "r12"@ {
        Some(12)
    } else if t == "r13"@ {
        Some(13)
    } else if t == "r14"@ {
        Some(14)
    } else if t == "r15"@ {
        Some(15)
    } else {
        None
    }
}

/// The number of a 32-bit register.
pub open spec fn narrow_register(t: Seq<char>) -> Option<u8> {
    if t == "eax"@ {
        Some(0)
    } else if t == "ecx"@ {
        Some(1)
    } else if t == "edx"@ {
        Some(2)
    } else if t == "ebx"@ {
        Some(3)
    } else if t == "esp"@ {
        Some(4)
    } else if t == "ebp"@ {
        Some(5)
    } else if t == "esi"@ {
        Some(6)
    } else if t == "edi"@ {
        Some(7)
    } else if t == "r8d"@ {
        Some(8)
    } else if t == "r9d"@ {
        Some(9)
    } else if t == "r10d"@ {
        Some(10)
    } else if t == "r11d"@ {
        Some(11)
    } else if t == "r12d"@ {
        Some(12)
    } else if t == "r13d"@ {
        Some(13)
    } else if t == "r14d"@ {
        Some(14)
    } else if t == "r15d"@ {
        Some(15)
    } else {
        None
    }
}

/// The register that a text names, in any case and with space around it.
pub open spec fn register(s: Seq<char>) -> Option<GReg> {
    let t = text::lowered(text::trimmed(s));
    match wide_register(t) {
        Some(num) => Some(GReg { num, size: 8 }),
        None => match narrow_register(t) {
            Some(num) => Some(GReg { num, size: 4 }),
            None => None,
        },
    }
}

/// The number of the register `xmm0` to `xmm15` that a text names.
pub open spec fn xmm_register(s: Seq<char>) -> Option<int> {
    let t = text::lowered(text::trimmed(s));
    if t.len() >= 3 && t.take(3) == "xmm"@ {
        text::unsigned(t.skip(3), 10, 15)
    } else {
        None
    }
}

/// The bytes that a size keyword stands for.
pub open spec fn keyword_size(s: Seq<char>) -> Option<u8> {
    let t = text::lowered(s);
    if t == "byte"@ {
        Some(1)
    } else if t == "word"@ {
        Some(2)
    } else if t == "dword"@ {
        Some(4)
    } else if t == "qword"@ {
        Some(8)
    } else {
        None
    }
}

/// Finds the number of a 64-bit register.
fn wide(t: &[char]) -> (r: Option<u8>)
    ensures
        r == wide_register(t@),
{
    if text::is_text(t, "rax") {
        Some(0)
    } else if text::is_text(t, "rcx") {
        Some(1)
    } else if text::is_text(t, "rdx") {
        Some(2)
    } else if text::is_text(t, "rbx") {
        Some(3)
    } else if text::is_text(t, "rsp") {
        Some(4)
    } else if text::is_text(t, "rbp") {
        Some(5)
    } else if text::is_text(t, "rsi") {
        Some(6)
    } else if text::is_text(t, "rdi") {
        Some(7)
    } else if text::is_text(t, "r8") {
        Some(8)
    } else if text::is_text(t, "r9") {
        Some(9)
    } else if text::is_text(t, "r10") {
        Some(10)
    } else if text::is_text(t, "r11") {
        Some(11)
    } else if text::is_text(t, "r12") {
        Some(12)
    } else if text::is_text(t, "r13") {
        Some(13)
    } else if text::is_text(t, "r14") {
        Some(14)
    } else if text::is_text(t, "r15") {
        Some(15)
    } else {
        None
    }
}

/// Finds the number of a 32-bit register.
fn narrow(t: &[char]) -> (r: Option<u8>)
    ensures
        r == narrow_register(t@),
{
    if text::is_text(t, "eax") {
        Some(0)
    } else if text::is_text(t, "ecx") {
        Some(1)
    } else if text::is_text(t, "edx") {
        Some(2)
    } else if text::is_text(t, "ebx") {
        Some(3)
    } else if text::is_text(t, "esp") {
        Some(4)
    } else if text::is_text(t, "ebp") {
        Some(5)
    } else if text::is_text(t, "esi") {
        Some(6)
    } else if text::is_text(t, "edi") {
        Some(7)
    } else if text::is_text(t, "r8d") {
        Some(8)
    } else if text::is_text(t, "r9d") {
        Some(9)
    } else if text::is_text(t, "r10d") {
        Some(10)
    } else if text::is_text(t, "r11d") {
        Some(11)
    } else if text::is_text(t, "r12d") {
        Some(12)
    } else if text::is_text(t, "r13d") {
        Some(13)
    } else if text::is_text(t, "r14d") {
        Some(14)
    } else if text::is_text(t, "r15d") {
        Some(15)
    } else {
        None
    }
}

/// Reads a general-purpose register.
fn parse_reg(tok: &[char]) -> (r: Option<GReg>)
    ensures
        r == register(tok@),
{
    let t: Vec<char> = text::lowercase(text::trim(tok));
    match wide(&t) {
        Some(num) => Some(GReg { num, size: 8 }),
        None => match narrow(&t) {
            Some(num) => Some(GReg { num, size: 4 }),
            None => None,
        },
    }
}

/// Reads a register `xmm0` to `xmm15`.
fn parse_xmm(tok: &[char]) -> (r: Option<u8>)
    ensures
        match r {
            Some(n) => xmm_register(tok@) == Some(n as int),
            None => xmm_register(tok@) is None,
        },
{
    let t: Vec<char> = text::lowercase(text::trim(tok));
    if t.len() >= 3 && text::is_text(text::up_to(&t, 3), "xmm") {
        match text::parse_unsigned(text::from_index(&t, 3), 10, 15) {
            Some(n) => Some(n as u8),
            None => None,
        }
    } else {
        None
    }
}

/// Reads a size keyword.
fn size_keyword(tok: &[char]) -> (r: Option<u8>)
    ensures
        r == keyword_size(tok@),
{
    let low: Vec<char> = text::lowercase(tok);
    let t: &[char] = &low;
    if text::is_text(t, "byte") {
        Some(1)
    } else if text::is_text(t, "word") {
        Some(2)
    } else if text::is_text(t, "dword") {
        Some(4)
    } else if text::is_text(t, "qword") {
        Some(8)
    } else {
        None
    }
}

/// What has been read of a memory operand.
pub struct Parts {
    pub base: Option<u8>,
    pub index: Option<u8>,
    pub scale: u8,
    pub disp: i64,
}

/// A message about a term.
pub open spec fn about(head: Seq<char>, term: Seq<char>) -> Seq<char> {
    head + term + "'"@
}

/// Adds one term of a memory operand: `reg*scale` or `scale*reg` is the index
/// with a scale of 1, 2, 4 or 8, the first register is the base and a later one the index, numbers add up to
/// the displacement.
pub open spec fn with_term(p: Parts, first: bool, term: Seq<char>) -> Result<Parts, Seq<char>> {
    if term.len() == 0 {
        Ok(p)
    } else {
        match text::cut(term, text::Class::Is('*')) {
            Some((a, b)) => {
                let (reg, scale) = if register(a) is Some {
                    (a, b)
                } else {
                    (b, a)
                };
                match register(reg) {
                    None => Err(about("indice invalido: '"@, term)),
                    Some(r) => match number_value(scale) {
                        None => Err(about("escala invalida: '"@, term)),
                        Some(n) => if n == 1 || n == 2 || n == 4 || n == 8 {
                            Ok(Parts { scale: n as u8, index: Some(r.num), ..p })
                        } else {
                            Err(about("escala invalida: '"@, term))
                        },
                    },
                }
            },
            None => match register(term) {
                Some(r) => if first || p.base is None {
                    Ok(Parts { base: Some(r.num), ..p })
                } else {
                    Ok(Parts { index: Some(r.num), ..p })
                },
                None => match number_value(term) {
                    Some(n) => Ok(Parts { disp: bytes::wrapped(p.disp + n) as i64, ..p }),
                    None => Err(about("termo de memoria invalido: '"@, term)),
                },
            },
        }
    }
}

/// The first `n` terms of a memory operand.
pub open spec fn terms_read(terms: Seq<Seq<char>>, n: int) -> Result<Parts, Seq<char>>
    decreases n,
{
    if n <= 0 {
        Ok(Parts { base: None, index: None, scale: 1, disp: 0 })
    } else {
        match terms_read(terms, n - 1) {
            Ok(p) => with_term(p, n == 1, terms[n - 1]),
            Err(e) => Err(e),
        }
    }
}

/// A memory operand without its brackets and spaces.
pub open spec fn unbracketed(s: Seq<char>) -> Seq<char> {
    text::without_space(
        text::trimmed_end(
            text::trimmed_start(text::trimmed(s), text::Class::Is('[')),
            text::Class::Is(']'),
        ),
    )
}

/// The terms of a memory operand, each with its sign.
pub open spec fn memory_terms(s: Seq<char>) -> Seq<Seq<char>> {
    text::pieces(
        text::trimmed_start(text::replaced(s, "-"@, "+-"@), text::Class::Is('+')),
        '+',
    )
}

/// The memory operand that a text stands for.
pub open spec fn memory(s: Seq<char>) -> Result<Mem, Seq<char>> {
    let inner = unbracketed(s);
    if inner.len() == 0 {
        Err("operando de memoria vazio"@)
    } else {
        match terms_read(memory_terms(inner), memory_terms(inner).len() as int) {
            Err(e) => Err(e),
            Ok(p) => match p.base {
                None => Err("operando de memoria sem registrador base"@),
                Some(base) => Ok(Mem { base, index: p.index, scale: p.scale, disp: p.disp }),
            },
        }
    }
}

/// Builds a message about a term.
fn message_about(head: &str, term: &[char]) -> (r: String)
    ensures
        r@ == about(head@, term@),
{
    let mut r: String = head.to_owned();
    text::append_chars(&mut r, term);
    r.append("'");
    r
}

/// The value of a result that may be a message.
pub open spec fn said<T>(r: Result<T, String>) -> Result<T, Seq<char>> {
    match r {
        Ok(v) => Ok(v),
        Err(e) => Err(e@),
    }
}

/// Reads one term of a memory operand.
fn parse_term(p: Parts, first: bool, term: &[char]) -> (r: Result<Parts, String>)
    ensures
        said(r) == with_term(p, first, term@),
{
    if term.len() == 0 {
        return Ok(p);
    }
    match text::split_once(term, text::Class::Is('*')) {
        Some((a, b)) => {
            let (reg, scale): (&[char], &[char]) = if parse_reg(a).is_some() {
                (a, b)
            } else {
                (b, a)
            };
            match parse_reg(reg) {
                None => Err(message_about("indice invalido: '", term)),
                Some(r) => match parse_number(scale) {
                    None => Err(message_about("escala invalida: '", term)),
                    Some(n) => if n == 1 || n == 2 || n == 4 || n == 8 {
                        let scale: u8 = n as u8;
                        Ok(Parts { base: p.base, index: Some(r.num), scale, disp: p.disp })
                    } else {
                        Err(message_about("escala invalida: '", term))
                    },
                },
            }
        },
        None => match parse_reg(term) {
            Some(r) => if first || p.base.is_none() {
                Ok(Parts { base: Some(r.num), index: p.index, scale: p.scale, disp: p.disp })
            } else {
                Ok(Parts { base: p.base, index: Some(r.num), scale: p.scale, disp: p.disp })
            },
            None => match parse_number(term) {
                Some(n) => {
                    let disp: i64 = bytes::wrap(p.disp as i128 + n as i128);
                    Ok(Parts { base: p.base, index: p.index, scale: p.scale, disp })
                },
                None => Err(message_about("termo de memoria invalido: '", term)),
            },
        },
    }
}

/// Reads a memory operand.
fn parse_mem(inner: &[char]) -> (r: Result<Mem, String>)
    ensures
        said(r) == memory(inner@),
{
    let bare: Vec<char> = text::remove_space(
        text::trim_end(
            text::trim_start(text::trim(inner), text::Class::Is('[')),
            text::Class::Is(']'),
        ),
    );
    if bare.len() == 0 {
        return Err("operando de memoria vazio".to_owned());
    }
    let minus: Vec<char> = text::chars_of("-");
    let plus_minus: Vec<char> = text::chars_of("+-");
    proof {
        reveal_strlit("-");
    }
    let signed: Vec<char> = text::replace(&bare, &minus, &plus_minus);
    let terms: Vec<&[char]> = text::split(text::trim_start(&signed, text::Class::Is('+')), '+');
    let ghost all = memory_terms(bare@);
    let mut p: Parts = Parts { base: None, index: None, scale: 1, disp: 0 };
    let n: usize = terms.len();
    let mut i: usize = 0;
    while i < n
        invariant
            n == terms@.len(),
            i <= n,
            text::views(terms@) == all,
            terms_read(all, i as int) == Ok::<Parts, Seq<char>>(p),
            bare@ == unbracketed(inner@),
            bare@.len() > 0,
            all == memory_terms(bare@),
        decreases n - i,
    {
        assert(all[i as int] == terms@[i as int]@);
        match parse_term(p, i == 0, terms[i]) {
            Ok(q) => {
                p = q;
            },
            Err(e) => {
                proof {
                    lemma_terms_error(all, i + 1, n as int);
                }
                return Err(e);
            },
        }
        i = i + 1;
    }
    match p.base {
        None => Err("operando de memoria sem registrador base".to_owned()),
        Some(base) => Ok(Mem { base, index: p.index, scale: p.scale, disp: p.disp }),
    }
}

/// The first error in the terms is the error of the whole.
proof fn lemma_terms_error(terms: Seq<Seq<char>>, i: int, n: int)
    requires
        0 <= i <= n,
        terms_read(terms, i) is Err,
    ensures
        terms_read(terms, n) == terms_read(terms, i),
    decreases n,
{
    if i < n {
        lemma_terms_error(terms, i, n - 1);
    }
}

/// A classified operand. A memory operand has the size of its keyword.
#[derive(Debug)]
pub enum Operand {
    Reg(GReg),
    Xmm(u8),
    Mem(Mem, Option<u8>),
    Imm(String),
}

/// The value of an operand.
pub enum OperandModel {
    Reg(GReg),
    Xmm(u8),
    Mem(Mem, Option<u8>),
    Imm(Seq<char>),
}

impl Operand {
    /// The value of the operand.
    pub open spec fn model(self) -> OperandModel {
        match self {
            Operand::Reg(r) => OperandModel::Reg(r),
            Operand::Xmm(x) => OperandModel::Xmm(x),
            Operand::Mem(m, size) => OperandModel::Mem(m, size),
            Operand::Imm(t) => OperandModel::Imm(t@),
        }
    }
}

/// The size of the keyword in front of an operand, and the operand.
pub open spec fn sized(s: Seq<char>) -> (Option<u8>, Seq<char>) {
    match text::cut(s, text::Class::Space) {
        Some((keyword, rest)) => if keyword_size(keyword) is Some {
            (keyword_size(keyword), text::trimmed(rest))
        } else {
            (None, s)
        },
        None => (None, s),
    }
}

/// The operand that a text stands for; what is no register and no memory
/// operand is an immediate.
pub open spec fn operand(s: Seq<char>) -> Result<OperandModel, Seq<char>> {
    let (size, rest) = sized(text::trimmed(s));
    if rest.len() > 0 && rest[0] == '[' {
        match memory(rest) {
            Ok(m) => Ok(OperandModel::Mem(m, size)),
            Err(e) => Err(e),
        }
    } else if xmm_register(rest) is Some {
        Ok(OperandModel::Xmm(xmm_register(rest)->0 as u8))
    } else if register(rest) is Some {
        Ok(OperandModel::Reg(register(rest)->0))
    } else {
        Ok(OperandModel::Imm(rest))
    }
}

/// The value of a read operand.
pub open spec fn operand_result(r: Result<Operand, String>) -> Result<OperandModel, Seq<char>> {
    match r {
        Ok(o) => Ok(o.model()),
        Err(e) => Err(e@),
    }
}

/// Reads an operand.
fn parse_operand(s: &[char]) -> (r: Result<Operand, String>)
    ensures
        operand_result(r) == operand(s@),
{
    let t: &[char] = text::trim(s);
    let mut size: Option<u8> = None;
    let mut rest: &[char] = t;
    match text::split_once(t, text::Class::Space) {
        Some((keyword, tail)) => {
            size = size_keyword(keyword);
            if size.is_some() {
                rest = text::trim(tail);
            }
        },
        None => {},
    }
    if rest.len() > 0 && rest[0] == '[' {
        return match parse_mem(rest) {
            Ok(m) => Ok(Operand::Mem(m, size)),
            Err(e) => Err(e),
        };
    }
    match parse_xmm(rest) {
        Some(x) => {
            return Ok(Operand::Xmm(x));
        },
        None => {},
    }
    match parse_reg(rest) {
        Some(r) => {
            return Ok(Operand::Reg(r));
        },
        None => {},
    }
    Ok(Operand::Imm(text::string_of(rest)))
}

/// The values of operands.
pub open spec fn models(v: Seq<Operand>) -> Seq<OperandModel> {
    v.map_values(|o: Operand| o.model())
}

/// The value of a list of read operands.
pub open spec fn operands_result(r: Result<Vec<Operand>, String>) -> Result<
    Seq<OperandModel>,
    Seq<char>,
> {
    match r {
        Ok(v) => Ok(models(v@)),
        Err(e) => Err(e@),
    }
}

/// The first `n` of some operands, or the first error among them.
pub open spec fn operands_read(parts: Seq<Seq<char>>, n: int) -> Result<
    Seq<OperandModel>,
    Seq<char>,
>
    decreases n,
{
    if n <= 0 {
        Ok(Seq::empty())
    } else {
        match operands_read(parts, n - 1) {
            Err(e) => Err(e),
            Ok(v) => match operand(parts[n - 1]) {
                Err(e) => Err(e),
                Ok(o) => Ok(v.push(o)),
            },
        }
    }
}

/// The operands after a mnemonic.
pub open spec fn all_operands(rest: Seq<char>) -> Result<Seq<OperandModel>, Seq<char>> {
    if rest.len() == 0 {
        Ok(Seq::empty())
    } else {
        operands_read(text::pieces(rest, ','), text::pieces(rest, ',').len() as int)
    }
}

/// The first error among operands is the error of all.
proof fn lemma_operands_error(parts: Seq<Seq<char>>, i: int, n: int)
    requires
        0 <= i <= n,
        operands_read(parts, i) is Err,
    ensures
        operands_read(parts, n) == operands_read(parts, i),
    decreases n,
{
    if i < n {
        lemma_operands_error(parts, i, n - 1);
    }
}

/// Reads the operands after a mnemonic.
fn parse_operands(rest: &[char]) -> (r: Result<Vec<Operand>, String>)
    ensures
        operands_result(r) == all_operands(rest@),
{
    let mut out: Vec<Operand> = Vec::new();
    if rest.len() == 0 {
        proof {
            assert(models(out@) =~= Seq::<OperandModel>::empty());
        }
        return Ok(out);
    }
    let parts: Vec<&[char]> = text::split(rest, ',');
    let ghost all = text::pieces(rest@, ',');
    let n: usize = parts.len();
    let mut i: usize = 0;
    proof {
        assert(models(out@) =~= Seq::<OperandModel>::empty());
    }
    while i < n
        invariant
            n == parts@.len(),
            i <= n,
            text::views(parts@) == all,
            operands_read(all, i as int) == Ok::<Seq<OperandModel>, Seq<char>>(models(out@)),
            rest@.len() > 0,
            all == text::pieces(rest@, ','),
        decreases n - i,
    {
        assert(all[i as int] == parts@[i as int]@);
        match parse_operand(parts[i]) {
            Ok(o) => {
                proof {
                    assert(models(out@.push(o)) =~= models(out@).push(o.model()));
                }
                out.push(o);
            },
            Err(e) => {
                proof {
                    lemma_operands_error(all, i + 1, n as int);
                }
                return Err(e);
            },
        }
        i = i + 1;
    }
    Ok(out)
}

// ---------------------------------------------------------------------------
// Instructions
// ---------------------------------------------------------------------------
/// The opcode of the form with the register on the right and the opcode
/// extension of the form with an immediate. The opcode of the form with the
/// register on the left is larger by two.
pub open spec fn alu_codes(mnem: Seq<char>) -> Option<(u8, u8)> {
    if mnem == "add"@ {
        Some((0x01, 0))
    } else if mnem == "or"@ {
        Some((0x09, 1))
    } else if mnem == "adc"@ {
        Some((0x11, 2))
    } else if mnem == "sbb"@ {
        Some((0x19, 3))
    } else if mnem == "and"@ {
        Some((0x21, 4))
    } else if mnem == "sub"@ {
        Some((0x29, 5))
    } else if mnem == "xor"@ {
        Some((0x31, 6))
    } else if mnem == "cmp"@ {
        Some((0x39, 7))
    } else {
        None
    }
}

/// The prefix, the opcode that loads a register and the opcode that stores one.
pub open spec fn sse_codes(mnem: Seq<char>) -> Option<(Option<u8>, u8, Option<u8>)> {
    if mnem == "movss"@ {
        Some((Some(0xF3), 0x10, Some(0x11)))
    } else if mnem == "movsd"@ {
        Some((Some(0xF2), 0x10, Some(0x11)))
    } else if mnem == "movups"@ {
        Some((None, 0x10, Some(0x11)))
    } else if mnem == "movupd"@ {
        Some((Some(0x66), 0x10, Some(0x11)))
    } else if mnem == "movaps"@ {
        Some((None, 0x28, Some(0x29)))
    } else if mnem == "movapd"@ {
        Some((Some(0x66), 0x28, Some(0x29)))
    } else if mnem == "addss"@ {
        Some((Some(0xF3), 0x58, None))
    } else if mnem == "subss"@ {
        Some((Some(0xF3), 0x5C, None))
    } else if mnem == "mulss"@ {
        Some((Some(0xF3), 0x59, None))
    } else if mnem == "divss"@ {
        Some((Some(0xF3), 0x5E, None))
    } else if mnem == "addsd"@ {
        Some((Some(0xF2), 0x58, None))
    } else if mnem == "subsd"@ {
        Some((Some(0xF2), 0x5C, None))
    } else if mnem == "mulsd"@ {
        Some((Some(0xF2), 0x59, None))
    } else if mnem == "divsd"@ {
        Some((Some(0xF2), 0x5E, None))
    } else if mnem == "addps"@ {
        Some((None, 0x58, None))
    } else if mnem == "subps"@ {
        Some((None, 0x5C, None))
    } else if mnem == "mulps"@ {
        Some((None, 0x59, None))
    } else if mnem == "divps"@ {
        Some((None, 0x5E, None))
    } else if mnem == "addpd"@ {
        Some((Some(0x66), 0x58, None))
    } else if mnem == "subpd"@ {
        Some((Some(0x66), 0x5C, None))
    } else if mnem == "mulpd"@ {
        Some((Some(0x66), 0x59, None))
    } else if mnem == "divpd"@ {
        Some((Some(0x66), 0x5E, None))
    } else if mnem == "xorps"@ {
        Some((None, 0x57, None))
    } else if mnem == "xorpd"@ {
        Some((Some(0x66), 0x57, None))
    } else if mnem == "cvtsi2ss"@ {
        Some((Some(0xF3), 0x2A, None))
    } else if mnem == "cvtsi2sd"@ {
        Some((Some(0xF2), 0x2A, None))
    } else if mnem == "cvttss2si"@ {
        Some((Some(0xF3), 0x2C, None))
    } else if mnem == "cvttsd2si"@ {
        Some((Some(0xF2), 0x2C, None))
    } else {
        None
    }
}

/// Finds the codes of an arithmetic instruction.
fn alu(mnem: &str) -> (r: Option<(u8, u8)>)
    ensures
        r == alu_codes(mnem@),
        r matches Some(c) ==> c.0 <= 0x39,
{
    if text::same_str(mnem, "add") {
        Some((0x01, 0))
    } else if text::same_str(mnem, "or") {
        Some((0x09, 1))
    } else if text::same_str(mnem, "adc") {
        Some((0x11, 2))
    } else if text::same_str(mnem, "sbb") {
        Some((0x19, 3))
    } else if text::same_str(mnem, "and") {
        Some((0x21, 4))
    } else if text::same_str(mnem, "sub") {
        Some((0x29, 5))
    } else if text::same_str(mnem, "xor") {
        Some((0x31, 6))
    } else if text::same_str(mnem, "cmp") {
        Some((0x39, 7))
    } else {
        None
    }
}

/// Finds the codes of a vector instruction.
fn sse_table(mnem: &str) -> (r: Option<(Option<u8>, u8, Option<u8>)>)
    ensures
        r == sse_codes(mnem@),
{
    if text::same_str(mnem, "movss") {
        Some((Some(0xF3), 0x10, Some(0x11)))
    } else if text::same_str(mnem, "movsd") {
        Some((Some(0xF2), 0x10, Some(0x11)))
    } else if text::same_str(mnem, "movups") {
        Some((None, 0x10, Some(0x11)))
    } else if text::same_str(mnem, "movupd") {
        Some((Some(0x66), 0x10, Some(0x11)))
    } else if text::same_str(mnem, "movaps") {
        Some((None, 0x28, Some(0x29)))
    } else if text::same_str(mnem, "movapd") {
        Some((Some(0x66), 0x28, Some(0x29)))
    } else if text::same_str(mnem, "addss") {
        Some((Some(0xF3), 0x58, None))
    } else if text::same_str(mnem, "subss") {
        Some((Some(0xF3), 0x5C, None))
    } else if text::same_str(mnem, "mulss") {
        Some((Some(0xF3), 0x59, None))
    } else if text::same_str(mnem, "divss") {
        Some((Some(0xF3), 0x5E, None))
    } else if text::same_str(mnem, "addsd") {
        Some((Some(0xF2), 0x58, None))
    } else if text::same_str(mnem, "subsd") {
        Some((Some(0xF2), 0x5C, None))
    } else if text::same_str(mnem, "mulsd") {
        Some((Some(0xF2), 0x59, None))
    } else if text::same_str(mnem, "divsd") {
        Some((Some(0xF2), 0x5E, None))
    } else if text::same_str(mnem, "addps") {
        Some((None, 0x58, None))
    } else if text::same_str(mnem, "subps") {
        Some((None, 0x5C, None))
    } else if text::same_str(mnem, "mulps") {
        Some((None, 0x59, None))
    } else if text::same_str(mnem, "divps") {
        Some((None, 0x5E, None))
    } else if text::same_str(mnem, "addpd") {
        Some((Some(0x66), 0x58, None))
    } else if text::same_str(mnem, "subpd") {
        Some((Some(0x66), 0x5C, None))
    } else if text::same_str(mnem, "mulpd") {
        Some((Some(0x66), 0x59, None))
    } else if text::same_str(mnem, "divpd") {
        Some((Some(0x66), 0x5E, None))
    } else if text::same_str(mnem, "xorps") {
        Some((None, 0x57, None))
    } else if text::same_str(mnem, "xorpd") {
        Some((Some(0x66), 0x57, None))
    } else if text::same_str(mnem, "cvtsi2ss") {
        Some((Some(0xF3), 0x2A, None))
    } else if text::same_str(mnem, "cvtsi2sd") {
        Some((Some(0xF2), 0x2A, None))
    } else if text::same_str(mnem, "cvttss2si") {
        Some((Some(0xF3), 0x2C, None))
    } else if text::same_str(mnem, "cvttsd2si") {
        Some((Some(0xF2), 0x2C, None))
    } else {
        None
    }
}

/// An instruction without an immediate.
pub open spec fn bare(repr: Repr) -> Result<InsnModel, Seq<char>> {
    Ok(InsnModel { repr, imm: None })
}

/// An instruction with an immediate.
pub open spec fn with_imm(repr: Repr, imm: Seq<char>) -> Result<InsnModel, Seq<char>> {
    Ok(InsnModel { repr, imm: Some(imm) })
}

/// The message for operands that do not go together.
pub open spec fn bad_operands(mnem: Seq<char>) -> Result<InsnModel, Seq<char>> {
    Err(mnem + ": combinacao de operandos invalida"@)
}

/// Exactly two operands.
pub open spec fn pair(ops: Result<Seq<OperandModel>, Seq<char>>, mnem: Seq<char>) -> Result<
    (OperandModel, OperandModel),
    Seq<char>,
> {
    match ops {
        Err(e) => Err(e),
        Ok(v) => if v.len() != 2 {
            Err(mnem + ": esperados 2 operandos"@)
        } else {
            Ok((v[0], v[1]))
        },
    }
}

/// Exactly one operand.
pub open spec fn single(ops: Result<Seq<OperandModel>, Seq<char>>, mnem: Seq<char>) -> Result<
    OperandModel,
    Seq<char>,
> {
    match ops {
        Err(e) => Err(e),
        Ok(v) => if v.len() != 1 {
            Err(mnem + ": esperado 1 operando"@)
        } else {
            Ok(v[0])
        },
    }
}

/// Whether a memory operand has 64 bits; without a keyword it has `default`
/// bytes.
pub open spec fn is_wide(size: Option<u8>, default: u8) -> Result<bool, Seq<char>> {
    let n = match size {
        Some(k) => k,
        None => default,
    };
    if n == 4 {
        Ok(false)
    } else if n == 8 {
        Ok(true)
    } else {
        Err(
            "tamanho de "@ + text::decimal(n as nat) + " bytes nao suportado (use dword/qword)"@,
        )
    }
}

/// An instruction on a memory operand of a given size, with an immediate.
pub open spec fn memory_imm(
    opcode: u8,
    digit: u8,
    m: Mem,
    size: Option<u8>,
    imm: Seq<char>,
) -> Result<InsnModel, Seq<char>> {
    match is_wide(size, 4) {
        Ok(w) => with_imm(Repr::RmI { opcode, digit, w, rm: Rm::Mem(m), imm_width: 4 }, imm),
        Err(e) => Err(e),
    }
}

/// An instruction on two registers of the same size.
pub open spec fn two_registers(opcode: u8, dst: GReg, src: GReg, mnem: Seq<char>) -> Result<
    InsnModel,
    Seq<char>,
> {
    if dst.size != src.size {
        Err(mnem + ": tamanhos de registrador diferentes"@)
    } else {
        bare(Repr::RmR { opcode, w: dst.size == 8, reg: src.num, rm: Rm::Reg(dst.num) })
    }
}

/// An instruction on a register and a memory operand.
pub open spec fn register_memory(opcode: u8, r: GReg, m: Mem) -> Result<InsnModel, Seq<char>> {
    bare(Repr::RmR { opcode, w: r.size == 8, reg: r.num, rm: Rm::Mem(m) })
}

/// `mov`.
pub open spec fn mov_form(ops: Result<Seq<OperandModel>, Seq<char>>) -> Result<
    InsnModel,
    Seq<char>,
> {
    match pair(ops, "mov"@) {
        Err(e) => Err(e),
        Ok((OperandModel::Reg(dst), OperandModel::Imm(t))) => with_imm(Repr::MovRI { reg: dst }, t),
        Ok((OperandModel::Reg(dst), OperandModel::Reg(src))) => two_registers(
            0x89,
            dst,
            src,
            "mov"@,
        ),
        Ok((OperandModel::Reg(dst), OperandModel::Mem(m, _))) => register_memory(0x8B, dst, m),
        Ok((OperandModel::Mem(m, _), OperandModel::Reg(src))) => register_memory(0x89, src, m),
        Ok((OperandModel::Mem(m, size), OperandModel::Imm(t))) => memory_imm(0xC7, 0, m, size, t),
        Ok(_) => bad_operands("mov"@),
    }
}

/// The arithmetic instructions.
pub open spec fn alu_form(
    mnem: Seq<char>,
    codes: (u8, u8),
    ops: Result<Seq<OperandModel>, Seq<char>>,
) -> Result<InsnModel, Seq<char>> {
    let (opcode, digit) = codes;
    match pair(ops, mnem) {
        Err(e) => Err(e),
        Ok((OperandModel::Reg(dst), OperandModel::Imm(t))) => with_imm(
            Repr::RmI {
                opcode: 0x81,
                digit,
                w: dst.size == 8,
                rm: Rm::Reg(dst.num),
                imm_width: 4,
            },
            t,
        ),
        Ok((OperandModel::Mem(m, size), OperandModel::Imm(t))) => memory_imm(
            0x81,
            digit,
            m,
            size,
            t,
        ),
        Ok((OperandModel::Reg(dst), OperandModel::Reg(src))) => two_registers(
            opcode,
            dst,
            src,
            mnem,
        ),
        Ok((OperandModel::Reg(dst), OperandModel::Mem(m, _))) => register_memory(
            (opcode + 2) as u8,
            dst,
            m,
        ),
        Ok((OperandModel::Mem(m, _), OperandModel::Reg(src))) => register_memory(opcode, src, m),
        Ok(_) => bad_operands(mnem),
    }
}

/// `test`.
pub open spec fn test_form(ops: Result<Seq<OperandModel>, Seq<char>>) -> Result<
    InsnModel,
    Seq<char>,
> {
    match pair(ops, "test"@) {
        Err(e) => Err(e),
        Ok((OperandModel::Reg(dst), OperandModel::Imm(t))) => with_imm(
            Repr::RmI {
                opcode: 0xF7,
                digit: 0,
                w: dst.size == 8,
                rm: Rm::Reg(dst.num),
                imm_width: 4,
            },
            t,
        ),
        Ok((OperandModel::Mem(m, size), OperandModel::Imm(t))) => memory_imm(0xF7, 0, m, size, t),
        Ok((OperandModel::Reg(dst), OperandModel::Reg(src))) => two_registers(
            0x85,
            dst,
            src,
            "test"@,
        ),
        Ok((OperandModel::Reg(r), OperandModel::Mem(m, _))) => register_memory(0x85, r, m),
        Ok((OperandModel::Mem(m, _), OperandModel::Reg(r))) => register_memory(0x85, r, m),
        Ok(_) => bad_operands("test"@),
    }
}

/// `lea`.
pub open spec fn lea_form(ops: Result<Seq<OperandModel>, Seq<char>>) -> Result<
    InsnModel,
    Seq<char>,
> {
    match pair(ops, "lea"@) {
        Err(e) => Err(e),
        Ok((OperandModel::Reg(dst), OperandModel::Mem(m, _))) => register_memory(0x8D, dst, m),
        Ok(_) => Err("lea: use 'lea reg, [mem]'"@),
    }
}

/// The opcode and the opcode extension of an instruction with one operand.
pub open spec fn unary_codes(mnem: Seq<char>) -> Option<(u8, u8)> {
    if mnem == "inc"@ {
        Some((0xFF, 0))
    } else if mnem == "dec"@ {
        Some((0xFF, 1))
    } else if mnem == "not"@ {
        Some((0xF7, 2))
    } else if mnem == "neg"@ {
        Some((0xF7, 3))
    } else {
        None
    }
}

/// `inc`, `dec`, `not` and `neg`.
pub open spec fn unary_form(
    mnem: Seq<char>,
    codes: (u8, u8),
    ops: Result<Seq<OperandModel>, Seq<char>>,
) -> Result<InsnModel, Seq<char>> {
    let (opcode, digit) = codes;
    match single(ops, mnem) {
        Err(e) => Err(e),
        Ok(OperandModel::Reg(r)) => bare(
            Repr::RmI { opcode, digit, w: r.size == 8, rm: Rm::Reg(r.num), imm_width: 0 },
        ),
        Ok(OperandModel::Mem(m, size)) => match is_wide(size, 4) {
            Ok(w) => bare(Repr::RmI { opcode, digit, w, rm: Rm::Mem(m), imm_width: 0 }),
            Err(e) => Err(e),
        },
        Ok(_) => Err(mnem + ": operando deve ser registrador ou memoria"@),
    }
}

/// `push` and `pop`.
pub open spec fn stack_form(mnem: Seq<char>, ops: Result<Seq<OperandModel>, Seq<char>>) -> Result<
    InsnModel,
    Seq<char>,
> {
    match single(ops, mnem) {
        Err(e) => Err(e),
        Ok(OperandModel::Reg(r)) => if r.size != 8 {
            Err(mnem + ": use um registrador de 64 bits (rax, rbx, ...)"@)
        } else if mnem == "push"@ {
            bare(Repr::Push { num: r.num })
        } else {
            bare(Repr::Pop { num: r.num })
        },
        Ok(_) => Err(mnem + ": operando deve ser um registrador"@),
    }
}

/// The vector instructions. The conversions from integers take a
/// general-purpose register or memory as source, those to integers a
/// general-purpose destination.
pub open spec fn sse_form(
    mnem: Seq<char>,
    codes: (Option<u8>, u8, Option<u8>),
    ops: Result<Seq<OperandModel>, Seq<char>>,
) -> Result<InsnModel, Seq<char>> {
    let (prefix, opcode, store) = codes;
    let from_integer = mnem == "cvtsi2ss"@ || mnem == "cvtsi2sd"@;
    let to_integer = mnem == "cvttss2si"@ || mnem == "cvttsd2si"@;
    match pair(ops, mnem) {
        Err(e) => Err(e),
        Ok((OperandModel::Xmm(d), OperandModel::Xmm(s))) => if from_integer || to_integer {
            bad_operands(mnem)
        } else {
            bare(Repr::Sse { prefix, opcode, w: false, reg: d, rm: Rm::Reg(s) })
        },
        Ok((OperandModel::Xmm(d), OperandModel::Mem(m, _))) => if to_integer {
            bad_operands(mnem)
        } else {
            bare(Repr::Sse { prefix, opcode, w: false, reg: d, rm: Rm::Mem(m) })
        },
        Ok((OperandModel::Xmm(d), OperandModel::Reg(s))) => if from_integer {
            bare(Repr::Sse { prefix, opcode, w: s.size == 8, reg: d, rm: Rm::Reg(s.num) })
        } else {
            bad_operands(mnem)
        },
        Ok((OperandModel::Reg(d), OperandModel::Xmm(s))) => if to_integer {
            bare(Repr::Sse { prefix, opcode, w: d.size == 8, reg: d.num, rm: Rm::Reg(s) })
        } else {
            bad_operands(mnem)
        },
        Ok((OperandModel::Reg(d), OperandModel::Mem(m, _))) => if to_integer {
            bare(Repr::Sse { prefix, opcode, w: d.size == 8, reg: d.num, rm: Rm::Mem(m) })
        } else {
            bad_operands(mnem)
        },
        Ok((OperandModel::Mem(m, _), OperandModel::Xmm(s))) => match store {
            Some(opcode) => bare(Repr::Sse { prefix, opcode, w: false, reg: s, rm: Rm::Mem(m) }),
            None => Err(mnem + ": nao tem forma de store em memoria"@),
        },
        Ok(_) => bad_operands(mnem),
    }
}

/// `movd` and `movq`. Between two vector registers there is `movq` alone.
pub open spec fn movdq_form(mnem: Seq<char>, ops: Result<Seq<OperandModel>, Seq<char>>) -> Result<
    InsnModel,
    Seq<char>,
> {
    let q = mnem == "movq"@;
    let prefix = Some(0x66u8);
    match pair(ops, mnem) {
        Err(e) => Err(e),
        Ok((OperandModel::Xmm(d), OperandModel::Reg(s))) => bare(
            Repr::Sse { prefix, opcode: 0x6E, w: s.size == 8, reg: d, rm: Rm::Reg(s.num) },
        ),
        Ok((OperandModel::Xmm(d), OperandModel::Mem(m, _))) => bare(
            Repr::Sse { prefix, opcode: 0x6E, w: q, reg: d, rm: Rm::Mem(m) },
        ),
        Ok((OperandModel::Reg(d), OperandModel::Xmm(s))) => bare(
            Repr::Sse { prefix, opcode: 0x7E, w: d.size == 8, reg: s, rm: Rm::Reg(d.num) },
        ),
        Ok((OperandModel::Mem(m, _), OperandModel::Xmm(s))) => bare(
            Repr::Sse { prefix, opcode: 0x7E, w: q, reg: s, rm: Rm::Mem(m) },
        ),
        Ok((OperandModel::Xmm(d), OperandModel::Xmm(s))) => if q {
            bare(
                Repr::Sse { prefix: Some(0xF3), opcode: 0x7E, w: false, reg: d, rm: Rm::Reg(s) },
            )
        } else {
            bad_operands(mnem)
        },
        Ok(_) => bad_operands(mnem),
    }
}

/// The number of the register whose lowest byte a text names.
pub open spec fn byte_register(t: Seq<char>) -> Option<u8> {
    if t == "al"@ {
        Some(0)
    } else if t == "cl"@ {
        Some(1)
    } else if t == "dl"@ {
        Some(2)
    } else if t == "bl"@ {
        Some(3)
    } else if t == "spl"@ {
        Some(4)
    } else if t == "bpl"@ {
        Some(5)
    } else if t == "sil"@ {
        Some(6)
    } else if t == "dil"@ {
        Some(7)
    } else if t == "r8b"@ {
        Some(8)
    } else if t == "r9b"@ {
        Some(9)
    } else if t == "r10b"@ {
        Some(10)
    } else if t == "r11b"@ {
        Some(11)
    } else if t == "r12b"@ {
        Some(12)
    } else if t == "r13b"@ {
        Some(13)
    } else if t == "r14b"@ {
        Some(14)
    } else if t == "r15b"@ {
        Some(15)
    } else {
        None
    }
}

/// The number of the register whose lowest two bytes a text names.
pub open spec fn word_register(t: Seq<char>) -> Option<u8> {
    if t == "ax"@ {
        Some(0)
    } else if t == "cx"@ {
        Some(1)
    } else if t == "dx"@ {
        Some(2)
    } else if t == "bx"@ {
        Some(3)
    } else if t == "sp"@ {
        Some(4)
    } else if t == "bp"@ {
        Some(5)
    } else if t == "si"@ {
        Some(6)
    } else if t == "di"@ {
        Some(7)
    } else if t == "r8w"@ {
        Some(8)
    } else if t == "r9w"@ {
        Some(9)
    } else if t == "r10w"@ {
        Some(10)
    } else if t == "r11w"@ {
        Some(11)
    } else if t == "r12w"@ {
        Some(12)
    } else if t == "r13w"@ {
        Some(13)
    } else if t == "r14w"@ {
        Some(14)
    } else if t == "r15w"@ {
        Some(15)
    } else {
        None
    }
}

/// A multiplication into a register, without an immediate.
pub open spec fn product(d: GReg, rm: Rm) -> Result<InsnModel, Seq<char>> {
    bare(Repr::Sse { prefix: None, opcode: 0xAF, w: d.size == 8, reg: d.num, rm })
}

/// A multiplication with an immediate into a register.
pub open spec fn product_imm(d: GReg, rm: Rm, t: Seq<char>) -> Result<InsnModel, Seq<char>> {
    with_imm(Repr::RmI { opcode: 0x69, digit: d.num, w: d.size == 8, rm, imm_width: 4 }, t)
}

/// `imul`: into a register, by a register or memory, by an immediate, or by
/// both; with one operand into the accumulator.
pub open spec fn imul_form(ops: Result<Seq<OperandModel>, Seq<char>>) -> Result<
    InsnModel,
    Seq<char>,
> {
    let unequal = Err::<InsnModel, Seq<char>>("imul"@ + ": tamanhos de registrador diferentes"@);
    match ops {
        Err(e) => Err(e),
        Ok(v) => if v.len() == 1 {
            unary_form("imul"@, (0xF7, 5), ops)
        } else if v.len() == 2 {
            match (v[0], v[1]) {
                (OperandModel::Reg(d), OperandModel::Reg(s)) => if d.size != s.size {
                    unequal
                } else {
                    product(d, Rm::Reg(s.num))
                },
                (OperandModel::Reg(d), OperandModel::Mem(m, _)) => product(d, Rm::Mem(m)),
                (OperandModel::Reg(d), OperandModel::Imm(t)) => product_imm(d, Rm::Reg(d.num), t),
                _ => bad_operands("imul"@),
            }
        } else if v.len() == 3 {
            match (v[0], v[1], v[2]) {
                (
                    OperandModel::Reg(d),
                    OperandModel::Reg(s),
                    OperandModel::Imm(t),
                ) => if d.size != s.size {
                    unequal
                } else {
                    product_imm(d, Rm::Reg(s.num), t)
                },
                (
                    OperandModel::Reg(d),
                    OperandModel::Mem(m, _),
                    OperandModel::Imm(t),
                ) => product_imm(d, Rm::Mem(m), t),
                _ => bad_operands("imul"@),
            }
        } else {
            Err("imul: esperados de 1 a 3 operandos"@)
        },
    }
}

/// The opcode extension of a shift.
pub open spec fn shift_digit(mnem: Seq<char>) -> Option<u8> {
    if mnem == "shl"@ || mnem == "sal"@ {
        Some(4)
    } else if mnem == "shr"@ {
        Some(5)
    } else if mnem == "sar"@ {
        Some(7)
    } else {
        None
    }
}

/// A shift by `cl` or by an immediate of one byte.
pub open spec fn shifted(digit: u8, w: bool, rm: Rm, t: Seq<char>) -> Result<InsnModel, Seq<char>> {
    if text::lowered(t) == "cl"@ {
        bare(Repr::RmI { opcode: 0xD3, digit, w, rm, imm_width: 0 })
    } else {
        with_imm(Repr::RmI { opcode: 0xC1, digit, w, rm, imm_width: 1 }, t)
    }
}

/// The shifts.
pub open spec fn shift_form(
    mnem: Seq<char>,
    digit: u8,
    ops: Result<Seq<OperandModel>, Seq<char>>,
) -> Result<InsnModel, Seq<char>> {
    match pair(ops, mnem) {
        Err(e) => Err(e),
        Ok((OperandModel::Reg(r), OperandModel::Imm(t))) => shifted(
            digit,
            r.size == 8,
            Rm::Reg(r.num),
            t,
        ),
        Ok((OperandModel::Mem(m, size), OperandModel::Imm(t))) => match is_wide(size, 4) {
            Ok(w) => shifted(digit, w, Rm::Mem(m), t),
            Err(e) => Err(e),
        },
        Ok(_) => bad_operands(mnem),
    }
}

/// A move of one or two bytes with zeros before them.
pub open spec fn extended(d: GReg, opcode: u8, rm: Rm) -> Result<InsnModel, Seq<char>> {
    bare(Repr::Sse { prefix: None, opcode, w: d.size == 8, reg: d.num, rm })
}

/// `movzx`: from a register or memory of one or two bytes.
pub open spec fn movzx_form(ops: Result<Seq<OperandModel>, Seq<char>>) -> Result<
    InsnModel,
    Seq<char>,
> {
    match pair(ops, "movzx"@) {
        Err(e) => Err(e),
        Ok((OperandModel::Reg(d), OperandModel::Imm(t))) => match byte_register(text::lowered(t)) {
            Some(num) => bare(Repr::LowByte { opcode: 0xB6, w: d.size == 8, reg: d.num, num }),
            None => match word_register(text::lowered(t)) {
                Some(num) => extended(d, 0xB7, Rm::Reg(num)),
                None => bad_operands("movzx"@),
            },
        },
        Ok((OperandModel::Reg(d), OperandModel::Mem(m, size))) => if size == Some(1u8) {
            extended(d, 0xB6, Rm::Mem(m))
        } else if size == Some(2u8) {
            extended(d, 0xB7, Rm::Mem(m))
        } else {
            Err("movzx: use byte ou word antes de [mem]"@)
        },
        Ok(_) => bad_operands("movzx"@),
    }
}

/// The mnemonic of a line, in lowercase, and the text of its operands.
pub open spec fn parted(line: Seq<char>) -> (Seq<char>, Seq<char>) {
    let t = text::trimmed(line);
    match text::cut(t, text::Class::Space) {
        Some((m, r)) => (text::lowered(m), text::trimmed(r)),
        None => (text::lowered(t), Seq::empty()),
    }
}

/// The instruction with a mnemonic and operands; `None` if the mnemonic is not
/// known.
pub open spec fn instruction(mnem: Seq<char>, ops: Result<Seq<OperandModel>, Seq<char>>) -> Option<
    Result<InsnModel, Seq<char>>,
> {
    if mnem == "ret"@ {
        Some(bare(Repr::Ret))
    } else if mnem == "mov"@ {
        Some(mov_form(ops))
    } else if mnem == "lea"@ {
        Some(lea_form(ops))
    } else if mnem == "test"@ {
        Some(test_form(ops))
    } else if mnem == "imul"@ {
        Some(imul_form(ops))
    } else if mnem == "movzx"@ {
        Some(movzx_form(ops))
    } else if shift_digit(mnem) is Some {
        Some(shift_form(mnem, shift_digit(mnem)->0, ops))
    } else if mnem == "push"@ || mnem == "pop"@ {
        Some(stack_form(mnem, ops))
    } else if unary_codes(mnem) is Some {
        Some(unary_form(mnem, unary_codes(mnem)->0, ops))
    } else if mnem == "movd"@ || mnem == "movq"@ {
        Some(movdq_form(mnem, ops))
    } else if sse_codes(mnem) is Some {
        Some(sse_form(mnem, sse_codes(mnem)->0, ops))
    } else if alu_codes(mnem) is Some {
        Some(alu_form(mnem, alu_codes(mnem)->0, ops))
    } else {
        None
    }
}

/// The instruction that a line stands for: `None` if its mnemonic is not
/// known, a message if its operands are not valid.
pub open spec fn assembled(line: Seq<char>) -> Option<Result<InsnModel, Seq<char>>> {
    let (mnem, rest) = parted(line);
    instruction(mnem, all_operands(rest))
}

/// Builds a message that starts with a mnemonic.
fn message(mnem: &str, tail: &str) -> (r: String)
    ensures
        r@ == mnem@ + tail@,
{
    let mut r: String = mnem.to_owned();
    r.append(tail);
    r
}

/// Takes exactly two operands.
fn two_ops(ops: Result<Vec<Operand>, String>, mnem: &str) -> (r: Result<
    (Operand, Operand),
    String,
>)
    ensures
        match r {
            Ok((a, b)) => pair(operands_result(ops), mnem@) == Ok::<
                (OperandModel, OperandModel),
                Seq<char>,
            >((a.model(), b.model())),
            Err(e) => pair(operands_result(ops), mnem@) == Err::<
                (OperandModel, OperandModel),
                Seq<char>,
            >(e@),
        },
{
    match ops {
        Err(e) => Err(e),
        Ok(v) => {
            let mut v: Vec<Operand> = v;
            if v.len() != 2 {
                return Err(message(mnem, ": esperados 2 operandos"));
            }
            let b: Operand = v.remove(1);
            let a: Operand = v.remove(0);
            Ok((a, b))
        },
    }
}

/// Takes exactly one operand.
fn one_op(ops: Result<Vec<Operand>, String>, mnem: &str) -> (r: Result<Operand, String>)
    ensures
        match r {
            Ok(a) => single(operands_result(ops), mnem@) == Ok::<OperandModel, Seq<char>>(
                a.model(),
            ),
            Err(e) => single(operands_result(ops), mnem@) == Err::<OperandModel, Seq<char>>(e@),
        },
{
    match ops {
        Err(e) => Err(e),
        Ok(v) => {
            let mut v: Vec<Operand> = v;
            if v.len() != 1 {
                return Err(message(mnem, ": esperado 1 operando"));
            }
            Ok(v.remove(0))
        },
    }
}

/// Decides whether a memory operand has 64 bits.
fn rm_size(opsize: Option<u8>, default: u8) -> (r: Result<bool, String>)
    ensures
        said(r) == is_wide(opsize, default),
{
    let n: u8 = match opsize {
        Some(k) => k,
        None => default,
    };
    if n == 4 {
        Ok(false)
    } else if n == 8 {
        Ok(true)
    } else {
        let mut e: String = message_decimal("tamanho de ", n as u64);
        e.append(" bytes nao suportado (use dword/qword)");
        Err(e)
    }
}

/// Refuses two registers of different sizes.
fn check_same_size(a: GReg, b: GReg, mnem: &str) -> (r: Result<(), String>)
    ensures
        said(r) == (if a.size != b.size {
            Err::<(), Seq<char>>(mnem@ + ": tamanhos de registrador diferentes"@)
        } else {
            Ok(())
        }),
{
    if a.size != b.size {
        return Err(message(mnem, ": tamanhos de registrador diferentes"));
    }
    Ok(())
}

/// Makes an instruction without an immediate.
fn plain(repr: Repr) -> (r: Result<Insn, String>)
    ensures
        insn_result(r) == bare(repr),
{
    Ok(Insn { repr, imm: None })
}

/// Makes an instruction with an immediate.
fn immediate_insn(repr: Repr, t: String) -> (r: Result<Insn, String>)
    ensures
        insn_result(r) == with_imm(repr, t@),
{
    Ok(Insn { repr, imm: Some(t) })
}

/// Makes an instruction on a memory operand with an immediate.
fn memory_immediate(opcode: u8, digit: u8, m: Mem, size: Option<u8>, t: String) -> (r: Result<
    Insn,
    String,
>)
    ensures
        insn_result(r) == memory_imm(opcode, digit, m, size, t@),
{
    match rm_size(size, 4) {
        Ok(w) => immediate_insn(Repr::RmI { opcode, digit, w, rm: Rm::Mem(m), imm_width: 4 }, t),
        Err(e) => Err(e),
    }
}

/// Makes an instruction on two registers.
fn both_registers(opcode: u8, dst: GReg, src: GReg, mnem: &str) -> (r: Result<Insn, String>)
    ensures
        insn_result(r) == two_registers(opcode, dst, src, mnem@),
{
    match check_same_size(dst, src, mnem) {
        Ok(_) => plain(
            Repr::RmR { opcode, w: dst.size == 8, reg: src.num, rm: Rm::Reg(dst.num) },
        ),
        Err(e) => Err(e),
    }
}

/// Makes an instruction on a register and a memory operand.
fn register_with_memory(opcode: u8, r: GReg, m: Mem) -> (res: Result<Insn, String>)
    ensures
        insn_result(res) == register_memory(opcode, r, m),
{
    plain(Repr::RmR { opcode, w: r.size == 8, reg: r.num, rm: Rm::Mem(m) })
}

/// Refuses operands that do not go together.
fn refuse(mnem: &str) -> (r: Result<Insn, String>)
    ensures
        insn_result(r) == bad_operands(mnem@),
{
    Err(message(mnem, ": combinacao de operandos invalida"))
}

/// Reads `mov`.
fn parse_mov(ops: Result<Vec<Operand>, String>) -> (r: Result<Insn, String>)
    ensures
        insn_result(r) == mov_form(operands_result(ops)),
{
    match two_ops(ops, "mov") {
        Err(e) => Err(e),
        Ok((Operand::Reg(dst), Operand::Imm(t))) => immediate_insn(Repr::MovRI { reg: dst }, t),
        Ok((Operand::Reg(dst), Operand::Reg(src))) => both_registers(0x89, dst, src, "mov"),
        Ok((Operand::Reg(dst), Operand::Mem(m, _))) => register_with_memory(0x8B, dst, m),
        Ok((Operand::Mem(m, _), Operand::Reg(src))) => register_with_memory(0x89, src, m),
        Ok((Operand::Mem(m, size), Operand::Imm(t))) => memory_immediate(0xC7, 0, m, size, t),
        Ok(_) => refuse("mov"),
    }
}

/// Reads an arithmetic instruction.
fn parse_alu(mnem: &str, codes: (u8, u8), ops: Result<Vec<Operand>, String>) -> (r: Result<
    Insn,
    String,
>)
    requires
        codes.0 <= 0x39,
    ensures
        insn_result(r) == alu_form(mnem@, codes, operands_result(ops)),
{
    let (opcode, digit): (u8, u8) = codes;
    match two_ops(ops, mnem) {
        Err(e) => Err(e),
        Ok((Operand::Reg(dst), Operand::Imm(t))) => immediate_insn(
            Repr::RmI {
                opcode: 0x81,
                digit,
                w: dst.size == 8,
                rm: Rm::Reg(dst.num),
                imm_width: 4,
            },
            t,
        ),
        Ok((Operand::Mem(m, size), Operand::Imm(t))) => memory_immediate(0x81, digit, m, size, t),
        Ok((Operand::Reg(dst), Operand::Reg(src))) => both_registers(opcode, dst, src, mnem),
        Ok((Operand::Reg(dst), Operand::Mem(m, _))) => register_with_memory(opcode + 2, dst, m),
        Ok((Operand::Mem(m, _), Operand::Reg(src))) => register_with_memory(opcode, src, m),
        Ok(_) => refuse(mnem),
    }
}

/// Reads `test`.
fn parse_test(ops: Result<Vec<Operand>, String>) -> (r: Result<Insn, String>)
    ensures
        insn_result(r) == test_form(operands_result(ops)),
{
    match two_ops(ops, "test") {
        Err(e) => Err(e),
        Ok((Operand::Reg(dst), Operand::Imm(t))) => immediate_insn(
            Repr::RmI {
                opcode: 0xF7,
                digit: 0,
                w: dst.size == 8,
                rm: Rm::Reg(dst.num),
                imm_width: 4,
            },
            t,
        ),
        Ok((Operand::Mem(m, size), Operand::Imm(t))) => memory_immediate(0xF7, 0, m, size, t),
        Ok((Operand::Reg(dst), Operand::Reg(src))) => both_registers(0x85, dst, src, "test"),
        Ok((Operand::Reg(reg), Operand::Mem(m, _))) => register_with_memory(0x85, reg, m),
        Ok((Operand::Mem(m, _), Operand::Reg(reg))) => register_with_memory(0x85, reg, m),
        Ok(_) => refuse("test"),
    }
}

/// Reads `lea`.
fn parse_lea(ops: Result<Vec<Operand>, String>) -> (r: Result<Insn, String>)
    ensures
        insn_result(r) == lea_form(operands_result(ops)),
{
    match two_ops(ops, "lea") {
        Err(e) => Err(e),
        Ok((Operand::Reg(dst), Operand::Mem(m, _))) => register_with_memory(0x8D, dst, m),
        Ok(_) => Err("lea: use 'lea reg, [mem]'".to_owned()),
    }
}

/// Finds the codes of an instruction with one operand.
fn unary(mnem: &str) -> (r: Option<(u8, u8)>)
    ensures
        r == unary_codes(mnem@),
{
    if text::same_str(mnem, "inc") {
        Some((0xFF, 0))
    } else if text::same_str(mnem, "dec") {
        Some((0xFF, 1))
    } else if text::same_str(mnem, "not") {
        Some((0xF7, 2))
    } else if text::same_str(mnem, "neg") {
        Some((0xF7, 3))
    } else {
        None
    }
}

/// Reads `inc`, `dec`, `not` or `neg`.
fn parse_unary(mnem: &str, codes: (u8, u8), ops: Result<Vec<Operand>, String>) -> (r: Result<
    Insn,
    String,
>)
    ensures
        insn_result(r) == unary_form(mnem@, codes, operands_result(ops)),
{
    let (opcode, digit): (u8, u8) = codes;
    match one_op(ops, mnem) {
        Err(e) => Err(e),
        Ok(Operand::Reg(reg)) => plain(
            Repr::RmI { opcode, digit, w: reg.size == 8, rm: Rm::Reg(reg.num), imm_width: 0 },
        ),
        Ok(Operand::Mem(m, size)) => match rm_size(size, 4) {
            Ok(w) => plain(Repr::RmI { opcode, digit, w, rm: Rm::Mem(m), imm_width: 0 }),
            Err(e) => Err(e),
        },
        Ok(_) => Err(message(mnem, ": operando deve ser registrador ou memoria")),
    }
}

/// Reads `push` or `pop`.
fn parse_pushpop(mnem: &str, ops: Result<Vec<Operand>, String>) -> (r: Result<Insn, String>)
    ensures
        insn_result(r) == stack_form(mnem@, operands_result(ops)),
{
    match one_op(ops, mnem) {
        Err(e) => Err(e),
        Ok(Operand::Reg(reg)) => {
            if reg.size != 8 {
                return Err(message(mnem, ": use um registrador de 64 bits (rax, rbx, ...)"));
            }
            if text::same_str(mnem, "push") {
                plain(Repr::Push { num: reg.num })
            } else {
                plain(Repr::Pop { num: reg.num })
            }
        },
        Ok(_) => Err(message(mnem, ": operando deve ser um registrador")),
    }
}

/// Reads a vector instruction.
fn parse_sse(
    mnem: &str,
    codes: (Option<u8>, u8, Option<u8>),
    ops: Result<Vec<Operand>, String>,
) -> (r: Result<Insn, String>)
    ensures
        insn_result(r) == sse_form(mnem@, codes, operands_result(ops)),
{
    let (prefix, opcode, store): (Option<u8>, u8, Option<u8>) = codes;
    let from_integer: bool = text::same_str(mnem, "cvtsi2ss") || text::same_str(mnem, "cvtsi2sd");
    let to_integer: bool = text::same_str(mnem, "cvttss2si") || text::same_str(mnem, "cvttsd2si");
    match two_ops(ops, mnem) {
        Err(e) => Err(e),
        Ok((Operand::Xmm(d), Operand::Xmm(s))) => if from_integer || to_integer {
            refuse(mnem)
        } else {
            plain(Repr::Sse { prefix, opcode, w: false, reg: d, rm: Rm::Reg(s) })
        },
        Ok((Operand::Xmm(d), Operand::Mem(m, _))) => if to_integer {
            refuse(mnem)
        } else {
            plain(Repr::Sse { prefix, opcode, w: false, reg: d, rm: Rm::Mem(m) })
        },
        Ok((Operand::Xmm(d), Operand::Reg(s))) => if from_integer {
            plain(Repr::Sse { prefix, opcode, w: s.size == 8, reg: d, rm: Rm::Reg(s.num) })
        } else {
            refuse(mnem)
        },
        Ok((Operand::Reg(d), Operand::Xmm(s))) => if to_integer {
            plain(Repr::Sse { prefix, opcode, w: d.size == 8, reg: d.num, rm: Rm::Reg(s) })
        } else {
            refuse(mnem)
        },
        Ok((Operand::Reg(d), Operand::Mem(m, _))) => if to_integer {
            plain(Repr::Sse { prefix, opcode, w: d.size == 8, reg: d.num, rm: Rm::Mem(m) })
        } else {
            refuse(mnem)
        },
        Ok((Operand::Mem(m, _), Operand::Xmm(s))) => match store {
            Some(opcode) => plain(Repr::Sse { prefix, opcode, w: false, reg: s, rm: Rm::Mem(m) }),
            None => Err(message(mnem, ": nao tem forma de store em memoria")),
        },
        Ok(_) => refuse(mnem),
    }
}

/// Reads `movd` or `movq`.
fn parse_movdq(mnem: &str, ops: Result<Vec<Operand>, String>) -> (r: Result<Insn, String>)
    ensures
        insn_result(r) == movdq_form(mnem@, operands_result(ops)),
{
    let q: bool = text::same_str(mnem, "movq");
    let prefix: Option<u8> = Some(0x66);
    match two_ops(ops, mnem) {
        Err(e) => Err(e),
        Ok((Operand::Xmm(d), Operand::Reg(s))) => plain(
            Repr::Sse { prefix, opcode: 0x6E, w: s.size == 8, reg: d, rm: Rm::Reg(s.num) },
        ),
        Ok((Operand::Xmm(d), Operand::Mem(m, _))) => plain(
            Repr::Sse { prefix, opcode: 0x6E, w: q, reg: d, rm: Rm::Mem(m) },
        ),
        Ok((Operand::Reg(d), Operand::Xmm(s))) => plain(
            Repr::Sse { prefix, opcode: 0x7E, w: d.size == 8, reg: s, rm: Rm::Reg(d.num) },
        ),
        Ok((Operand::Mem(m, _), Operand::Xmm(s))) => plain(
            Repr::Sse { prefix, opcode: 0x7E, w: q, reg: s, rm: Rm::Mem(m) },
        ),
        Ok((Operand::Xmm(d), Operand::Xmm(s))) => if q {
            plain(
                Repr::Sse { prefix: Some(0xF3), opcode: 0x7E, w: false, reg: d, rm: Rm::Reg(s) },
            )
        } else {
            refuse(mnem)
        },
        Ok(_) => refuse(mnem),
    }
}

/// Finds the number of a register of one byte.
fn byte_reg(t: &[char]) -> (r: Option<u8>)
    ensures
        r == byte_register(t@),
{
    if text::is_text(t, "al") {
        Some(0)
    } else if text::is_text(t, "cl") {
        Some(1)
    } else if text::is_text(t, "dl") {
        Some(2)
    } else if text::is_text(t, "bl") {
        Some(3)
    } else if text::is_text(t, "spl") {
        Some(4)
    } else if text::is_text(t, "bpl") {
        Some(5)
    } else if text::is_text(t, "sil") {
        Some(6)
    } else if text::is_text(t, "dil") {
        Some(7)
    } else if text::is_text(t, "r8b") {
        Some(8)
    } else if text::is_text(t, "r9b") {
        Some(9)
    } else if text::is_text(t, "r10b") {
        Some(10)
    } else if text::is_text(t, "r11b") {
        Some(11)
    } else if text::is_text(t, "r12b") {
        Some(12)
    } else if text::is_text(t, "r13b") {
        Some(13)
    } else if text::is_text(t, "r14b") {
        Some(14)
    } else if text::is_text(t, "r15b") {
        Some(15)
    } else {
        None
    }
}

/// Finds the number of a register of two bytes.
fn word_reg(t: &[char]) -> (r: Option<u8>)
    ensures
        r == word_register(t@),
{
    if text::is_text(t, "ax") {
        Some(0)
    } else if text::is_text(t, "cx") {
        Some(1)
    } else if text::is_text(t, "dx") {
        Some(2)
    } else if text::is_text(t, "bx") {
        Some(3)
    } else if text::is_text(t, "sp") {
        Some(4)
    } else if text::is_text(t, "bp") {
        Some(5)
    } else if text::is_text(t, "si") {
        Some(6)
    } else if text::is_text(t, "di") {
        Some(7)
    } else if text::is_text(t, "r8w") {
        Some(8)
    } else if text::is_text(t, "r9w") {
        Some(9)
    } else if text::is_text(t, "r10w") {
        Some(10)
    } else if text::is_text(t, "r11w") {
        Some(11)
    } else if text::is_text(t, "r12w") {
        Some(12)
    } else if text::is_text(t, "r13w") {
        Some(13)
    } else if text::is_text(t, "r14w") {
        Some(14)
    } else if text::is_text(t, "r15w") {
        Some(15)
    } else {
        None
    }
}

/// Reads `imul`.
fn parse_imul(ops: Result<Vec<Operand>, String>) -> (r: Result<Insn, String>)
    ensures
        insn_result(r) == imul_form(operands_result(ops)),
{
    let mut v: Vec<Operand> = match ops {
        Err(e) => {
            return Err(e);
        },
        Ok(v) => v,
    };
    let ghost all = models(v@);
    let n: usize = v.len();
    if n == 1 {
        return parse_unary("imul", (0xF7, 5), Ok(v));
    }
    if n < 1 || n > 3 {
        return Err("imul: esperados de 1 a 3 operandos".to_owned());
    }
    let third: Option<Operand> = if n == 3 {
        Some(v.remove(2))
    } else {
        None
    };
    let second: Operand = v.remove(1);
    let first: Operand = v.remove(0);
    proof {
        assert(all[0] == first.model() && all[1] == second.model());
        assert(third matches Some(o) ==> all[2] == o.model());
    }
    let d: GReg = match first {
        Operand::Reg(d) => d,
        _ => {
            return refuse("imul");
        },
    };
    let w: bool = d.size == 8;
    match third {
        None => match second {
            Operand::Reg(s) => match check_same_size(d, s, "imul") {
                Ok(_) => plain(
                    Repr::Sse { prefix: None, opcode: 0xAF, w, reg: d.num, rm: Rm::Reg(s.num) },
                ),
                Err(e) => Err(e),
            },
            Operand::Mem(m, _) => plain(
                Repr::Sse { prefix: None, opcode: 0xAF, w, reg: d.num, rm: Rm::Mem(m) },
            ),
            Operand::Imm(t) => immediate_insn(
                Repr::RmI { opcode: 0x69, digit: d.num, w, rm: Rm::Reg(d.num), imm_width: 4 },
                t,
            ),
            _ => refuse("imul"),
        },
        Some(Operand::Imm(t)) => match second {
            Operand::Reg(s) => match check_same_size(d, s, "imul") {
                Ok(_) => immediate_insn(
                    Repr::RmI { opcode: 0x69, digit: d.num, w, rm: Rm::Reg(s.num), imm_width: 4 },
                    t,
                ),
                Err(e) => Err(e),
            },
            Operand::Mem(m, _) => immediate_insn(
                Repr::RmI { opcode: 0x69, digit: d.num, w, rm: Rm::Mem(m), imm_width: 4 },
                t,
            ),
            _ => refuse("imul"),
        },
        Some(_) => refuse("imul"),
    }
}

/// Finds the opcode extension of a shift.
fn shift(mnem: &str) -> (r: Option<u8>)
    ensures
        r == shift_digit(mnem@),
{
    if text::same_str(mnem, "shl") || text::same_str(mnem, "sal") {
        Some(4)
    } else if text::same_str(mnem, "shr") {
        Some(5)
    } else if text::same_str(mnem, "sar") {
        Some(7)
    } else {
        None
    }
}

/// Makes a shift by `cl` or by an immediate.
fn shift_by(digit: u8, w: bool, rm: Rm, t: String) -> (r: Result<Insn, String>)
    ensures
        insn_result(r) == shifted(digit, w, rm, t@),
{
    let low: Vec<char> = text::lowercase(&text::chars_of(t.as_str()));
    if text::is_text(&low, "cl") {
        plain(Repr::RmI { opcode: 0xD3, digit, w, rm, imm_width: 0 })
    } else {
        immediate_insn(Repr::RmI { opcode: 0xC1, digit, w, rm, imm_width: 1 }, t)
    }
}

/// Reads a shift.
fn parse_shift(mnem: &str, digit: u8, ops: Result<Vec<Operand>, String>) -> (r: Result<
    Insn,
    String,
>)
    ensures
        insn_result(r) == shift_form(mnem@, digit, operands_result(ops)),
{
    match two_ops(ops, mnem) {
        Err(e) => Err(e),
        Ok((Operand::Reg(reg), Operand::Imm(t))) => shift_by(
            digit,
            reg.size == 8,
            Rm::Reg(reg.num),
            t,
        ),
        Ok((Operand::Mem(m, size), Operand::Imm(t))) => match rm_size(size, 4) {
            Ok(w) => shift_by(digit, w, Rm::Mem(m), t),
            Err(e) => Err(e),
        },
        Ok(_) => refuse(mnem),
    }
}

/// Reads `movzx`.
fn parse_movzx(ops: Result<Vec<Operand>, String>) -> (r: Result<Insn, String>)
    ensures
        insn_result(r) == movzx_form(operands_result(ops)),
{
    match two_ops(ops, "movzx") {
        Err(e) => Err(e),
        Ok((Operand::Reg(d), Operand::Imm(t))) => {
            let low: Vec<char> = text::lowercase(&text::chars_of(t.as_str()));
            match byte_reg(&low) {
                Some(num) => plain(
                    Repr::LowByte { opcode: 0xB6, w: d.size == 8, reg: d.num, num },
                ),
                None => match word_reg(&low) {
                    Some(num) => zero_extended(d, 0xB7, Rm::Reg(num)),
                    None => refuse("movzx"),
                },
            }
        },
        Ok((Operand::Reg(d), Operand::Mem(m, size))) => match size {
            Some(1) => zero_extended(d, 0xB6, Rm::Mem(m)),
            Some(2) => zero_extended(d, 0xB7, Rm::Mem(m)),
            _ => Err("movzx: use byte ou word antes de [mem]".to_owned()),
        },
        Ok(_) => refuse("movzx"),
    }
}

/// Makes a move with zeros before what is moved.
fn zero_extended(d: GReg, opcode: u8, rm: Rm) -> (r: Result<Insn, String>)
    ensures
        insn_result(r) == extended(d, opcode, rm),
{
    plain(Repr::Sse { prefix: None, opcode, w: d.size == 8, reg: d.num, rm })
}

/// The value of a read line.
pub open spec fn line_result(r: Option<Result<Insn, String>>) -> Option<
    Result<InsnModel, Seq<char>>,
> {
    match r {
        Some(x) => Some(insn_result(x)),
        None => None,
    }
}

/// Picks the instruction for a mnemonic.
fn select(mnem: &str, ops: Result<Vec<Operand>, String>) -> (r: Option<Result<Insn, String>>)
    ensures
        line_result(r) == instruction(mnem@, operands_result(ops)),
{
    if text::same_str(mnem, "ret") {
        return Some(plain(Repr::Ret));
    }
    if text::same_str(mnem, "mov") {
        return Some(parse_mov(ops));
    }
    if text::same_str(mnem, "lea") {
        return Some(parse_lea(ops));
    }
    if text::same_str(mnem, "test") {
        return Some(parse_test(ops));
    }
    if text::same_str(mnem, "imul") {
        return Some(parse_imul(ops));
    }
    if text::same_str(mnem, "movzx") {
        return Some(parse_movzx(ops));
    }
    match shift(mnem) {
        Some(digit) => {
            return Some(parse_shift(mnem, digit, ops));
        },
        None => {},
    }
    if text::same_str(mnem, "push") || text::same_str(mnem, "pop") {
        return Some(parse_pushpop(mnem, ops));
    }
    match unary(mnem) {
        Some(codes) => {
            return Some(parse_unary(mnem, codes, ops));
        },
        None => {},
    }
    if text::same_str(mnem, "movd") || text::same_str(mnem, "movq") {
        return Some(parse_movdq(mnem, ops));
    }
    match sse_table(mnem) {
        Some(codes) => {
            return Some(parse_sse(mnem, codes, ops));
        },
        None => {},
    }
    match alu(mnem) {
        Some(codes) => Some(parse_alu(mnem, codes, ops)),
        None => None,
    }
}

/// Reads a line as an instruction: `None` if its mnemonic is not known, a
/// message if its operands are not valid.
pub fn parse(line: &str) -> (r: Option<Result<Insn, String>>)
    ensures
        line_result(r) == assembled(line@),
{
    let chars: Vec<char> = text::chars_of(line);
    let t: &[char] = text::trim(&chars);
    let empty: Vec<char> = Vec::new();
    let (mnem, rest): (Vec<char>, &[char]) = match text::split_once(t, text::Class::Space) {
        Some((m, r)) => (text::lowercase(m), text::trim(r)),
        None => (text::lowercase(t), &empty),
    };
    let name: String = text::string_of(&mnem);
    proof {
        assert((mnem@, rest@) == parted(line@));
    }
    select(name.as_str(), parse_operands(rest))
}

// ---------------------------------------------------------------------------
// Laws
// ---------------------------------------------------------------------------
/// Hexadecimal digits without prefix, with `$` and with `0x` are the same
/// number.
pub proof fn lemma_hexadecimal_by_default(h: Seq<char>)
    requires
        text::all_digits(h, 16),
        h.len() > 0,
    ensures
        number_value(h) == text::signed(h, 16),
        number_value("$"@ + h) == number_value(h),
        number_value("0x"@ + h) == number_value(h),
        number_value("0X"@ + h) == number_value(h),
{
    reveal_strlit("$");
    reveal_strlit("0x");
    reveal_strlit("0X");
    reveal_strlit("(float)");
    reveal_strlit("(double)");
    let a = "$"@ + h;
    let b = "0x"@ + h;
    let c = "0X"@ + h;
    lemma_untrimmed(h);
    lemma_untrimmed(a);
    lemma_untrimmed(b);
    lemma_untrimmed(c);
    assert(a.skip(1) =~= h);
    assert(b.skip(2) =~= h);
    assert(c.skip(2) =~= h);
    assert(!(text::digit_of('#') < 16) && !(text::digit_of('x') < 16) && !(text::digit_of('X')
        < 16) && !(text::digit_of('$') < 16) && !(text::digit_of('-') < 16) && !(text::digit_of('(')
        < 16));
    assert(text::digit_of(h[0]) < 16);
    if h.len() > 1 {
        assert(text::digit_of(h[1]) < 16);
    }
    lemma_no_prefix(h);
    lemma_no_prefix(a);
    lemma_no_prefix(b);
    lemma_no_prefix(c);
}

/// A text that starts and ends with no space is its own trimmed text.
proof fn lemma_untrimmed(s: Seq<char>)
    requires
        s.len() > 0,
        !text::is_space(s[0]),
        !text::is_space(s.last()),
    ensures
        text::trimmed(s) == s,
{
    assert(text::trimmed_start(s, text::Class::Space) == s);
    assert(text::trimmed_end(s, text::Class::Space) == s);
}

/// A text that does not start with a bracket has no float prefix.
proof fn lemma_no_prefix(s: Seq<char>)
    requires
        s.len() > 0,
        s[0] != '(',
    ensures
        after_prefix(s, "(float)"@) is None,
        after_prefix(s, "(double)"@) is None,
{
    reveal_strlit("(float)");
    reveal_strlit("(double)");
    if s.len() >= 7 {
        assert(text::ascii_lowered(s.take(7))[0] == text::lower_char(s[0]));
        assert(text::ascii_lowered("(float)"@)[0] == '(');
    }
    if s.len() >= 8 {
        assert(text::ascii_lowered(s.take(8))[0] == text::lower_char(s[0]));
        assert(text::ascii_lowered("(double)"@)[0] == '(');
    }
}

/// Whether a memory operand has registers 0 to 15 and a scale that there is.
pub open spec fn mem_in_range(m: Mem) -> bool {
    m.base < 16 && (m.index matches Some(i) ==> i < 16) && scale_field(m.scale) is Some
}

/// Whether an operand has registers 0 to 15.
pub open spec fn rm_in_range(rm: Rm) -> bool {
    match rm {
        Rm::Reg(n) => n < 16,
        Rm::Mem(m) => mem_in_range(m),
    }
}

/// Whether an instruction has registers 0 to 15, and an immediate exactly where
/// there is a text for it.
pub open spec fn in_range(i: InsnModel) -> bool {
    match i.repr {
        Repr::RmR { reg, rm, .. } => reg < 16 && rm_in_range(rm) && i.imm is None,
        Repr::RmI { digit, rm, imm_width, .. } => {
            &&& digit < 16
            &&& rm_in_range(rm)
            &&& imm_width == 0 || imm_width == 1 || imm_width == 4
            &&& i.imm is Some <==> imm_width != 0
        },
        Repr::MovRI { reg } => reg.num < 16 && (reg.size == 4 || reg.size == 8) && i.imm is Some,
        Repr::Sse { reg, rm, .. } => reg < 16 && rm_in_range(rm) && i.imm is None,
        Repr::LowByte { reg, num, .. } => reg < 16 && num < 16 && i.imm is None,
        Repr::Push { num } => num < 16 && i.imm is None,
        Repr::Pop { num } => num < 16 && i.imm is None,
        Repr::Ret => i.imm is None,
    }
}

/// Whether an operand names registers 0 to 15.
pub open spec fn operand_in_range(o: OperandModel) -> bool {
    match o {
        OperandModel::Reg(r) => r.num < 16 && (r.size == 4 || r.size == 8),
        OperandModel::Xmm(n) => n < 16,
        OperandModel::Mem(m, _) => mem_in_range(m),
        OperandModel::Imm(_) => true,
    }
}

/// Whatever a line holds, the instruction it stands for names registers that
/// there are, and has an immediate exactly where it has a text for one.
pub proof fn lemma_in_range(line: Seq<char>)
    requires
        assembled(line) matches Some(r) && r is Ok,
    ensures
        in_range(assembled(line)->0->Ok_0),
{
    let (mnem, rest) = parted(line);
    let ops = all_operands(rest);
    if let Ok(v) = ops {
        lemma_all_operands(rest);
    }
    lemma_instruction(mnem, ops);
}

proof fn lemma_register(s: Seq<char>)
    ensures
        register(s) matches Some(r) ==> r.num < 16 && (r.size == 4 || r.size == 8),
{
}

proof fn lemma_terms(terms: Seq<Seq<char>>, n: int)
    ensures
        terms_read(terms, n) matches Ok(p) ==> (p.base matches Some(b) ==> b < 16) && (
        p.index matches Some(i) ==> i < 16) && scale_field(p.scale) is Some,
    decreases n,
{
    if n > 0 {
        lemma_terms(terms, n - 1);
        let term = terms[n - 1];
        lemma_register(term);
        if let Some((a, b)) = text::cut(term, text::Class::Is('*')) {
            lemma_register(a);
            lemma_register(b);
        }
    }
}

proof fn lemma_operand(s: Seq<char>)
    ensures
        operand(s) matches Ok(o) ==> operand_in_range(o),
{
    let rest = sized(text::trimmed(s)).1;
    let inner = unbracketed(rest);
    lemma_terms(memory_terms(inner), memory_terms(inner).len() as int);
    lemma_register(rest);
    lemma_xmm(rest);
}

proof fn lemma_xmm(s: Seq<char>)
    ensures
        xmm_register(s) matches Some(n) ==> 0 <= n < 16,
{
    let digits = text::lowered(text::trimmed(s)).skip(3);
    if text::all_digits(digits, 10) {
        text::lemma_number_nonneg(digits, 10);
    }
    if text::all_digits(digits.skip(1), 10) {
        text::lemma_number_nonneg(digits.skip(1), 10);
    }
}

proof fn lemma_operands(parts: Seq<Seq<char>>, n: int)
    ensures
        operands_read(parts, n) matches Ok(v) ==> forall|i: int|
            0 <= i < v.len() ==> operand_in_range(#[trigger] v[i]),
    decreases n,
{
    if n > 0 {
        lemma_operands(parts, n - 1);
        lemma_operand(parts[n - 1]);
    }
}

proof fn lemma_all_operands(rest: Seq<char>)
    ensures
        all_operands(rest) matches Ok(v) ==> forall|i: int|
            0 <= i < v.len() ==> operand_in_range(#[trigger] v[i]),
{
    lemma_operands(text::pieces(rest, ','), text::pieces(rest, ',').len() as int);
}

/// Whether all operands name registers 0 to 15.
pub open spec fn ranged(ops: Result<Seq<OperandModel>, Seq<char>>) -> bool {
    ops matches Ok(v) ==> forall|i: int| 0 <= i < v.len() ==> operand_in_range(#[trigger] v[i])
}

/// Whether an instruction, if it is one, is in range.
pub open spec fn sound(r: Result<InsnModel, Seq<char>>) -> bool {
    r matches Ok(i) ==> in_range(i)
}

proof fn lemma_general_forms(
    mnem: Seq<char>,
    codes: (u8, u8),
    ops: Result<Seq<OperandModel>, Seq<char>>,
)
    requires
        ranged(ops),
        codes.1 < 8,
    ensures
        sound(mov_form(ops)),
        sound(lea_form(ops)),
        sound(test_form(ops)),
        sound(alu_form(mnem, codes, ops)),
        sound(unary_form(mnem, codes, ops)),
        sound(stack_form(mnem, ops)),
{
}

proof fn lemma_vector_forms(
    mnem: Seq<char>,
    codes: (Option<u8>, u8, Option<u8>),
    ops: Result<Seq<OperandModel>, Seq<char>>,
)
    requires
        ranged(ops),
    ensures
        sound(sse_form(mnem, codes, ops)),
        sound(movdq_form(mnem, ops)),
{
}

proof fn lemma_other_forms(
    mnem: Seq<char>,
    digit: u8,
    ops: Result<Seq<OperandModel>, Seq<char>>,
)
    requires
        ranged(ops),
        digit < 8,
    ensures
        sound(imul_form(ops)),
        sound(shift_form(mnem, digit, ops)),
        sound(movzx_form(ops)),
{
    if let Ok(v) = ops {
        if v.len() == 3 {
            assert(operand_in_range(v[0]) && operand_in_range(v[1]) && operand_in_range(v[2]));
        }
    }
}

#[verifier::rlimit(30)]
proof fn lemma_instruction(mnem: Seq<char>, ops: Result<Seq<OperandModel>, Seq<char>>)
    requires
        ranged(ops),
    ensures
        instruction(mnem, ops) matches Some(r) ==> sound(r),
{
    lemma_general_forms(mnem, (0, 0), ops);
    if alu_codes(mnem) is Some {
        lemma_general_forms(mnem, alu_codes(mnem)->0, ops);
    }
    if unary_codes(mnem) is Some {
        lemma_general_forms(mnem, unary_codes(mnem)->0, ops);
    }
    if sse_codes(mnem) is Some {
        lemma_vector_forms(mnem, sse_codes(mnem)->0, ops);
    }
    lemma_vector_forms(mnem, (None, 0, None), ops);
    lemma_other_forms(mnem, 0, ops);
    if shift_digit(mnem) is Some {
        lemma_other_forms(mnem, shift_digit(mnem)->0, ops);
    }
}

} // verus!
