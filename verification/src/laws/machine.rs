//! Machine code read back: what the bytes of an assembled line mean to the
//! processor.
use crate::asm_x86;
use crate::asm_x86::{Mem, Rm};
use crate::bytes;
use crate::laws::plain;
use vstd::prelude::*;

verus! {

/// Where an operand of an instruction lies.
pub enum Place {
    Register(int),
    Memory { base: int, index: Option<(int, int)>, disp: int },
    /// A form that names no base register.
    Other,
}

/// What follows an opcode, as the processor reads it.
pub struct Reading {
    pub wide: bool,
    pub reg: int,
    pub place: Place,
    /// How many bytes it takes, the opcode among them.
    pub size: int,
}

/// Whether the first byte is one of the sixteen REX prefixes.
pub open spec fn prefixed(b: Seq<u8>) -> bool {
    b.len() > 0 && 0x40 <= b[0] < 0x50
}

/// The bits of the REX prefix: 8 for 64 bits, 4, 2 and 1 for the upper eight
/// registers as operand, index and base.
pub open spec fn prefix_bits(b: Seq<u8>) -> int {
    if prefixed(b) {
        b[0] - 0x40
    } else {
        0
    }
}

/// The bytes behind the REX prefix.
pub open spec fn unprefixed(b: Seq<u8>) -> Seq<u8> {
    if prefixed(b) {
        b.skip(1)
    } else {
        b
    }
}

/// A byte with its sign.
pub open spec fn signed8(n: int) -> int {
    if n < 128 {
        n
    } else {
        n - 256
    }
}

/// Reads the operands behind an opcode of `n` bytes.
pub open spec fn reading(b: Seq<u8>, n: int) -> Reading {
    let bits = prefix_bits(b);
    let c = unprefixed(b);
    let mode = c[n] / 64;
    let low = c[n] % 8;
    let upper = 8 * (bits % 2);
    let (base, index, next) = if mode != 3 && low == 4 {
        let i = (c[n + 1] / 8) % 8 + 8 * ((bits / 2) % 2);
        let scale = if c[n + 1] / 64 == 0 {
            1int
        } else if c[n + 1] / 64 == 1 {
            2
        } else if c[n + 1] / 64 == 2 {
            4
        } else {
            8
        };
        (
            c[n + 1] % 8 + upper,
            if i == 4 {
                None
            } else {
                Some((i, scale))
            },
            n + 2,
        )
    } else {
        (low + upper, None, n + 1)
    };
    let (place, size) = if mode == 3 {
        (Place::Register(base), next)
    } else if mode == 0 && base % 8 == 5 {
        (Place::Other, next + 4)
    } else if mode == 0 {
        (Place::Memory { base, index, disp: 0 }, next)
    } else if mode == 1 {
        (Place::Memory { base, index, disp: signed8(c[next] as int) }, next + 1)
    } else {
        (Place::Memory { base, index, disp: plain::signed(plain::four(c, next)) }, next + 4)
    };
    Reading {
        wide: bits / 8 == 1,
        reg: (c[n] / 8) % 8 + 8 * ((bits / 4) % 2),
        place,
        size,
    }
}

/// Whether bytes are an instruction with the opcode and the operands, followed by
/// `rest`.
#[verifier::opaque]
pub open spec fn stands_for(
    b: Seq<u8>,
    opcode: Seq<u8>,
    wide: bool,
    reg: int,
    place: Place,
    rest: Seq<u8>,
) -> bool {
    let c = unprefixed(b);
    let r = reading(b, opcode.len() as int);
    &&& c.len() == r.size + rest.len()
    &&& c.take(opcode.len() as int) == opcode
    &&& r.wide == wide
    &&& r.reg == reg
    &&& r.place == place
    &&& c.skip(r.size) == rest
}

/// The place of an operand.
pub open spec fn place_of(rm: Rm) -> Place {
    match rm {
        Rm::Reg(n) => Place::Register(n as int),
        Rm::Mem(m) => Place::Memory {
            base: m.base as int,
            index: match m.index {
                Some(i) => Some((i as int, m.scale as int)),
                None => None,
            },
            disp: m.disp as int,
        },
    }
}

/// Whether the processor can address an operand: one of sixteen registers, or
/// memory at a base, an index other than the stack pointer with a scale of 1, 2,
/// 4 or 8, and a displacement of 32 bits.
pub open spec fn addressable(rm: Rm) -> bool {
    match rm {
        Rm::Reg(n) => n < 16,
        Rm::Mem(m) => {
            &&& m.base < 16
            &&& m.index matches Some(i) ==> i < 16 && i != 4
            &&& m.scale == 1 || m.scale == 2 || m.scale == 4 || m.scale == 8
            &&& -0x8000_0000 <= m.disp < 0x8000_0000
        },
    }
}

/// A register number is its lower three bits and the bit above them.
proof fn lemma_halves(n: int)
    requires
        0 <= n < 16,
    ensures
        n % 8 + 8 * ((n / 8) % 2) == n,
        n / 8 == (n / 8) % 2,
{
}

/// The prefix reads back as its four bits.
proof fn lemma_prefix(s: Seq<u8>, w: bool, r: int, x: int, b: int, tail: Seq<u8>)
    requires
        0 <= r < 2,
        0 <= x < 2,
        0 <= b < 2,
        tail.len() > 0,
        !(0x40 <= tail[0] < 0x50),
        s == asm_x86::rex(w, r, x, b) + tail,
    ensures
        unprefixed(s) == tail,
        prefix_bits(s) / 8 == if w {
            1int
        } else {
            0
        },
        (prefix_bits(s) / 4) % 2 == r,
        (prefix_bits(s) / 2) % 2 == x,
        prefix_bits(s) % 2 == b,
{
    if w || r != 0 || x != 0 || b != 0 {
        assert(s[0] == asm_x86::rex(w, r, x, b)[0]);
        assert(s.skip(1) =~= tail);
    } else {
        assert(s =~= tail);
    }
}

/// The prefix before the lowest byte of a register: there is one for the bytes that
/// have no name without it.
pub proof fn lemma_low_byte(s: Seq<u8>, w: bool, reg: u8, num: u8, tail: Seq<u8>)
    requires
        reg < 16,
        num < 16,
        tail.len() > 0,
        !(0x40 <= tail[0] < 0x50),
        s == asm_x86::low_rex(w, reg, num) + tail,
    ensures
        unprefixed(s) == tail,
        prefix_bits(s) / 8 == if w {
            1int
        } else {
            0
        },
        (prefix_bits(s) / 4) % 2 == reg / 8,
        prefix_bits(s) % 2 == num / 8,
        num >= 4 ==> prefixed(s),
{
    lemma_halves(reg as int);
    lemma_halves(num as int);
    if num >= 4 {
        assert(s[0] == asm_x86::low_rex(w, reg, num)[0]);
        assert(s.skip(1) =~= tail);
    } else {
        lemma_prefix(s, w, (reg / 8) as int, 0, 0, tail);
    }
}

/// The byte of a register operand is read back as that register.
pub proof fn lemma_register_read_back(
    b: Seq<u8>,
    tail: Seq<u8>,
    w: bool,
    reg: int,
    k: u8,
    opcode: Seq<u8>,
    rest: Seq<u8>,
)
    requires
        0 <= reg < 16,
        k < 16,
        opcode.len() > 0,
        tail == opcode + seq![asm_x86::fields(3, reg % 8, (k % 8) as int)] + rest,
        unprefixed(b) == tail,
        prefix_bits(b) / 8 == if w {
            1int
        } else {
            0
        },
        (prefix_bits(b) / 4) % 2 == reg / 8,
        prefix_bits(b) % 2 == k / 8,
    ensures
        stands_for(b, opcode, w, reg, Place::Register(k as int), rest),
{
    reveal(stands_for);
    lemma_halves(reg);
    lemma_halves(k as int);
    let n = opcode.len() as int;
    let f = asm_x86::fields(3, reg % 8, (k % 8) as int);
    assert(tail[n] == f);
    assert(f == 192 + 8 * (reg % 8) + k % 8);
    assert(f / 64 == 3 && (f / 8) % 8 == reg % 8 && f % 8 == k % 8);
    assert(tail.take(n) =~= opcode);
    assert(tail.skip(n + 1) =~= rest);
}

/// The displacement is the number of bytes that its mode says.
proof fn lemma_displacement(m: Mem)
    requires
        addressable(Rm::Mem(m)),
    ensures
        asm_x86::displacement(m) matches Ok((mode, disp)) && {
            &&& 0 <= mode < 3
            &&& mode == 0 ==> disp.len() == 0 && m.disp == 0 && m.base % 8 != 5
            &&& mode == 1 ==> disp.len() == 1 && signed8(disp[0] as int) == m.disp
            &&& mode == 2 ==> disp.len() == 4 && plain::signed(plain::four(disp, 0)) == m.disp
        },
{
    plain::lemma_le1(m.disp as int);
    plain::lemma_le4(m.disp as int);
}

/// A byte of three fields is read back as these.
proof fn lemma_fields(a: int, b: int, c: int)
    requires
        0 <= a < 4,
        0 <= b < 8,
        0 <= c < 8,
    ensures
        asm_x86::fields(a, b, c) / 64 == a,
        (asm_x86::fields(a, b, c) / 8) % 8 == b,
        asm_x86::fields(a, b, c) % 8 == c,
{
}

/// The parts of an address name its base, its index, its scale and its
/// displacement.
proof fn lemma_address(m: Mem)
    requires
        addressable(Rm::Mem(m)),
    ensures
        asm_x86::address(m) matches Ok(a) && {
            &&& 0 <= a.mode < 3
            &&& 0 <= a.low < 8
            &&& 0 <= a.x < 2
            &&& 0 <= a.b < 2
            &&& match a.sib {
                Some(s) => {
                    let i = (s / 8) % 8 + 8 * a.x;
                    &&& a.low == 4
                    &&& s % 8 + 8 * a.b == m.base
                    &&& match m.index {
                        Some(k) => {
                            &&& i == k
                            &&& m.scale == if s / 64 == 0 {
                                1int
                            } else if s / 64 == 1 {
                                2
                            } else if s / 64 == 2 {
                                4
                            } else {
                                8
                            }
                        },
                        None => i == 4,
                    }
                },
                None => a.low != 4 && a.low + 8 * a.b == m.base && m.index is None,
            }
            &&& a.mode == 0 ==> a.disp.len() == 0 && m.disp == 0 && m.base % 8 != 5
            &&& a.mode == 1 ==> a.disp.len() == 1 && signed8(a.disp[0] as int) == m.disp
            &&& a.mode == 2 ==> a.disp.len() == 4 && plain::signed(plain::four(a.disp, 0)) == m.disp
        },
{
    lemma_halves(m.base as int);
    if let Some(i) = m.index {
        lemma_halves(i as int);
    }
    lemma_displacement(m);
    if let Some(i) = m.index {
        lemma_fields(asm_x86::scale_field(m.scale)->0, (i % 8) as int, (m.base % 8) as int);
    } else {
        lemma_fields(asm_x86::scale_field(m.scale)->0, 4, (m.base % 8) as int);
    }
}

/// The bytes of an address in memory are read back as that address.
proof fn lemma_memory_read_back(
    b: Seq<u8>,
    tail: Seq<u8>,
    w: bool,
    reg: int,
    m: Mem,
    opcode: Seq<u8>,
    rest: Seq<u8>,
)
    requires
        0 <= reg < 16,
        addressable(Rm::Mem(m)),
        opcode.len() > 0,
        ({
            let a = asm_x86::address(m)->Ok_0;
            let f = asm_x86::fields(a.mode, reg % 8, a.low);
            &&& tail == opcode + seq![f] + asm_x86::maybe(a.sib) + a.disp + rest
            &&& unprefixed(b) == tail
            &&& prefix_bits(b) / 8 == if w {
                1int
            } else {
                0
            }
            &&& (prefix_bits(b) / 4) % 2 == reg / 8
            &&& (prefix_bits(b) / 2) % 2 == a.x
            &&& prefix_bits(b) % 2 == a.b
        }),
    ensures
        stands_for(b, opcode, w, reg, place_of(Rm::Mem(m)), rest),
{
    reveal(stands_for);
    lemma_address(m);
    lemma_halves(reg);
    let n = opcode.len() as int;
    let a = asm_x86::address(m)->Ok_0;
    let f = asm_x86::fields(a.mode, reg % 8, a.low);
    assert(tail[n] == f);
    assert(f == 64 * a.mode + 8 * (reg % 8) + a.low);
    assert(f / 64 == a.mode && (f / 8) % 8 == reg % 8 && f % 8 == a.low);
    assert(tail.take(n) =~= opcode);
    let s = asm_x86::maybe(a.sib).len() as int;
    if a.sib is Some {
        assert(tail[n + 1] == a.sib->0);
    }
    let next = n + 1 + s;
    assert(forall|j: int| 0 <= j < a.disp.len() ==> tail[next + j] == #[trigger] a.disp[j]);
    if a.mode == 1 {
        assert(tail[next] == a.disp[0]);
    } else if a.mode == 2 {
        assert(tail[next] == a.disp[0]);
        assert(tail[next + 1] == a.disp[1]);
        assert(tail[next + 2] == a.disp[2]);
        assert(tail[next + 3] == a.disp[3]);
        assert(plain::four(tail, next) == plain::four(a.disp, 0));
    }
    assert(tail.skip(next + a.disp.len()) =~= rest);
}

/// An operand that can be addressed is encoded, and the processor reads the bytes
/// back as the same operand.
pub proof fn lemma_operands_read_back(w: bool, reg: int, rm: Rm, opcode: Seq<u8>, rest: Seq<u8>)
    requires
        0 <= reg < 16,
        addressable(rm),
        opcode.len() > 0,
        !(0x40 <= opcode[0] < 0x50),
    ensures
        asm_x86::modrm(w, reg, rm, opcode) matches Ok(b) && stands_for(
            b + rest,
            opcode,
            w,
            reg,
            place_of(rm),
            rest,
        ),
{
    match rm {
        Rm::Reg(k) => {
            let r = asm_x86::rex(w, reg / 8, 0, (k / 8) as int);
            let f = seq![asm_x86::fields(3, reg % 8, (k % 8) as int)];
            let tail = opcode + f + rest;
            assert(tail[0] == opcode[0]);
            assert(r + opcode + f + rest =~= r + tail);
            lemma_prefix(r + tail, w, reg / 8, 0, (k / 8) as int, tail);
            lemma_register_read_back(r + tail, tail, w, reg, k, opcode, rest);
        },
        Rm::Mem(m) => {
            lemma_address(m);
            let a = asm_x86::address(m)->Ok_0;
            let r = asm_x86::rex(w, reg / 8, a.x, a.b);
            let f = seq![asm_x86::fields(a.mode, reg % 8, a.low)];
            let tail = opcode + f + asm_x86::maybe(a.sib) + a.disp + rest;
            assert(tail[0] == opcode[0]);
            assert(r + opcode + f + asm_x86::maybe(a.sib) + a.disp + rest =~= r + tail);
            lemma_prefix(r + tail, w, reg / 8, a.x, a.b, tail);
            lemma_memory_read_back(r + tail, tail, w, reg, m, opcode, rest);
        },
    }
}

/// The stack pointer cannot be an index, and a displacement has 32 bits: other addresses are
/// refused.
pub proof fn lemma_not_addressable(w: bool, reg: int, m: Mem, opcode: Seq<u8>)
    requires
        m.index == Some(4u8) || !(-0x8000_0000 <= m.disp < 0x8000_0000),
    ensures
        asm_x86::modrm(w, reg, Rm::Mem(m), opcode) is Err,
{
}

} // verus!
