//! Scripts that find, allocate and patch code of a target process.
//!
//! One command per line; `//` starts a comment:
//!   aobscanmodule(symbol, module, AA BB ?? CC)
//!   aobscan(symbol, AA BB ?? CC)
//!   alloc(symbol, size[, near])      0x.. and $.. are hexadecimal, else decimal
//!   label(name)                      optional declaration
//!   registersymbol(name) / unregistersymbol(name)
//!   dealloc(symbol)
//!   name:                            moves to a known address, else defines a label
//!   db AA BB CC                      raw bytes
//!   dd <expr> / dq <expr>            4 or 8 bytes, little-endian
//!   nop [n]                          n bytes 0x90
//!   jmp <target> / call <target>     relative jump or call
//!   jmp64 <target>                   absolute jump
//!   je <target>, jne <target>, ...   conditional relative jump
//!   mov eax, 1                       an instruction of `asm_x86`
//!
//! `<expr>` is a symbol, a number, `symbol+0x10` or `address-8`. The immediate of
//! an instruction is a number as `asm_x86` reads it, else such an expression.
//!
//! A `Run` decides; its caller performs the `Action` that `step` hands out and
//! answers with the `Event`.
use crate::asm_x86;
use crate::bytes;
use crate::pattern;
use crate::target;
use crate::target::ModuleInfo;
use crate::target::Region;
use crate::text;
use vstd::hash_map::StringHashMap;
use vstd::prelude::*;

verus! {

/// A section of a script.
#[derive(Clone, Copy, Debug, PartialEq, Eq, Structural)]
pub enum Section {
    Enable,
    Disable,
}

/// What lasts from one section to the next: symbols and allocations.
pub struct AsmState {
    pub symbols: StringHashMap<u64>,
    /// Name, address and size of each allocation.
    pub allocs: Vec<(String, u64, usize)>,
}

/// The value of an `AsmState`.
pub struct StateModel {
    pub symbols: Map<Seq<char>, u64>,
    pub allocs: Seq<(Seq<char>, u64, usize)>,
}

/// The values of allocations.
pub open spec fn alloc_models(v: Seq<(String, u64, usize)>) -> Seq<(Seq<char>, u64, usize)> {
    v.map_values(|a: (String, u64, usize)| (a.0@, a.1, a.2))
}

impl AsmState {
    /// The value of the state.
    pub open spec fn model(self) -> StateModel {
        StateModel { symbols: self.symbols@, allocs: alloc_models(self.allocs@) }
    }

    /// A state without symbols and allocations.
    pub fn new() -> (r: Self)
        ensures
            r.model() == (StateModel { symbols: Map::empty(), allocs: Seq::empty() }),
    {
        let r: AsmState = AsmState { symbols: StringHashMap::new(), allocs: Vec::new() };
        proof {
            assert(alloc_models(r.allocs@) =~= Seq::<(Seq<char>, u64, usize)>::empty());
        }
        r
    }

    /// Defines a symbol.
    pub fn define(&mut self, name: &str, addr: u64)
        ensures
            final(self).model() == (StateModel {
                symbols: old(self).model().symbols.insert(name@, addr),
                ..old(self).model()
            }),
    {
        self.symbols.insert(name.to_owned(), addr);
    }

    /// The address of a symbol.
    pub fn lookup(&self, name: &str) -> (r: Option<u64>)
        ensures
            r == (if self.model().symbols.dom().contains(name@) {
                Some(self.model().symbols[name@])
            } else {
                None
            }),
    {
        match self.symbols.get(name) {
            Some(v) => Some(*v),
            None => None,
        }
    }
}

// ---------------------------------------------------------------------------
// Expressions
// ---------------------------------------------------------------------------
/// The value of a number: `0x..` and `$..` are hexadecimal, else decimal.
pub open spec fn number(s: Seq<char>) -> Option<int> {
    let t = text::trimmed(s);
    if t.len() > 1 && t[0] == '0' && (t[1] == 'x' || t[1] == 'X') {
        text::unsigned(t.skip(2), 16, u64::MAX as int)
    } else if t.len() > 0 && t[0] == '$' {
        text::unsigned(t.skip(1), 16, u64::MAX as int)
    } else {
        text::unsigned(t, 10, u64::MAX as int)
    }
}

/// Reads a number.
fn parse_num(tok: &[char]) -> (r: Option<u64>)
    ensures
        match r {
            Some(v) => number(tok@) == Some(v as int),
            None => number(tok@) is None,
        },
{
    let t: &[char] = text::trim(tok);
    if t.len() > 1 && t[0] == '0' && (t[1] == 'x' || t[1] == 'X') {
        text::parse_unsigned(text::from_index(t, 2), 16, u64::MAX)
    } else if t.len() > 0 && t[0] == '$' {
        text::parse_unsigned(text::from_index(t, 1), 16, u64::MAX)
    } else {
        text::parse_unsigned(t, 10, u64::MAX)
    }
}

/// The value of a number or a symbol.
pub open spec fn value(symbols: Map<Seq<char>, u64>, s: Seq<char>) -> Result<u64, Seq<char>> {
    let t = text::trimmed(s);
    match number(t) {
        Some(n) => Ok(n as u64),
        None => if symbols.dom().contains(t) {
            Ok(symbols[t])
        } else {
            Err("simbolo desconhecido: '"@ + t + "'"@)
        },
    }
}

/// Reads a number or a symbol.
fn parse_operand(symbols: &StringHashMap<u64>, tok: &[char]) -> (r: Result<u64, String>)
    ensures
        asm_x86::said(r) == value(symbols@, tok@),
{
    let t: &[char] = text::trim(tok);
    match parse_num(t) {
        Some(n) => Ok(n),
        None => {
            let name: String = text::string_of(t);
            match symbols.get(name.as_str()) {
                Some(v) => Ok(*v),
                None => {
                    let mut e: String = "simbolo desconhecido: '".to_owned();
                    text::append_chars(&mut e, t);
                    e.append("'");
                    Err(e)
                },
            }
        },
    }
}

/// The sum or difference modulo 2^64.
pub open spec fn combined(a: u64, plus: bool, b: u64) -> u64 {
    ((if plus {
        a + b
    } else {
        a - b
    }) % 0x1_0000_0000_0000_0000) as u64
}

/// The position of the operator of an expression: the first `+` or `-` that is
/// not its first character.
pub open spec fn operator_at(t: Seq<char>) -> Option<int> {
    if t.len() == 0 {
        None
    } else {
        let i = 1 + text::first_in(t.skip(1), text::Class::Either('+', '-'));
        if i < t.len() {
            Some(i)
        } else {
            None
        }
    }
}

/// The value of an expression: an operand, or two with `+` or `-` between them.
pub open spec fn expression(symbols: Map<Seq<char>, u64>, s: Seq<char>) -> Result<u64, Seq<char>> {
    let t = text::trimmed(s);
    match operator_at(t) {
        None => value(symbols, t),
        Some(i) => match value(symbols, t.take(i)) {
            Err(e) => Err(e),
            Ok(a) => match value(symbols, t.skip(i + 1)) {
                Err(e) => Err(e),
                Ok(b) => Ok(combined(a, t[i] == '+', b)),
            },
        },
    }
}

/// Reads an expression.
fn parse_expr(symbols: &StringHashMap<u64>, s: &[char]) -> (r: Result<u64, String>)
    ensures
        asm_x86::said(r) == expression(symbols@, s@),
{
    let t: &[char] = text::trim(s);
    let n: usize = t.len();
    if n > 0 {
        let i: usize = text::find(text::from_index(t, 1), text::Class::Either('+', '-'));
        if i < n - 1 {
            let at: usize = i + 1;
            let a: u64 = match parse_operand(symbols, text::up_to(t, at)) {
                Ok(v) => v,
                Err(e) => {
                    return Err(e);
                },
            };
            let b: u64 = match parse_operand(symbols, text::from_index(t, at + 1)) {
                Ok(v) => v,
                Err(e) => {
                    return Err(e);
                },
            };
            return Ok(
                if t[at] == '+' {
                    a.wrapping_add(b)
                } else {
                    a.wrapping_sub(b)
                },
            );
        }
    }
    parse_operand(symbols, t)
}

// ---------------------------------------------------------------------------
// Emission
// ---------------------------------------------------------------------------
/// What a line writes into memory.
#[derive(Debug)]
pub enum Emit {
    Db(Vec<u8>),
    Nop(usize),
    JmpRel(String),
    CallRel(String),
    JmpAbs(String),
    Dq(String),
    Dd(String),
    /// A conditional jump with its second opcode byte.
    Jcc(u8, String),
    Insn(asm_x86::Insn),
}

/// The value of an `Emit`.
pub enum EmitModel {
    Db(Seq<u8>),
    Nop(usize),
    JmpRel(Seq<char>),
    CallRel(Seq<char>),
    JmpAbs(Seq<char>),
    Dq(Seq<char>),
    Dd(Seq<char>),
    Jcc(u8, Seq<char>),
    Insn(asm_x86::InsnModel),
}

/// How many bytes are written.
pub open spec fn emit_size(e: EmitModel) -> nat {
    match e {
        EmitModel::Db(b) => b.len(),
        EmitModel::Nop(n) => n as nat,
        EmitModel::JmpRel(_) => 5,
        EmitModel::CallRel(_) => 5,
        EmitModel::JmpAbs(_) => 14,
        EmitModel::Dq(_) => 8,
        EmitModel::Dd(_) => 4,
        EmitModel::Jcc(_, _) => 6,
        EmitModel::Insn(i) => asm_x86::length(i.repr),
    }
}

/// A relative jump or call at `addr`: its opcode and the distance, which counts
/// from behind it.
pub open spec fn branch(opcode: Seq<u8>, target: u64, addr: u64) -> Result<Seq<u8>, Seq<char>> {
    let rel = bytes::wrapped(target - (addr + opcode.len() + 4));
    if i32::MIN <= rel <= i32::MAX {
        Ok(opcode + bytes::le(rel, 4))
    } else {
        Err(
            "salto fora do alcance rel32 ("@ + asm_x86::shown_hex(rel)
                + "); use jmp64 ou aloque o cave mais perto"@,
        )
    }
}

/// The value of the immediate of an instruction: a number as instructions read
/// it, else an expression; zero where there is none.
pub open spec fn immediate_value(symbols: Map<Seq<char>, u64>, imm: Option<Seq<char>>) -> Result<
    int,
    Seq<char>,
> {
    match imm {
        None => Ok(0),
        Some(t) => match asm_x86::number_value(t) {
            Some(n) => Ok(n),
            None => match expression(symbols, t) {
                Ok(v) => Ok(bytes::wrapped(v as int)),
                Err(e) => Err(e),
            },
        },
    }
}

/// The bytes of an instruction.
#[verifier::opaque]
pub open spec fn insn_bytes(i: asm_x86::InsnModel, symbols: Map<Seq<char>, u64>) -> Result<
    Seq<u8>,
    Seq<char>,
> {
    match immediate_value(symbols, i.imm) {
        Ok(n) => asm_x86::encoded(i.repr, n),
        Err(x) => Err(x),
    }
}

/// The bytes that are written at `addr`.
pub open spec fn emitted(e: EmitModel, symbols: Map<Seq<char>, u64>, addr: u64) -> Result<
    Seq<u8>,
    Seq<char>,
> {
    match e {
        EmitModel::Db(b) => Ok(b),
        EmitModel::Nop(n) => Ok(Seq::new(n as nat, |i: int| 0x90u8)),
        EmitModel::JmpRel(t) => match expression(symbols, t) {
            Ok(v) => branch(seq![0xE9], v, addr),
            Err(x) => Err(x),
        },
        EmitModel::CallRel(t) => match expression(symbols, t) {
            Ok(v) => branch(seq![0xE8], v, addr),
            Err(x) => Err(x),
        },
        EmitModel::JmpAbs(t) => match expression(symbols, t) {
            Ok(v) => Ok(seq![0xFFu8, 0x25, 0, 0, 0, 0] + bytes::le(v as int, 8)),
            Err(x) => Err(x),
        },
        EmitModel::Dq(t) => match expression(symbols, t) {
            Ok(v) => Ok(bytes::le(v as int, 8)),
            Err(x) => Err(x),
        },
        EmitModel::Dd(t) => match expression(symbols, t) {
            Ok(v) => Ok(bytes::le(v as int, 4)),
            Err(x) => Err(x),
        },
        EmitModel::Jcc(code, t) => match expression(symbols, t) {
            Ok(v) => branch(seq![0x0F, code], v, addr),
            Err(x) => Err(x),
        },
        EmitModel::Insn(i) => insn_bytes(i, symbols),
    }
}

/// Assembles a relative jump or call.
fn rel_branch(opcode: &[u8], target: u64, addr: u64) -> (r: Result<Vec<u8>, String>)
    requires
        1 <= opcode@.len() <= 2,
    ensures
        asm_x86::bytes_result(r) == branch(opcode@, target, addr),
{
    let len: u64 = opcode.len() as u64 + 4;
    let rel: i64 = bytes::wrap_u64(target.wrapping_sub(addr.wrapping_add(len)));
    proof {
        assert(rel == bytes::wrapped(target - (addr + opcode@.len() + 4)));
    }
    if rel < i32::MIN as i64 || rel > i32::MAX as i64 {
        let mut e: String = asm_x86::message_hex("salto fora do alcance rel32 (", rel);
        e.append("); use jmp64 ou aloque o cave mais perto");
        return Err(e);
    }
    let mut v: Vec<u8> = Vec::new();
    bytes::push_bytes(&mut v, opcode);
    bytes::push_le(&mut v, bytes::as_unsigned(rel), 4);
    proof {
        bytes::lemma_le_of_remainder(rel as int, 4);
        assert(v@ =~= opcode@ + bytes::le(rel as int, 4));
    }
    Ok(v)
}

/// Assembles a relative jump or call to an expression.
fn branch_to(opcode: &[u8], symbols: &StringHashMap<u64>, t: &str, addr: u64) -> (r: Result<
    Vec<u8>,
    String,
>)
    requires
        1 <= opcode@.len() <= 2,
    ensures
        asm_x86::bytes_result(r) == (match expression(symbols@, t@) {
            Ok(v) => branch(opcode@, v, addr),
            Err(x) => Err(x),
        }),
{
    match parse_expr(symbols, &text::chars_of(t)) {
        Ok(target) => rel_branch(opcode, target, addr),
        Err(e) => Err(e),
    }
}

/// Finds the value of the immediate of an instruction.
fn resolve_immediate(symbols: &StringHashMap<u64>, i: &asm_x86::Insn) -> (r: Result<i64, String>)
    ensures
        match r {
            Ok(n) => immediate_value(symbols@, i.model().imm) == Ok::<int, Seq<char>>(n as int),
            Err(e) => immediate_value(symbols@, i.model().imm) == Err::<int, Seq<char>>(e@),
        },
{
    match i.imm_text() {
        None => Ok(0),
        Some(t) => match asm_x86::parse_num(t) {
            Some(n) => Ok(n),
            None => match parse_expr(symbols, &text::chars_of(t)) {
                Ok(v) => Ok(bytes::wrap_u64(v)),
                Err(e) => Err(e),
            },
        },
    }
}

/// Assembles an instruction.
fn assemble(i: &asm_x86::Insn, symbols: &StringHashMap<u64>) -> (r: Result<Vec<u8>, String>)
    ensures
        asm_x86::bytes_result(r) == insn_bytes(i.model(), symbols@),
{
    reveal(insn_bytes);
    match resolve_immediate(symbols, i) {
        Ok(n) => i.build(n),
        Err(e) => Err(e),
    }
}

impl Emit {
    /// The value of the emission.
    pub open spec fn model(self) -> EmitModel {
        match self {
            Emit::Db(b) => EmitModel::Db(b@),
            Emit::Nop(n) => EmitModel::Nop(n),
            Emit::JmpRel(t) => EmitModel::JmpRel(t@),
            Emit::CallRel(t) => EmitModel::CallRel(t@),
            Emit::JmpAbs(t) => EmitModel::JmpAbs(t@),
            Emit::Dq(t) => EmitModel::Dq(t@),
            Emit::Dd(t) => EmitModel::Dd(t@),
            Emit::Jcc(code, t) => EmitModel::Jcc(code, t@),
            Emit::Insn(i) => EmitModel::Insn(i.model()),
        }
    }

    /// How many bytes are written.
    pub fn size(&self) -> (r: usize)
        ensures
            r == emit_size(self.model()),
    {
        match self {
            Emit::Db(b) => b.len(),
            Emit::Nop(n) => *n,
            Emit::JmpRel(_) => 5,
            Emit::CallRel(_) => 5,
            Emit::JmpAbs(_) => 14,
            Emit::Dq(_) => 8,
            Emit::Dd(_) => 4,
            Emit::Jcc(_, _) => 6,
            Emit::Insn(i) => i.size(),
        }
    }

    /// The bytes that are written at `addr`.
    pub fn resolve(&self, state: &AsmState, addr: u64) -> (r: Result<Vec<u8>, String>)
        ensures
            asm_x86::bytes_result(r) == emitted(self.model(), state.model().symbols, addr),
    {
        match self {
            Emit::Db(b) => {
                let mut v: Vec<u8> = Vec::new();
                bytes::push_bytes(&mut v, b);
                proof {
                    assert(v@ =~= b@);
                }
                Ok(v)
            },
            Emit::Nop(n) => {
                let mut v: Vec<u8> = Vec::new();
                for i in 0..*n
                    invariant
                        v@ == Seq::new(i as nat, |k: int| 0x90u8),
                {
                    v.push(0x90);
                    proof {
                        assert(v@ =~= Seq::new((i + 1) as nat, |k: int| 0x90u8));
                    }
                }
                Ok(v)
            },
            Emit::JmpRel(t) => {
                let mut code: Vec<u8> = Vec::new();
                code.push(0xE9);
                proof {
                    assert(code@ =~= seq![0xE9u8]);
                }
                branch_to(&code, &state.symbols, t.as_str(), addr)
            },
            Emit::CallRel(t) => {
                let mut code: Vec<u8> = Vec::new();
                code.push(0xE8);
                proof {
                    assert(code@ =~= seq![0xE8u8]);
                }
                branch_to(&code, &state.symbols, t.as_str(), addr)
            },
            Emit::Jcc(condition, t) => {
                let mut code: Vec<u8> = Vec::new();
                code.push(0x0F);
                code.push(*condition);
                proof {
                    assert(code@ =~= seq![0x0Fu8, *condition]);
                }
                branch_to(&code, &state.symbols, t.as_str(), addr)
            },
            Emit::Insn(i) => assemble(i, &state.symbols),
            Emit::JmpAbs(t) => match parse_expr(&state.symbols, &text::chars_of(t.as_str())) {
                Ok(target) => {
                    let mut v: Vec<u8> = Vec::new();
                    v.push(0xFF);
                    v.push(0x25);
                    v.push(0);
                    v.push(0);
                    v.push(0);
                    v.push(0);
                    proof {
                        assert(v@ =~= seq![0xFFu8, 0x25, 0, 0, 0, 0]);
                    }
                    bytes::push_le(&mut v, target, 8);
                    Ok(v)
                },
                Err(e) => Err(e),
            },
            Emit::Dq(t) => match parse_expr(&state.symbols, &text::chars_of(t.as_str())) {
                Ok(x) => {
                    let mut v: Vec<u8> = Vec::new();
                    bytes::push_le(&mut v, x, 8);
                    proof {
                        assert(v@ =~= bytes::le(x as int, 8));
                    }
                    Ok(v)
                },
                Err(e) => Err(e),
            },
            Emit::Dd(t) => match parse_expr(&state.symbols, &text::chars_of(t.as_str())) {
                Ok(x) => {
                    let mut v: Vec<u8> = Vec::new();
                    bytes::push_le(&mut v, x, 4);
                    proof {
                        assert(v@ =~= bytes::le(x as int, 4));
                    }
                    Ok(v)
                },
                Err(e) => Err(e),
            },
        }
    }
}

/// An emission takes exactly the bytes that were set aside for it, whatever
/// its symbols turn out to be.
pub proof fn lemma_emitted_size(e: EmitModel, symbols: Map<Seq<char>, u64>, addr: u64)
    requires
        emitted(e, symbols, addr) is Ok,
    ensures
        emitted(e, symbols, addr)->Ok_0.len() == emit_size(e),
{
    assert forall|n: int, k: nat| (#[trigger] bytes::le(n, k)).len() == k by {
        bytes::lemma_le_len(n, k);
    }
    if let EmitModel::Insn(i) = e {
        lemma_insn_size(i, symbols);
    }
}

proof fn lemma_insn_size(i: asm_x86::InsnModel, symbols: Map<Seq<char>, u64>)
    ensures
        insn_bytes(i, symbols) matches Ok(b) ==> b.len() == asm_x86::length(i.repr),
{
    reveal(insn_bytes);
    if insn_bytes(i, symbols) is Ok {
        asm_x86::lemma_size_fixed(i.repr, immediate_value(symbols, i.imm)->Ok_0);
    }
}

/// A relative jump or call ends at its target: the address behind it plus the
/// signed distance in its last four bytes, modulo 2^64.
pub proof fn lemma_branch_target(opcode: Seq<u8>, target: u64, addr: u64)
    requires
        branch(opcode, target, addr) is Ok,
    ensures
        ({
            let b = branch(opcode, target, addr)->Ok_0;
            let d = bytes::le_value(b.skip(opcode.len() as int));
            let rel = if d < 0x8000_0000 {
                d
            } else {
                d - 0x1_0000_0000
            };
            &&& b.take(opcode.len() as int) == opcode
            &&& (addr + b.len() + rel) % 0x1_0000_0000_0000_0000 == target
        }),
{
    let b = branch(opcode, target, addr)->Ok_0;
    let rel = bytes::wrapped(target - (addr + opcode.len() + 4));
    assert(b.take(opcode.len() as int) =~= opcode);
    assert(b.skip(opcode.len() as int) =~= bytes::le(rel, 4));
    bytes::lemma_le_len(rel, 4);
    bytes::lemma_le_roundtrip(rel, 4);
    bytes::lemma_256_to_8();
}

// ---------------------------------------------------------------------------
// Lines
// ---------------------------------------------------------------------------
/// A line without its comment and the space around it.
pub open spec fn cleaned(raw: Seq<char>) -> Seq<char> {
    match text::position(raw, "//"@) {
        Some(i) => text::trimmed(raw.take(i)),
        None => text::trimmed(raw),
    }
}

/// The heading of a section.
pub open spec fn heading(section: Section) -> Seq<char> {
    match section {
        Section::Enable => "[enable]"@,
        Section::Disable => "[disable]"@,
    }
}

/// Whether the first `n` lines end inside a section, and the lines of it among
/// them.
pub open spec fn section_of(lines: Seq<Seq<char>>, n: int, section: Section) -> (
    bool,
    Seq<Seq<char>>,
)
    decreases n,
{
    if n <= 0 {
        (false, Seq::empty())
    } else {
        let (active, out) = section_of(lines, n - 1, section);
        let line = cleaned(lines[n - 1]);
        let low = text::lowered(line);
        if line.len() == 0 {
            (active, out)
        } else if low == "[enable]"@ || low == "[disable]"@ {
            (low == heading(section), out)
        } else if active {
            (active, out.push(line))
        } else {
            (active, out)
        }
    }
}

/// The lines of a section of a script.
pub open spec fn script_lines(script: Seq<char>, section: Section) -> Seq<Seq<char>> {
    let lines = text::lines_of(script);
    section_of(lines, lines.len() as int, section).1
}

/// Extracts the lines of a section.
pub fn section_lines(script: &str, section: Section) -> (r: Vec<String>)
    ensures
        text::texts(r@) == script_lines(script@, section),
{
    let chars: Vec<char> = text::chars_of(script);
    let lines: Vec<&[char]> = text::lines(&chars);
    let slashes: Vec<char> = text::chars_of("//");
    let ghost all = text::lines_of(script@);
    let mut out: Vec<String> = Vec::new();
    let mut active: bool = false;
    let n: usize = lines.len();
    let mut i: usize = 0;
    proof {
        assert(text::texts(out@) =~= Seq::<Seq<char>>::empty());
    }
    while i < n
        invariant
            n == lines@.len(),
            i <= n,
            text::views(lines@) == all,
            slashes@ == "//"@,
            section_of(all, i as int, section) == (active, text::texts(out@)),
        decreases n - i,
    {
        let raw: &[char] = lines[i];
        assert(all[i as int] == raw@);
        let line: &[char] = match text::find_text(raw, &slashes) {
            Some(k) => text::trim(text::up_to(raw, k)),
            None => text::trim(raw),
        };
        assert(line@ == cleaned(raw@));
        if line.len() > 0 {
            let low: Vec<char> = text::lowercase(line);
            let enable: bool = text::is_text(&low, "[enable]");
            let disable: bool = text::is_text(&low, "[disable]");
            if enable || disable {
                active = match section {
                    Section::Enable => enable,
                    Section::Disable => disable,
                };
            } else if active {
                let s: String = text::string_of(line);
                proof {
                    assert(text::texts(out@.push(s)) =~= text::texts(out@).push(line@));
                }
                out.push(s);
            }
        }
        i = i + 1;
    }
    out
}

/// The name and the arguments of a call: what stands before the first `(`, and
/// what stands between it and the last `)`.
pub open spec fn call(line: Seq<char>) -> Option<(Seq<char>, Seq<Seq<char>>)> {
    let open = text::first_in(line, text::Class::Is('('));
    let close = text::last_in(line, text::Class::Is(')'));
    if open >= line.len() || close < open {
        None
    } else {
        Some(
            (
                text::lowered(text::trimmed(line.take(open))),
                text::pieces(line.subrange(open + 1, close), ',').map_values(
                    |s: Seq<char>| text::trimmed(s),
                ),
            ),
        )
    }
}

/// Reads a call.
fn parse_call(line: &[char]) -> (r: Option<(Vec<char>, Vec<&[char]>)>)
    ensures
        match r {
            Some((name, args)) => call(line@) == Some((name@, text::views(args@))) && args@.len()
                >= 1,
            None => call(line@) is None,
        },
{
    let open: usize = text::find(line, text::Class::Is('('));
    if open >= line.len() {
        return None;
    }
    let close: usize = match text::rfind(line, text::Class::Is(')')) {
        Some(c) => c,
        None => {
            return None;
        },
    };
    if close < open {
        return None;
    }
    let name: Vec<char> = text::lowercase(text::trim(text::up_to(line, open)));
    proof {
        text::lemma_last_in(line@, text::Class::Is(')'));
        assert(open != close);
    }
    let inner: &[char] = vstd::slice::slice_subrange(line, open + 1, close);
    let parts: Vec<&[char]> = text::split(inner, ',');
    let mut args: Vec<&[char]> = Vec::new();
    let ghost want = text::pieces(inner@, ',').map_values(|s: Seq<char>| text::trimmed(s));
    for i in 0..parts.len()
        invariant
            text::views(parts@) == text::pieces(inner@, ','),
            want == text::pieces(inner@, ',').map_values(|s: Seq<char>| text::trimmed(s)),
            text::views(args@) == want.take(i as int),
            args@.len() == i,
    {
        let a: &[char] = text::trim(parts[i]);
        proof {
            assert(text::views(parts@)[i as int] == parts@[i as int]@);
            assert(text::views(args@.push(a)) =~= text::views(args@).push(a@));
            assert(want.take(i + 1) =~= want.take(i as int).push(want[i as int]));
        }
        args.push(a);
    }
    proof {
        assert(want.len() == parts@.len());
        assert(want.take(want.len() as int) =~= want);
    }
    Some((name, args))
}

/// What waits for the end of a section.
#[derive(Debug)]
pub enum Defer {
    Dealloc(String),
    Unregister(String),
}

/// The value of a `Defer`.
pub enum DeferModel {
    Dealloc(Seq<char>),
    Unregister(Seq<char>),
}

impl Defer {
    /// The value of the deferred command.
    pub open spec fn model(self) -> DeferModel {
        match self {
            Defer::Dealloc(n) => DeferModel::Dealloc(n@),
            Defer::Unregister(n) => DeferModel::Unregister(n@),
        }
    }
}

/// What a line asks for.
#[derive(Debug)]
pub enum Command {
    /// Move to a known address or define a label.
    Anchor(String),
    Emit(Emit),
    Alloc { name: String, size: usize, near: u64 },
    ScanModule { name: String, module: String, pattern: Vec<Option<u8>> },
    Scan { name: String, pattern: Vec<Option<u8>> },
    Defer(Defer),
    Nothing,
}

/// The value of a `Command`.
pub enum CommandModel {
    Anchor(Seq<char>),
    Emit(EmitModel),
    Alloc { name: Seq<char>, size: usize, near: u64 },
    ScanModule { name: Seq<char>, module: Seq<char>, pattern: Seq<Option<u8>> },
    Scan { name: Seq<char>, pattern: Seq<Option<u8>> },
    Defer(DeferModel),
    Nothing,
}

impl Command {
    /// The value of the command.
    pub open spec fn model(self) -> CommandModel {
        match self {
            Command::Anchor(n) => CommandModel::Anchor(n@),
            Command::Emit(e) => CommandModel::Emit(e.model()),
            Command::Alloc { name, size, near } => CommandModel::Alloc { name: name@, size, near },
            Command::ScanModule { name, module, pattern } => CommandModel::ScanModule {
                name: name@,
                module: module@,
                pattern: pattern@,
            },
            Command::Scan { name, pattern } => CommandModel::Scan {
                name: name@,
                pattern: pattern@,
            },
            Command::Defer(d) => CommandModel::Defer(d.model()),
            Command::Nothing => CommandModel::Nothing,
        }
    }
}

/// The value of a read command.
pub open spec fn command_result(r: Result<Command, String>) -> Result<CommandModel, Seq<char>> {
    match r {
        Ok(c) => Ok(c.model()),
        Err(e) => Err(e@),
    }
}

/// An argument, or nothing where there are too few.
pub open spec fn argument(args: Seq<Seq<char>>, i: int) -> Seq<char> {
    if i < args.len() {
        args[i]
    } else {
        Seq::empty()
    }
}

/// The allocation that a call asks for.
pub open spec fn allocation(args: Seq<Seq<char>>, symbols: Map<Seq<char>, u64>) -> Result<
    CommandModel,
    Seq<char>,
> {
    if args.len() < 2 || number(args[1]) is None {
        Err("alloc: tamanho invalido"@)
    } else {
        let size = (number(args[1])->0 as u64) as usize;
        if args.len() > 2 {
            match expression(symbols, args[2]) {
                Ok(near) => Ok(CommandModel::Alloc { name: args[0], size, near }),
                Err(e) => Err(e),
            }
        } else {
            Ok(CommandModel::Alloc { name: args[0], size, near: 0 })
        }
    }
}

/// The command that a call stands for.
pub open spec fn directive(
    name: Seq<char>,
    args: Seq<Seq<char>>,
    symbols: Map<Seq<char>, u64>,
) -> Result<CommandModel, Seq<char>> {
    if name == "alloc"@ {
        allocation(args, symbols)
    } else if name == "aobscanmodule"@ {
        if args.len() < 2 {
            Err("aobscanmodule: falta o modulo"@)
        } else {
            match pattern::pattern_of(argument(args, 2)) {
                Some(pattern) => Ok(
                    CommandModel::ScanModule { name: args[0], module: args[1], pattern },
                ),
                None => Err("aobscanmodule: padrao AOB invalido"@),
            }
        }
    } else if name == "aobscan"@ {
        match pattern::pattern_of(argument(args, 1)) {
            Some(pattern) => Ok(CommandModel::Scan { name: args[0], pattern }),
            None => Err("aobscan: padrao AOB invalido"@),
        }
    } else if name == "label"@ || name == "registersymbol"@ {
        Ok(CommandModel::Nothing)
    } else if name == "unregistersymbol"@ {
        Ok(CommandModel::Defer(DeferModel::Unregister(args[0])))
    } else if name == "dealloc"@ {
        Ok(CommandModel::Defer(DeferModel::Dealloc(args[0])))
    } else {
        Err("comando desconhecido: "@ + name)
    }
}

/// The first `n` of some raw bytes, or a message about the first that is none.
pub open spec fn raw_bytes(words: Seq<Seq<char>>, n: int) -> Result<Seq<u8>, Seq<char>>
    decreases n,
{
    if n <= 0 {
        Ok(Seq::empty())
    } else {
        match raw_bytes(words, n - 1) {
            Err(e) => Err(e),
            Ok(b) => match text::unsigned(words[n - 1], 16, 255) {
                Some(v) => Ok(b.push(v as u8)),
                None => Err("db: byte invalido '"@ + words[n - 1] + "'"@),
            },
        }
    }
}

/// How many bytes a `nop` fills: one, unless a larger number follows.
pub open spec fn nop_count(words: Seq<Seq<char>>) -> usize {
    if words.len() > 0 && number(words[0]) is Some {
        let n = (number(words[0])->0 as u64) as usize;
        if n < 1 {
            1
        } else {
            n
        }
    } else {
        1
    }
}

/// The second opcode byte of a conditional jump.
pub open spec fn condition(head: Seq<char>) -> Option<u8> {
    if head == "jo"@ {
        Some(0x80)
    } else if head == "jno"@ {
        Some(0x81)
    } else if head == "jb"@ || head == "jc"@ || head == "jnae"@ {
        Some(0x82)
    } else if head == "jae"@ || head == "jnb"@ || head == "jnc"@ {
        Some(0x83)
    } else if head == "je"@ || head == "jz"@ {
        Some(0x84)
    } else if head == "jne"@ || head == "jnz"@ {
        Some(0x85)
    } else if head == "jbe"@ || head == "jna"@ {
        Some(0x86)
    } else if head == "ja"@ || head == "jnbe"@ {
        Some(0x87)
    } else if head == "js"@ {
        Some(0x88)
    } else if head == "jns"@ {
        Some(0x89)
    } else if head == "jp"@ || head == "jpe"@ {
        Some(0x8A)
    } else if head == "jnp"@ || head == "jpo"@ {
        Some(0x8B)
    } else if head == "jl"@ || head == "jnge"@ {
        Some(0x8C)
    } else if head == "jge"@ || head == "jnl"@ {
        Some(0x8D)
    } else if head == "jle"@ || head == "jng"@ {
        Some(0x8E)
    } else if head == "jg"@ || head == "jnle"@ {
        Some(0x8F)
    } else {
        None
    }
}

/// The instruction that a line stands for, if its mnemonic is known; a message
/// if its operands are not valid or cannot be encoded.
#[verifier::opaque]
pub open spec fn coded(line: Seq<char>) -> Option<Result<EmitModel, Seq<char>>> {
    match asm_x86::assembled(line) {
        None => None,
        Some(Err(e)) => Some(Err(e)),
        Some(Ok(i)) => match asm_x86::encoded(i.repr, 0) {
            Ok(_) => Some(Ok(EmitModel::Insn(i))),
            Err(e) => Some(Err(e)),
        },
    }
}

/// The emission that a line with a head and the words behind it stands for.
pub open spec fn emission(head: Seq<char>, words: Seq<Seq<char>>, line: Seq<char>) -> Result<
    EmitModel,
    Seq<char>,
> {
    if head == "db"@ {
        match raw_bytes(words, words.len() as int) {
            Ok(b) => Ok(EmitModel::Db(b)),
            Err(e) => Err(e),
        }
    } else if head == "nop"@ {
        Ok(EmitModel::Nop(nop_count(words)))
    } else if head == "jmp"@ {
        Ok(EmitModel::JmpRel(text::joined(words)))
    } else if head == "call"@ {
        Ok(EmitModel::CallRel(text::joined(words)))
    } else if head == "jmp64"@ {
        Ok(EmitModel::JmpAbs(text::joined(words)))
    } else if head == "dq"@ {
        Ok(EmitModel::Dq(text::joined(words)))
    } else if head == "dd"@ {
        Ok(EmitModel::Dd(text::joined(words)))
    } else if condition(head) is Some {
        Ok(EmitModel::Jcc(condition(head)->0, text::joined(words)))
    } else {
        match coded(line) {
            Some(r) => r,
            None => Err("instrucao nao suportada: '"@ + head + "' (use db para bytes crus)"@),
        }
    }
}

/// The emission that a line stands for.
pub open spec fn line_emission(line: Seq<char>) -> Result<EmitModel, Seq<char>> {
    let words = text::words_of(line);
    if words.len() == 0 {
        emission(text::lowered(Seq::empty()), words, line)
    } else {
        emission(text::lowered(words[0]), words.skip(1), line)
    }
}

/// The command that writes an emission.
pub open spec fn writes(r: Result<EmitModel, Seq<char>>) -> Result<CommandModel, Seq<char>> {
    match r {
        Ok(e) => Ok(CommandModel::Emit(e)),
        Err(e) => Err(e),
    }
}

/// The command that a line stands for. An instruction may have brackets too.
pub open spec fn command(line: Seq<char>, symbols: Map<Seq<char>, u64>) -> Result<
    CommandModel,
    Seq<char>,
> {
    if line.len() > 0 && line.last() == ':' {
        Ok(CommandModel::Anchor(text::trimmed(line.drop_last())))
    } else {
        match call(line) {
            Some((name, args)) => match coded(line) {
                Some(r) => writes(r),
                None => directive(name, args, symbols),
            },
            None => writes(line_emission(line)),
        }
    }
}

/// Reads the allocation that a call asks for.
fn parse_alloc(args: &Vec<&[char]>, symbols: &StringHashMap<u64>) -> (r: Result<Command, String>)
    requires
        args@.len() >= 1,
    ensures
        command_result(r) == allocation(text::views(args@), symbols@),
{
    proof {
        assert forall|i: int| 0 <= i < args@.len() implies text::views(args@)[i]
            == #[trigger] args@[i]@ by {}
    }
    if args.len() < 2 {
        return Err("alloc: tamanho invalido".to_owned());
    }
    let size: usize = match parse_num(args[1]) {
        Some(n) => n as usize,
        None => {
            return Err("alloc: tamanho invalido".to_owned());
        },
    };
    let near: u64 = if args.len() > 2 {
        match parse_expr(symbols, args[2]) {
            Ok(v) => v,
            Err(e) => {
                return Err(e);
            },
        }
    } else {
        0
    };
    Ok(Command::Alloc { name: text::string_of(args[0]), size, near })
}

/// Reads the command that a call stands for.
fn parse_directive(name: &[char], args: &Vec<&[char]>, symbols: &StringHashMap<u64>) -> (r: Result<
    Command,
    String,
>)
    requires
        args@.len() >= 1,
    ensures
        command_result(r) == directive(name@, text::views(args@), symbols@),
{
    proof {
        assert forall|i: int| 0 <= i < args@.len() implies text::views(args@)[i]
            == #[trigger] args@[i]@ by {}
    }
    if text::is_text(name, "alloc") {
        return parse_alloc(args, symbols);
    }
    let first: String = text::string_of(args[0]);
    if text::is_text(name, "aobscanmodule") {
        if args.len() < 2 {
            return Err("aobscanmodule: falta o modulo".to_owned());
        }
        let module: String = text::string_of(args[1]);
        return match pattern::parse_aob(argument_at(args, 2).as_str()) {
            Some(pattern) => Ok(Command::ScanModule { name: first, module, pattern }),
            None => Err("aobscanmodule: padrao AOB invalido".to_owned()),
        };
    }
    if text::is_text(name, "aobscan") {
        return match pattern::parse_aob(argument_at(args, 1).as_str()) {
            Some(pattern) => Ok(Command::Scan { name: first, pattern }),
            None => Err("aobscan: padrao AOB invalido".to_owned()),
        };
    }
    if text::is_text(name, "label") || text::is_text(name, "registersymbol") {
        return Ok(Command::Nothing);
    }
    if text::is_text(name, "unregistersymbol") {
        return Ok(Command::Defer(Defer::Unregister(first)));
    }
    if text::is_text(name, "dealloc") {
        return Ok(Command::Defer(Defer::Dealloc(first)));
    }
    let mut e: String = "comando desconhecido: ".to_owned();
    text::append_chars(&mut e, name);
    Err(e)
}

/// An argument, or nothing where there are too few.
fn argument_at(args: &Vec<&[char]>, i: usize) -> (r: String)
    ensures
        r@ == argument(text::views(args@), i as int),
{
    if i < args.len() {
        text::string_of(args[i])
    } else {
        String::new()
    }
}

/// The first error among raw bytes is the error of all.
proof fn lemma_raw_error(words: Seq<Seq<char>>, i: int, n: int)
    requires
        0 <= i <= n,
        raw_bytes(words, i) is Err,
    ensures
        raw_bytes(words, n) == raw_bytes(words, i),
    decreases n,
{
    if i < n {
        lemma_raw_error(words, i, n - 1);
    }
}

/// Reads raw bytes.
fn parse_bytes(words: &Vec<&[char]>) -> (r: Result<Vec<u8>, String>)
    ensures
        asm_x86::bytes_result(r) == raw_bytes(text::views(words@), words@.len() as int),
{
    let ghost all = text::views(words@);
    let mut out: Vec<u8> = Vec::new();
    let n: usize = words.len();
    let mut i: usize = 0;
    while i < n
        invariant
            n == words@.len(),
            i <= n,
            all == text::views(words@),
            raw_bytes(all, i as int) == Ok::<Seq<u8>, Seq<char>>(out@),
        decreases n - i,
    {
        assert(all[i as int] == words@[i as int]@);
        match text::parse_unsigned(words[i], 16, 255) {
            Some(v) => {
                out.push(v as u8);
            },
            None => {
                let mut e: String = "db: byte invalido '".to_owned();
                text::append_chars(&mut e, words[i]);
                e.append("'");
                proof {
                    lemma_raw_error(all, i + 1, n as int);
                }
                return Err(e);
            },
        }
        i = i + 1;
    }
    Ok(out)
}

/// Reads how many bytes a `nop` fills.
fn parse_count(words: &Vec<&[char]>) -> (r: usize)
    ensures
        r == nop_count(text::views(words@)),
{
    if words.len() > 0 {
        assert(text::views(words@)[0] == words@[0]@);
        match parse_num(words[0]) {
            Some(v) => {
                let n: usize = v as usize;
                if n < 1 {
                    1
                } else {
                    n
                }
            },
            None => 1,
        }
    } else {
        1
    }
}

/// The value of a read emission.
pub open spec fn emit_result(r: Result<Emit, String>) -> Result<EmitModel, Seq<char>> {
    match r {
        Ok(e) => Ok(e.model()),
        Err(e) => Err(e@),
    }
}

/// Finds the second opcode byte of a conditional jump.
fn condition_code(head: &[char]) -> (r: Option<u8>)
    ensures
        r == condition(head@),
{
    if text::is_text(head, "jo") {
        Some(0x80)
    } else if text::is_text(head, "jno") {
        Some(0x81)
    } else if text::is_text(head, "jb") || text::is_text(head, "jc") || text::is_text(head, "jnae") {
        Some(0x82)
    } else if text::is_text(head, "jae") || text::is_text(head, "jnb") || text::is_text(head, "jnc") {
        Some(0x83)
    } else if text::is_text(head, "je") || text::is_text(head, "jz") {
        Some(0x84)
    } else if text::is_text(head, "jne") || text::is_text(head, "jnz") {
        Some(0x85)
    } else if text::is_text(head, "jbe") || text::is_text(head, "jna") {
        Some(0x86)
    } else if text::is_text(head, "ja") || text::is_text(head, "jnbe") {
        Some(0x87)
    } else if text::is_text(head, "js") {
        Some(0x88)
    } else if text::is_text(head, "jns") {
        Some(0x89)
    } else if text::is_text(head, "jp") || text::is_text(head, "jpe") {
        Some(0x8A)
    } else if text::is_text(head, "jnp") || text::is_text(head, "jpo") {
        Some(0x8B)
    } else if text::is_text(head, "jl") || text::is_text(head, "jnge") {
        Some(0x8C)
    } else if text::is_text(head, "jge") || text::is_text(head, "jnl") {
        Some(0x8D)
    } else if text::is_text(head, "jle") || text::is_text(head, "jng") {
        Some(0x8E)
    } else if text::is_text(head, "jg") || text::is_text(head, "jnle") {
        Some(0x8F)
    } else {
        None
    }
}

/// Reads a line as an instruction.
fn parse_instruction(line: &[char]) -> (r: Option<Result<Emit, String>>)
    ensures
        match r {
            Some(e) => coded(line@) == Some(emit_result(e)),
            None => coded(line@) is None,
        },
{
    proof {
        reveal(coded);
    }
    match asm_x86::parse(text::string_of(line).as_str()) {
        None => None,
        Some(Err(e)) => Some(Err(e)),
        Some(Ok(i)) => match i.build(0) {
            Ok(_) => Some(Ok(Emit::Insn(i))),
            Err(e) => Some(Err(e)),
        },
    }
}

/// Reads an emission with a head and the words behind it.
fn parse_emission(head: &[char], words: &Vec<&[char]>, line: &[char]) -> (r: Result<Emit, String>)
    ensures
        emit_result(r) == emission(head@, text::views(words@), line@),
{
    if text::is_text(head, "db") {
        return match parse_bytes(words) {
            Ok(b) => Ok(Emit::Db(b)),
            Err(e) => Err(e),
        };
    }
    if text::is_text(head, "nop") {
        return Ok(Emit::Nop(parse_count(words)));
    }
    let rest: String = text::string_of(&text::concat_all(words));
    if text::is_text(head, "jmp") {
        Ok(Emit::JmpRel(rest))
    } else if text::is_text(head, "call") {
        Ok(Emit::CallRel(rest))
    } else if text::is_text(head, "jmp64") {
        Ok(Emit::JmpAbs(rest))
    } else if text::is_text(head, "dq") {
        Ok(Emit::Dq(rest))
    } else if text::is_text(head, "dd") {
        Ok(Emit::Dd(rest))
    } else {
        match condition_code(head) {
            Some(code) => {
                return Ok(Emit::Jcc(code, rest));
            },
            None => {},
        }
        match parse_instruction(line) {
            Some(r) => r,
            None => {
                let mut e: String = "instrucao nao suportada: '".to_owned();
                text::append_chars(&mut e, head);
                e.append("' (use db para bytes crus)");
                Err(e)
            },
        }
    }
}

/// Reads the emission that a line stands for.
fn parse_line_emission(line: &[char]) -> (r: Result<Emit, String>)
    ensures
        emit_result(r) == line_emission(line@),
{
    let all: Vec<&[char]> = text::words(line);
    if all.len() == 0 {
        let none: Vec<char> = Vec::new();
        proof {
            assert(none@ =~= Seq::<char>::empty());
        }
        let head: Vec<char> = text::lowercase(&none);
        return parse_emission(&head, &all, line);
    }
    let mut words: Vec<&[char]> = all;
    let first: &[char] = words.remove(0);
    proof {
        assert(text::views(words@) =~= text::words_of(line@).skip(1));
        assert(first@ == text::words_of(line@)[0]);
    }
    let head: Vec<char> = text::lowercase(first);
    parse_emission(&head, &words, line)
}

/// Makes the command that writes an emission.
fn write_command(r: Result<Emit, String>) -> (c: Result<Command, String>)
    ensures
        command_result(c) == writes(emit_result(r)),
{
    match r {
        Ok(e) => Ok(Command::Emit(e)),
        Err(e) => Err(e),
    }
}

/// Reads the command that a line stands for.
pub fn parse_command(line: &str, state: &AsmState) -> (r: Result<Command, String>)
    ensures
        command_result(r) == command(line@, state.model().symbols),
{
    let chars: Vec<char> = text::chars_of(line);
    let n: usize = chars.len();
    if n > 0 && chars[n - 1] == ':' {
        let name: &[char] = text::trim(text::up_to(&chars, n - 1));
        proof {
            assert(chars@.take(n - 1) =~= line@.drop_last());
        }
        return Ok(Command::Anchor(text::string_of(name)));
    }
    match parse_call(&chars) {
        Some((name, args)) => match parse_instruction(&chars) {
            Some(r) => write_command(r),
            None => parse_directive(&name, &args, &state.symbols),
        },
        None => write_command(parse_line_emission(&chars)),
    }
}

// ---------------------------------------------------------------------------
// Running a section
// ---------------------------------------------------------------------------
/// What is placed in memory, in script order.
#[derive(Debug)]
pub enum Item {
    Anchor(String),
    Emit(Emit),
}

/// The value of an `Item`.
pub enum ItemModel {
    Anchor(Seq<char>),
    Emit(EmitModel),
}

impl Item {
    /// The value of the item.
    pub open spec fn model(self) -> ItemModel {
        match self {
            Item::Anchor(n) => ItemModel::Anchor(n@),
            Item::Emit(e) => ItemModel::Emit(e.model()),
        }
    }
}

/// Where a run stands.
#[derive(Clone, Copy, Debug, PartialEq, Eq, Structural)]
pub enum Phase {
    /// Reading lines.
    Reading,
    /// Writing what was read.
    Writing,
    /// Releasing and forgetting.
    Closing,
    /// Finished.
    Over,
}

/// The outside work that a run waits for.
#[derive(Debug)]
pub enum Wait {
    Nothing,
    Alloc { name: String, size: usize },
    ScanModule { name: String, module: String },
    Scan { name: String },
    Write { addr: u64, len: usize },
    Free { name: String, addr: u64 },
}

/// The value of a `Wait`.
pub enum WaitModel {
    Nothing,
    Alloc { name: Seq<char>, size: usize },
    ScanModule { name: Seq<char>, module: Seq<char> },
    Scan { name: Seq<char> },
    Write { addr: u64, len: usize },
    Free { name: Seq<char>, addr: u64 },
}

impl Wait {
    /// The value of the wait.
    pub open spec fn model(self) -> WaitModel {
        match self {
            Wait::Nothing => WaitModel::Nothing,
            Wait::Alloc { name, size } => WaitModel::Alloc { name: name@, size },
            Wait::ScanModule { name, module } => WaitModel::ScanModule {
                name: name@,
                module: module@,
            },
            Wait::Scan { name } => WaitModel::Scan { name: name@ },
            Wait::Write { addr, len } => WaitModel::Write { addr, len },
            Wait::Free { name, addr } => WaitModel::Free { name: name@, addr },
        }
    }
}

/// The outcome of outside work.
#[derive(Clone, Copy, Debug, PartialEq, Eq, Structural)]
pub enum Event {
    /// The run begins.
    Start,
    /// The address of an allocation or of a match.
    Address(u64),
    /// The bytes were written, or the memory was freed.
    Succeeded,
    /// Nothing was allocated, found or written.
    Failed,
}

/// The outside work that a run asks for.
#[derive(Debug)]
pub enum Action {
    /// Allocate executable memory, near an address unless that is zero.
    Alloc { size: usize, near: u64 },
    /// Search a pattern in a module.
    ScanModule { module: String, pattern: Vec<Option<u8>> },
    /// Search a pattern everywhere.
    Scan { pattern: Vec<Option<u8>> },
    /// Write code.
    Write { addr: u64, bytes: Vec<u8> },
    /// Free an allocation.
    Free { addr: u64 },
    /// The run is over: its log, or a message.
    Done(Result<Vec<String>, String>),
}

/// The value of an `Action`.
pub enum ActionModel {
    Alloc { size: usize, near: u64 },
    ScanModule { module: Seq<char>, pattern: Seq<Option<u8>> },
    Scan { pattern: Seq<Option<u8>> },
    Write { addr: u64, bytes: Seq<u8> },
    Free { addr: u64 },
    Done(Result<Seq<Seq<char>>, Seq<char>>),
}

impl Action {
    /// The value of the action.
    pub open spec fn model(self) -> ActionModel {
        match self {
            Action::Alloc { size, near } => ActionModel::Alloc { size, near },
            Action::ScanModule { module, pattern } => ActionModel::ScanModule {
                module: module@,
                pattern: pattern@,
            },
            Action::Scan { pattern } => ActionModel::Scan { pattern: pattern@ },
            Action::Write { addr, bytes } => ActionModel::Write { addr, bytes: bytes@ },
            Action::Free { addr } => ActionModel::Free { addr },
            Action::Done(Ok(log)) => ActionModel::Done(Ok(text::texts(log@))),
            Action::Done(Err(e)) => ActionModel::Done(Err(e@)),
        }
    }
}

/// A section that is being run.
pub struct Run {
    pub lines: Vec<String>,
    /// How many lines have been read.
    pub line: usize,
    pub items: Vec<Item>,
    pub deferred: Vec<Defer>,
    /// How many deferred commands have been carried out.
    pub closed: usize,
    pub placed: Vec<(u64, Emit)>,
    /// How many placed emissions have been written.
    pub written: usize,
    pub log: Vec<String>,
    pub wait: Wait,
    pub phase: Phase,
}

/// The value of a `Run`.
#[verifier::ext_equal]
pub struct RunModel {
    pub lines: Seq<Seq<char>>,
    pub line: int,
    pub items: Seq<ItemModel>,
    pub deferred: Seq<DeferModel>,
    pub closed: int,
    pub placed: Seq<(u64, EmitModel)>,
    pub written: int,
    pub log: Seq<Seq<char>>,
    pub wait: WaitModel,
    pub phase: Phase,
}

/// The values of items.
pub open spec fn item_models(v: Seq<Item>) -> Seq<ItemModel> {
    v.map_values(|i: Item| i.model())
}

/// The values of deferred commands.
pub open spec fn defer_models(v: Seq<Defer>) -> Seq<DeferModel> {
    v.map_values(|d: Defer| d.model())
}

/// The values of placed emissions.
pub open spec fn placed_models(v: Seq<(u64, Emit)>) -> Seq<(u64, EmitModel)> {
    v.map_values(|p: (u64, Emit)| (p.0, p.1.model()))
}

impl Run {
    /// The value of the run.
    pub open spec fn model(self) -> RunModel {
        RunModel {
            lines: text::texts(self.lines@),
            line: self.line as int,
            items: item_models(self.items@),
            deferred: defer_models(self.deferred@),
            closed: self.closed as int,
            placed: placed_models(self.placed@),
            written: self.written as int,
            log: text::texts(self.log@),
            wait: self.wait.model(),
            phase: self.phase,
        }
    }
}

/// A number as 16 hexadecimal digits.
pub open spec fn address_text(a: u64) -> Seq<char> {
    text::padded(text::hex(a as nat), 16)
}

/// A finished run.
pub open spec fn over(
    r: RunModel,
    s: StateModel,
    result: Result<Seq<Seq<char>>, Seq<char>>,
) -> (RunModel, StateModel, ActionModel) {
    (RunModel { phase: Phase::Over, log: Seq::empty(), ..r }, s, ActionModel::Done(result))
}

/// Takes in the outcome of the outside work.
pub open spec fn settled(r: RunModel, s: StateModel, event: Event) -> Result<
    (RunModel, StateModel),
    Seq<char>,
> {
    match r.wait {
        WaitModel::Nothing => Ok((r, s)),
        WaitModel::Alloc { name, size } => match event {
            Event::Address(a) => Ok(
                (
                    RunModel {
                        log: r.log.push(
                            "alloc "@ + name + " = "@ + address_text(a) + " ("@ + text::decimal(
                                size as nat,
                            ) + " bytes)"@,
                        ),
                        ..r
                    },
                    StateModel {
                        symbols: s.symbols.insert(name, a),
                        allocs: s.allocs.push((name, a, size)),
                    },
                ),
            ),
            _ => Err("alloc: VirtualAllocEx falhou"@),
        },
        WaitModel::ScanModule { name, module } => match event {
            Event::Address(a) => Ok(
                (
                    RunModel {
                        log: r.log.push("aobscanmodule "@ + name + " = "@ + address_text(a)),
                        ..r
                    },
                    StateModel { symbols: s.symbols.insert(name, a), ..s },
                ),
            ),
            _ => Err("aobscanmodule: padrao nao encontrado em "@ + module),
        },
        WaitModel::Scan { name } => match event {
            Event::Address(a) => Ok(
                (
                    RunModel {
                        log: r.log.push("aobscan "@ + name + " = "@ + address_text(a)),
                        ..r
                    },
                    StateModel { symbols: s.symbols.insert(name, a), ..s },
                ),
            ),
            _ => Err("aobscan: padrao nao encontrado"@),
        },
        WaitModel::Write { addr, len } => if event == Event::Succeeded {
            Ok(
                (
                    RunModel {
                        log: r.log.push(
                            "escrito "@ + text::decimal(len as nat) + " bytes em "@
                                + address_text(addr),
                        ),
                        ..r
                    },
                    s,
                ),
            )
        } else {
            Err(
                "falha ao escrever "@ + text::decimal(len as nat) + " bytes em "@ + address_text(
                    addr,
                ),
            )
        },
        WaitModel::Free { name, addr } => Ok(
            (
                RunModel {
                    log: r.log.push("dealloc "@ + name + " ("@ + address_text(addr) + ")"@),
                    ..r
                },
                StateModel { symbols: s.symbols.remove(name), ..s },
            ),
        ),
    }
}

/// Reads on until outside work is needed.
pub open spec fn reading(r: RunModel, s: StateModel) -> (RunModel, StateModel, ActionModel)
    decreases r.lines.len() - r.line,
{
    if r.line >= r.lines.len() {
        laying(r, s)
    } else {
        let next = RunModel { line: r.line + 1, ..r };
        match command(r.lines[r.line], s.symbols) {
            Err(e) => over(next, s, Err(e)),
            Ok(CommandModel::Nothing) => reading(next, s),
            Ok(CommandModel::Anchor(n)) => reading(
                RunModel { items: r.items.push(ItemModel::Anchor(n)), ..next },
                s,
            ),
            Ok(CommandModel::Emit(e)) => reading(
                RunModel { items: r.items.push(ItemModel::Emit(e)), ..next },
                s,
            ),
            Ok(CommandModel::Defer(d)) => reading(
                RunModel { deferred: r.deferred.push(d), ..next },
                s,
            ),
            Ok(CommandModel::Alloc { name, size, near }) => (
                RunModel { wait: WaitModel::Alloc { name, size }, ..next },
                s,
                ActionModel::Alloc { size, near },
            ),
            Ok(CommandModel::ScanModule { name, module, pattern }) => (
                RunModel { wait: WaitModel::ScanModule { name, module }, ..next },
                s,
                ActionModel::ScanModule { module, pattern },
            ),
            Ok(CommandModel::Scan { name, pattern }) => (
                RunModel { wait: WaitModel::Scan { name }, ..next },
                s,
                ActionModel::Scan { pattern },
            ),
        }
    }
}

/// Gives every item its address, from `cursor` on: an anchor with a known name
/// moves to its address, another one defines a label. The symbols after it,
/// and the emissions with their addresses.
pub open spec fn laid(
    items: Seq<ItemModel>,
    symbols: Map<Seq<char>, u64>,
    cursor: Option<u64>,
    placed: Seq<(u64, EmitModel)>,
) -> (Map<Seq<char>, u64>, Result<Seq<(u64, EmitModel)>, Seq<char>>)
    decreases items.len(),
{
    if items.len() == 0 {
        (symbols, Ok(placed))
    } else {
        match items[0] {
            ItemModel::Anchor(name) => if symbols.dom().contains(name) {
                laid(items.skip(1), symbols, Some(symbols[name]), placed)
            } else {
                match cursor {
                    Some(c) => laid(items.skip(1), symbols.insert(name, c), cursor, placed),
                    None => (
                        symbols,
                        Err(
                            "label '"@ + name
                                + ":' antes de um local de escrita (use newmem: ou o ponto de injecao)"@,
                        ),
                    ),
                }
            },
            ItemModel::Emit(e) => match cursor {
                Some(c) => laid(
                    items.skip(1),
                    symbols,
                    Some(combined(c, true, (emit_size(e) as u64))),
                    placed.push((c, e)),
                ),
                None => (
                    symbols,
                    Err(
                        "instrucao antes de definir onde escrever (falta uma ancora `nome:`)"@,
                    ),
                ),
            },
        }
    }
}

/// Places what was read, and goes on to write it.
pub open spec fn laying(r: RunModel, s: StateModel) -> (RunModel, StateModel, ActionModel) {
    let (symbols, placed) = laid(r.items, s.symbols, None, Seq::empty());
    let state = StateModel { symbols, ..s };
    let next = RunModel { items: Seq::empty(), ..r };
    match placed {
        Ok(p) => writing(RunModel { placed: p, phase: Phase::Writing, ..next }, state),
        Err(e) => over(next, state, Err(e)),
    }
}

/// Asks to write the next emission.
pub open spec fn writing(r: RunModel, s: StateModel) -> (RunModel, StateModel, ActionModel) {
    if r.written >= r.placed.len() {
        closing(RunModel { phase: Phase::Closing, ..r }, s)
    } else {
        let (addr, e) = r.placed[r.written];
        let next = RunModel { written: r.written + 1, ..r };
        match emitted(e, s.symbols, addr) {
            Err(x) => over(next, s, Err(x)),
            Ok(b) => (
                RunModel { wait: WaitModel::Write { addr, len: b.len() as usize }, ..next },
                s,
                ActionModel::Write { addr, bytes: b },
            ),
        }
    }
}

/// The index of the first allocation with a name.
pub open spec fn alloc_index(allocs: Seq<(Seq<char>, u64, usize)>, name: Seq<char>) -> Option<int>
    decreases allocs.len(),
{
    if allocs.len() == 0 {
        None
    } else if allocs[0].0 == name {
        Some(0)
    } else {
        match alloc_index(allocs.skip(1), name) {
            Some(i) => Some(i + 1),
            None => None,
        }
    }
}

/// Carries out the deferred commands until memory is to be freed.
pub open spec fn closing(r: RunModel, s: StateModel) -> (RunModel, StateModel, ActionModel)
    decreases r.deferred.len() - r.closed,
{
    if r.closed >= r.deferred.len() {
        over(r, s, Ok(r.log))
    } else {
        let next = RunModel { closed: r.closed + 1, ..r };
        match r.deferred[r.closed] {
            DeferModel::Unregister(name) => closing(
                next,
                StateModel { symbols: s.symbols.remove(name), ..s },
            ),
            DeferModel::Dealloc(name) => match alloc_index(s.allocs, name) {
                None => closing(next, s),
                Some(i) => (
                    RunModel { wait: WaitModel::Free { name, addr: s.allocs[i].1 }, ..next },
                    StateModel { allocs: s.allocs.remove(i), ..s },
                    ActionModel::Free { addr: s.allocs[i].1 },
                ),
            },
        }
    }
}

/// Goes on in the phase of the run.
pub open spec fn advanced(r: RunModel, s: StateModel) -> (RunModel, StateModel, ActionModel) {
    if r.lines.len() == 0 {
        over(r, s, Ok(seq!["(secao vazia)"@]))
    } else {
        match r.phase {
            Phase::Reading => reading(r, s),
            Phase::Writing => writing(r, s),
            _ => closing(r, s),
        }
    }
}

/// One step of a run: takes in the outcome of the last action and hands out
/// the next one.
pub open spec fn stepped(r: RunModel, s: StateModel, event: Event) -> (
    RunModel,
    StateModel,
    ActionModel,
) {
    let free = RunModel { wait: WaitModel::Nothing, ..r };
    match settled(r, s, event) {
        Err(e) => over(free, s, Err(e)),
        Ok((next, state)) => advanced(RunModel { wait: WaitModel::Nothing, ..next }, state),
    }
}

/// Writes an address as 16 hexadecimal digits.
fn write_address(a: u64) -> (r: String)
    ensures
        r@ == address_text(a),
{
    text::write_hex_padded(a, 16)
}

/// Builds a log line that ends in an address.
fn found_line(head: &str, name: &str, addr: u64) -> (r: String)
    ensures
        r@ == head@ + name@ + " = "@ + address_text(addr),
{
    let mut r: String = head.to_owned();
    r.append(name);
    r.append(" = ");
    r.append(write_address(addr).as_str());
    r
}

/// Builds a line about bytes at an address.
fn bytes_line(head: &str, len: usize, addr: u64) -> (r: String)
    ensures
        r@ == head@ + text::decimal(len as nat) + " bytes em "@ + address_text(addr),
{
    let mut r: String = head.to_owned();
    r.append(text::write_decimal(len as u64).as_str());
    r.append(" bytes em ");
    r.append(write_address(addr).as_str());
    r
}

/// A list of texts grows with the list.
proof fn lemma_texts_push(v: Seq<String>, s: String)
    ensures
        text::texts(v.push(s)) == text::texts(v).push(s@),
{
    assert(text::texts(v.push(s)) =~= text::texts(v).push(s@));
}

/// Finds the first allocation with a name.
fn find_alloc(allocs: &Vec<(String, u64, usize)>, name: &str) -> (r: Option<usize>)
    ensures
        match r {
            Some(i) => alloc_index(alloc_models(allocs@), name@) == Some(i as int) && i
                < allocs@.len(),
            None => alloc_index(alloc_models(allocs@), name@) is None,
        },
{
    let ghost all = alloc_models(allocs@);
    let n: usize = allocs.len();
    let mut i: usize = 0;
    proof {
        assert(all.skip(0) =~= all);
    }
    while i < n
        invariant
            n == allocs@.len(),
            i <= n,
            all == alloc_models(allocs@),
            match alloc_index(all.skip(i as int), name@) {
                Some(j) => alloc_index(all, name@) == Some(j + i),
                None => alloc_index(all, name@) is None,
            },
        decreases n - i,
    {
        proof {
            assert(all[i as int].0 == allocs@[i as int].0@);
            assert(all.skip(i as int).skip(1) =~= all.skip(i + 1));
        }
        if text::same_str(allocs[i].0.as_str(), name) {
            return Some(i);
        }
        i = i + 1;
    }
    None
}

impl Run {
    /// A run of a section of a script.
    pub fn begin(script: &str, section: Section) -> (r: Run)
        ensures
            r.model() == (RunModel {
                lines: script_lines(script@, section),
                line: 0,
                items: Seq::empty(),
                deferred: Seq::empty(),
                closed: 0,
                placed: Seq::empty(),
                written: 0,
                log: Seq::empty(),
                wait: WaitModel::Nothing,
                phase: Phase::Reading,
            }),
    {
        let r: Run = Run {
            lines: section_lines(script, section),
            line: 0,
            items: Vec::new(),
            deferred: Vec::new(),
            closed: 0,
            placed: Vec::new(),
            written: 0,
            log: Vec::new(),
            wait: Wait::Nothing,
            phase: Phase::Reading,
        };
        proof {
            assert(r.model().items =~= Seq::<ItemModel>::empty());
            assert(r.model().deferred =~= Seq::<DeferModel>::empty());
            assert(r.model().placed =~= Seq::<(u64, EmitModel)>::empty());
            assert(r.model().log =~= Seq::<Seq<char>>::empty());
        }
        r
    }

    /// Ends the run with a message.
    fn fail(&mut self, e: String) -> (a: Action)
        ensures
            forall|s: StateModel|
                (final(self).model(), s, a.model()) == #[trigger] over(
                    old(self).model(),
                    s,
                    Err(e@),
                ),
    {
        self.phase = Phase::Over;
        self.log = Vec::new();
        proof {
            assert(self.model().log =~= Seq::<Seq<char>>::empty());
        }
        Action::Done(Err(e))
    }

    /// Takes in the outcome of the outside work.
    fn settle(&mut self, state: &mut AsmState, event: Event) -> (r: Result<(), String>)
        ensures
            match r {
                Ok(_) => match settled(old(self).model(), old(state).model(), event) {
                    Ok((next, s)) => final(self).model() == (RunModel {
                        wait: WaitModel::Nothing,
                        ..next
                    }) && final(state).model() == s,
                    Err(_) => false,
                },
                Err(e) => settled(old(self).model(), old(state).model(), event) == Err::<
                    (RunModel, StateModel),
                    Seq<char>,
                >(e@) && final(self).model() == (RunModel {
                    wait: WaitModel::Nothing,
                    ..old(self).model()
                }) && final(state).model() == old(state).model(),
            },
    {
        let mut wait: Wait = Wait::Nothing;
        std::mem::swap(&mut wait, &mut self.wait);
        match wait {
            Wait::Nothing => {},
            Wait::Alloc { name, size } => match event {
                Event::Address(a) => {
                    let mut line: String = found_line("alloc ", name.as_str(), a);
                    line.append(" (");
                    line.append(text::write_decimal(size as u64).as_str());
                    line.append(" bytes)");
                    proof {
                        lemma_texts_push(self.log@, line);
                    }
                    self.log.push(line);
                    let ghost before = state.allocs@;
                    let key: String = name.clone();
                    state.symbols.insert(key, a);
                    state.allocs.push((name, a, size));
                    proof {
                        assert(alloc_models(state.allocs@) =~= alloc_models(before).push(
                            (name@, a, size),
                        ));
                    }
                },
                _ => {
                    return Err("alloc: VirtualAllocEx falhou".to_owned());
                },
            },
            Wait::ScanModule { name, module } => match event {
                Event::Address(a) => {
                    let line: String = found_line("aobscanmodule ", name.as_str(), a);
                    proof {
                        lemma_texts_push(self.log@, line);
                    }
                    self.log.push(line);
                    state.symbols.insert(name, a);
                },
                _ => {
                    let mut e: String = "aobscanmodule: padrao nao encontrado em ".to_owned();
                    e.append(module.as_str());
                    return Err(e);
                },
            },
            Wait::Scan { name } => match event {
                Event::Address(a) => {
                    let line: String = found_line("aobscan ", name.as_str(), a);
                    proof {
                        lemma_texts_push(self.log@, line);
                    }
                    self.log.push(line);
                    state.symbols.insert(name, a);
                },
                _ => {
                    return Err("aobscan: padrao nao encontrado".to_owned());
                },
            },
            Wait::Write { addr, len } => {
                if event == Event::Succeeded {
                    let line: String = bytes_line("escrito ", len, addr);
                    proof {
                        lemma_texts_push(self.log@, line);
                    }
                    self.log.push(line);
                } else {
                    return Err(bytes_line("falha ao escrever ", len, addr));
                }
            },
            Wait::Free { name, addr } => {
                let mut line: String = "dealloc ".to_owned();
                line.append(name.as_str());
                line.append(" (");
                line.append(write_address(addr).as_str());
                line.append(")");
                proof {
                    lemma_texts_push(self.log@, line);
                }
                self.log.push(line);
                state.symbols.remove(name.as_str());
            },
        }
        Ok(())
    }

    /// Carries out the deferred commands until memory is to be freed.
    fn close(&mut self, state: &mut AsmState) -> (a: Action)
        requires
            old(self).wait is Nothing,
        ensures
            (final(self).model(), final(state).model(), a.model()) == closing(
                old(self).model(),
                old(state).model(),
            ),
    {
        let ghost goal = closing(self.model(), state.model());
        let n: usize = self.deferred.len();
        while self.closed < n
            invariant
                n == self.deferred@.len(),
                self.wait is Nothing,
                closing(self.model(), state.model()) == goal,
                goal == closing(old(self).model(), old(state).model()),
            decreases n - self.closed,
        {
            let at: usize = self.closed;
            self.closed = at + 1;
            proof {
                assert(defer_models(self.deferred@)[at as int] == self.deferred@[at as int].model());
            }
            match &self.deferred[at] {
                Defer::Unregister(name) => {
                    state.symbols.remove(name.as_str());
                },
                Defer::Dealloc(name) => {
                    match find_alloc(&state.allocs, name.as_str()) {
                        Some(i) => {
                            let ghost before = state.allocs@;
                            let key: String = name.clone();
                            let (_, addr, _) = state.allocs.remove(i);
                            proof {
                                assert(alloc_models(before)[i as int].1 == addr);
                                assert(alloc_models(state.allocs@) =~= alloc_models(before).remove(
                                    i as int,
                                ));
                            }
                            self.wait = Wait::Free { name: key, addr };
                            return Action::Free { addr };
                        },
                        None => {},
                    }
                },
            }
        }
        let mut log: Vec<String> = Vec::new();
        std::mem::swap(&mut log, &mut self.log);
        self.phase = Phase::Over;
        proof {
            assert(self.model().log =~= Seq::<Seq<char>>::empty());
        }
        Action::Done(Ok(log))
    }

    /// Asks to write the next emission.
    fn write(&mut self, state: &mut AsmState) -> (a: Action)
        requires
            old(self).wait is Nothing,
        ensures
            (final(self).model(), final(state).model(), a.model()) == writing(
                old(self).model(),
                old(state).model(),
            ),
    {
        if self.written >= self.placed.len() {
            self.phase = Phase::Closing;
            return self.close(state);
        }
        let at: usize = self.written;
        self.written = at + 1;
        proof {
            assert(placed_models(self.placed@)[at as int] == (
                self.placed@[at as int].0,
                self.placed@[at as int].1.model(),
            ));
        }
        let addr: u64 = self.placed[at].0;
        let resolved: Result<Vec<u8>, String> = self.placed[at].1.resolve(state, addr);
        match resolved {
            Err(e) => self.fail(e),
            Ok(bytes) => {
                let len: usize = bytes.len();
                self.wait = Wait::Write { addr, len };
                Action::Write { addr, bytes }
            },
        }
    }

    /// Places what was read, and goes on to write it.
    fn lay(&mut self, state: &mut AsmState) -> (a: Action)
        requires
            old(self).wait is Nothing,
        ensures
            (final(self).model(), final(state).model(), a.model()) == laying(
                old(self).model(),
                old(state).model(),
            ),
    {
        let ghost start = self.model();
        let ghost begin = state.model();
        let mut items: Vec<Item> = Vec::new();
        std::mem::swap(&mut items, &mut self.items);
        let mut placed: Vec<(u64, Emit)> = Vec::new();
        let mut cursor: Option<u64> = None;
        let ghost goal = laid(start.items, begin.symbols, None, Seq::empty());
        proof {
            assert(placed_models(placed@) =~= Seq::<(u64, EmitModel)>::empty());
            assert(self.model().items =~= Seq::<ItemModel>::empty());
        }
        while items.len() > 0
            invariant
                self.wait is Nothing,
                self.model() == (RunModel { items: Seq::empty(), ..start }),
                state.model() == (StateModel { symbols: state.symbols@, ..begin }),
                laid(item_models(items@), state.symbols@, cursor, placed_models(placed@)) == goal,
                goal == laid(start.items, begin.symbols, None, Seq::empty()),
                start == old(self).model(),
                begin == old(state).model(),
            decreases items@.len(),
        {
            let ghost before = items@;
            let item: Item = items.remove(0);
            proof {
                assert(item_models(items@) =~= item_models(before).skip(1));
                assert(item_models(before)[0] == item.model());
            }
            match item {
                Item::Anchor(name) => {
                    let known: Option<u64> = match state.symbols.get(name.as_str()) {
                        Some(v) => Some(*v),
                        None => None,
                    };
                    match known {
                        Some(v) => {
                            cursor = Some(v);
                        },
                        None => match cursor {
                            Some(c) => {
                                state.symbols.insert(name, c);
                            },
                            None => {
                                let mut e: String = "label '".to_owned();
                                e.append(name.as_str());
                                e.append(
                                    ":' antes de um local de escrita (use newmem: ou o ponto de injecao)",
                                );
                                return self.fail(e);
                            },
                        },
                    }
                },
                Item::Emit(e) => match cursor {
                    Some(c) => {
                        let size: usize = e.size();
                        cursor = Some(c.wrapping_add(size as u64));
                        let ghost earlier = placed@;
                        placed.push((c, e));
                        proof {
                            assert(placed_models(placed@) =~= placed_models(earlier).push(
                                (c, e.model()),
                            ));
                        }
                    },
                    None => {
                        return self.fail(
                            "instrucao antes de definir onde escrever (falta uma ancora `nome:`)".to_owned(),
                        );
                    },
                },
            }
        }
        self.placed = placed;
        self.phase = Phase::Writing;
        self.write(state)
    }

    /// Reads on until outside work is needed.
    fn read(&mut self, state: &mut AsmState) -> (a: Action)
        requires
            old(self).wait is Nothing,
        ensures
            (final(self).model(), final(state).model(), a.model()) == reading(
                old(self).model(),
                old(state).model(),
            ),
    {
        let ghost goal = reading(self.model(), state.model());
        let n: usize = self.lines.len();
        while self.line < n
            invariant
                n == self.lines@.len(),
                self.wait is Nothing,
                state.model() == old(state).model(),
                reading(self.model(), state.model()) == goal,
                goal == reading(old(self).model(), old(state).model()),
            decreases n - self.line,
        {
            let at: usize = self.line;
            self.line = at + 1;
            proof {
                assert(text::texts(self.lines@)[at as int] == self.lines@[at as int]@);
            }
            let command: Command = match parse_command(self.lines[at].as_str(), state) {
                Ok(c) => c,
                Err(e) => {
                    return self.fail(e);
                },
            };
            match command {
                Command::Nothing => {},
                Command::Anchor(name) => {
                    let item: Item = Item::Anchor(name);
                    proof {
                        assert(item_models(self.items@.push(item)) =~= item_models(
                            self.items@,
                        ).push(item.model()));
                    }
                    self.items.push(item);
                },
                Command::Emit(e) => {
                    let item: Item = Item::Emit(e);
                    proof {
                        assert(item_models(self.items@.push(item)) =~= item_models(
                            self.items@,
                        ).push(item.model()));
                    }
                    self.items.push(item);
                },
                Command::Defer(d) => {
                    proof {
                        assert(defer_models(self.deferred@.push(d)) =~= defer_models(
                            self.deferred@,
                        ).push(d.model()));
                    }
                    self.deferred.push(d);
                },
                Command::Alloc { name, size, near } => {
                    self.wait = Wait::Alloc { name, size };
                    return Action::Alloc { size, near };
                },
                Command::ScanModule { name, module, pattern } => {
                    let key: String = module.clone();
                    self.wait = Wait::ScanModule { name, module: key };
                    return Action::ScanModule { module, pattern };
                },
                Command::Scan { name, pattern } => {
                    self.wait = Wait::Scan { name };
                    return Action::Scan { pattern };
                },
            }
        }
        self.lay(state)
    }

    /// One step: takes in the outcome of the last action, changes the state
    /// and hands out the next action.
    pub fn step(&mut self, state: &mut AsmState, event: Event) -> (a: Action)
        requires
            old(self).phase != Phase::Over,
        ensures
            (final(self).model(), final(state).model(), a.model()) == stepped(
                old(self).model(),
                old(state).model(),
                event,
            ),
    {
        match self.settle(state, event) {
            Ok(_) => {},
            Err(e) => {
                return self.fail(e);
            },
        }
        if self.lines.len() == 0 {
            self.phase = Phase::Over;
            self.log = Vec::new();
            let mut log: Vec<String> = Vec::new();
            log.push("(secao vazia)".to_owned());
            proof {
                assert(self.model().log =~= Seq::<Seq<char>>::empty());
                assert(text::texts(log@) =~= seq!["(secao vazia)"@]);
            }
            return Action::Done(Ok(log));
        }
        match self.phase {
            Phase::Reading => self.read(state),
            Phase::Writing => self.write(state),
            _ => self.close(state),
        }
    }
}

// ---------------------------------------------------------------------------
// Searching and allocating
// ---------------------------------------------------------------------------
/// The range of the first module with a name.
pub open spec fn range_of(modules: Seq<ModuleInfo>, name: Seq<char>) -> Option<(u64, u64)> {
    match target::module_index(modules, name) {
        Some(i) => Some((modules[i].base, target::module_end(modules[i]))),
        None => None,
    }
}

/// Finds the range of the first module with a name.
pub fn module_range(modules: &Vec<ModuleInfo>, name: &str) -> (r: Option<(u64, u64)>)
    ensures
        r == range_of(modules@, name@),
{
    match target::find_module(modules, name) {
        Some(i) => Some((modules[i].base, target::end_of(&modules[i]))),
        None => None,
    }
}

/// Picks the regions of a module, in which a pattern is searched; `None` if
/// there is no such module.
pub fn module_regions(regions: &Vec<Region>, modules: &Vec<ModuleInfo>, name: &str) -> (r: Option<
    Vec<Region>,
>)
    ensures
        match r {
            Some(v) => match range_of(modules@, name@) {
                Some((base, end)) => v@ == target::starting_in(regions@, base, end),
                None => false,
            },
            None => range_of(modules@, name@) is None,
        },
{
    match module_range(modules, name) {
        Some((base, end)) => Some(target::regions_in(regions, base, end)),
        None => None,
    }
}

/// The `k`th address to try near another one: below and above its 64 KiB
/// block in turn, ever farther away.
pub open spec fn candidate(near: u64, k: int) -> u64 {
    let start = near - near % 0x1_0000;
    combined(start as u64, k % 2 == 1, (k / 2 * 0x1_0000) as u64)
}

/// The first `n` addresses to try, without zero.
pub open spec fn candidates(near: u64, n: int) -> Seq<u64>
    decreases n,
{
    if n <= 0 {
        Seq::empty()
    } else if candidate(near, n - 1) == 0 {
        candidates(near, n - 1)
    } else {
        candidates(near, n - 1).push(candidate(near, n - 1))
    }
}

/// The addresses to try for an allocation near another address, in order; none
/// if that address is zero.
pub fn alloc_candidates(near: u64) -> (r: Vec<u64>)
    ensures
        r@ == (if near == 0 {
            Seq::empty()
        } else {
            candidates(near, 0x1_0000)
        }),
{
    let mut out: Vec<u64> = Vec::new();
    if near == 0 {
        return out;
    }
    let start: u64 = near - near % 0x1_0000;
    let mut i: u64 = 0;
    while i < 0x8000
        invariant
            i <= 0x8000,
            start == near - near % 0x1_0000,
            out@ == candidates(near, 2 * i),
        decreases 0x8000 - i,
    {
        let step: u64 = i * 0x1_0000;
        let below: u64 = start.wrapping_sub(step);
        let above: u64 = start.wrapping_add(step);
        proof {
            assert(below == candidate(near, 2 * i));
            assert(above == candidate(near, 2 * i + 1));
        }
        if below != 0 {
            out.push(below);
        }
        assert(out@ == candidates(near, 2 * i + 1));
        if above != 0 {
            out.push(above);
        }
        assert(out@ == candidates(near, 2 * i + 2));
        i = i + 1;
    }
    out
}

/// The distance from a candidate back to the address it is near to.
proof fn lemma_candidate_distance(near: u64, d: int, above: bool, opcode: Seq<u8>)
    requires
        0 <= d <= 0x7FFF_0000,
        1 <= opcode.len() <= 2,
    ensures
        branch(
            opcode,
            near,
            combined((near - near % 0x1_0000) as u64, above, d as u64),
        ) is Ok,
{
    let m = 0x1_0000_0000_0000_0000int;
    let start = near - near % 0x1_0000;
    let c = combined(start as u64, above, d as u64);
    let low = near % 0x1_0000;
    let n = opcode.len() + 4;
    if above {
        assert(c == start + d || c == start + d - m);
        let x = near - (c + n);
        assert(x == low - d - n || x == low - d - n + m);
    } else {
        assert(c == start - d || c == start - d + m);
        let x = near - (c + n);
        assert(x == low + d - n || x == low + d - n - m);
    }
}

/// From every address that is tried near another one, a relative jump reaches
/// that one.
pub proof fn lemma_candidates_reach(near: u64, n: int, i: int, opcode: Seq<u8>)
    requires
        n <= 0x1_0000,
        1 <= opcode.len() <= 2,
        0 <= i < candidates(near, n).len(),
    ensures
        branch(opcode, near, candidates(near, n)[i]) is Ok,
    decreases n,
{
    if n > 0 && candidate(near, n - 1) != 0 && i == candidates(near, n - 1).len() {
        let k = n - 1;
        lemma_candidate_distance(near, k / 2 * 0x1_0000, k % 2 == 1, opcode);
    } else if n > 0 {
        lemma_candidates_reach(near, n - 1, i, opcode);
    }
}

// ---------------------------------------------------------------------------
// Laws of a run
// ---------------------------------------------------------------------------
/// The bytes of the first `n` items of a list of emissions.
pub open spec fn total_size(items: Seq<ItemModel>, n: int) -> int
    decreases n,
{
    if n <= 0 {
        0
    } else {
        total_size(items, n - 1) + (match items[n - 1] {
            ItemModel::Emit(e) => emit_size(e) as int,
            ItemModel::Anchor(_) => 0,
        })
    }
}

/// Emissions without anchors between them lie one behind the other, in script
/// order, and change no symbol.
pub proof fn lemma_laid_contiguous(
    items: Seq<ItemModel>,
    symbols: Map<Seq<char>, u64>,
    c: u64,
    placed: Seq<(u64, EmitModel)>,
)
    requires
        forall|i: int| 0 <= i < items.len() ==> (#[trigger] items[i]) is Emit,
        c + total_size(items, items.len() as int) <= u64::MAX,
    ensures
        ({
            let (after, r) = laid(items, symbols, Some(c), placed);
            &&& after == symbols
            &&& r is Ok
            &&& r->Ok_0.len() == placed.len() + items.len()
            &&& forall|i: int|
                0 <= i < items.len() ==> #[trigger] r->Ok_0[placed.len() + i] == (
                    (c + total_size(items, i)) as u64,
                    items[i]->Emit_0,
                )
            &&& forall|i: int| 0 <= i < placed.len() ==> #[trigger] r->Ok_0[i] == placed[i]
        }),
    decreases items.len(),
{
    if items.len() > 0 {
        let e = items[0]->Emit_0;
        let rest = items.skip(1);
        assert forall|i: int| 0 <= i <= rest.len() implies #[trigger] total_size(rest, i)
            == total_size(items, i + 1) - emit_size(e) by {
            lemma_total_skip(items, i);
        }
        assert(total_size(items, 0) == 0);
        assert(total_size(rest, 0) == 0);
        lemma_total_nonneg(rest, rest.len() as int);
        let next = (c + emit_size(e)) as u64;
        lemma_laid_contiguous(rest, symbols, next, placed.push((c, e)));
        let r = laid(items, symbols, Some(c), placed).1;
        assert forall|i: int| 0 <= i < items.len() implies #[trigger] r->Ok_0[placed.len() + i]
            == ((c + total_size(items, i)) as u64, items[i]->Emit_0) by {
            if i > 0 {
                assert(placed.push((c, e)).len() + (i - 1) == placed.len() + i);
                assert(rest[i - 1] == items[i]);
                assert(total_size(rest, i - 1) == total_size(items, i) - emit_size(e));
                assert(r->Ok_0[placed.push((c, e)).len() + (i - 1)] == ((next + total_size(
                    rest,
                    i - 1,
                )) as u64, rest[i - 1]->Emit_0));
            } else {
                assert(r->Ok_0[placed.len() as int] == placed.push((c, e))[placed.len() as int]);
            }
        }
        assert forall|i: int| 0 <= i < placed.len() implies #[trigger] r->Ok_0[i] == placed[i] by {
            assert(placed.push((c, e))[i] == placed[i]);
        }
    }
}

proof fn lemma_total_skip(items: Seq<ItemModel>, i: int)
    requires
        items.len() > 0,
        0 <= i < items.len(),
    ensures
        total_size(items.skip(1), i) == total_size(items, i + 1) - total_size(items, 1),
        items[0] matches ItemModel::Emit(e) ==> total_size(items, 1) == emit_size(e),
    decreases i,
{
    assert(total_size(items, 1) == total_size(items, 0) + (match items[0] {
        ItemModel::Emit(e) => emit_size(e) as int,
        ItemModel::Anchor(_) => 0,
    }));
    if i > 0 {
        lemma_total_skip(items, i - 1);
        assert(items.skip(1)[i - 1] == items[i]);
    }
}

proof fn lemma_total_nonneg(items: Seq<ItemModel>, n: int)
    ensures
        total_size(items, n) >= 0,
    decreases n,
{
    if n > 0 {
        lemma_total_nonneg(items, n - 1);
    }
}

/// The counters of a run stay within its lists.
pub open spec fn valid(r: RunModel) -> bool {
    &&& 0 <= r.line <= r.lines.len()
    &&& 0 <= r.written <= r.placed.len()
    &&& 0 <= r.closed <= r.deferred.len()
    &&& r.phase == Phase::Reading ==> r.placed.len() == 0
}

/// What is left to do in a run.
pub open spec fn remaining(r: RunModel) -> int {
    2 * (r.lines.len() - r.line) + r.items.len() + (r.placed.len() - r.written) + (
    r.deferred.len() - r.closed)
}

/// A step keeps a run valid, and every step that asks for outside work leaves
/// less to do: a run comes to an end.
pub proof fn lemma_step_progress(r: RunModel, s: StateModel, event: Event)
    requires
        valid(r),
        r.phase != Phase::Over,
    ensures
        ({
            let (next, state, action) = stepped(r, s, event);
            &&& valid(next)
            &&& action is Done <==> next.phase == Phase::Over
            &&& !(action is Done) ==> 0 <= remaining(next) < remaining(r)
        }),
{
    lemma_settled(r, s, event);
    match settled(r, s, event) {
        Ok((next, state)) => {
            let free = RunModel { wait: WaitModel::Nothing, ..next };
            match free.phase {
                Phase::Reading => lemma_reading_progress(free, state),
                Phase::Writing => lemma_writing_progress(free, state),
                _ => lemma_closing_progress(free, state),
            }
        },
        Err(e) => {},
    }
}

/// Taking in an outcome changes the log alone.
proof fn lemma_settled(r: RunModel, s: StateModel, event: Event)
    ensures
        settled(r, s, event) matches Ok(x) ==> x.0 == (RunModel { log: x.0.log, ..r }),
{
}

proof fn lemma_closing_progress(r: RunModel, s: StateModel)
    requires
        valid(r),
        r.phase != Phase::Reading,
    ensures
        ({
            let (next, state, action) = closing(r, s);
            &&& valid(next)
            &&& action is Done ==> next.phase == Phase::Over
            &&& !(action is Done) ==> next.phase == r.phase && 0 <= remaining(next) < remaining(r)
        }),
    decreases r.deferred.len() - r.closed,
{
    if r.closed < r.deferred.len() {
        let next = RunModel { closed: r.closed + 1, ..r };
        match r.deferred[r.closed] {
            DeferModel::Unregister(name) => lemma_closing_progress(
                next,
                StateModel { symbols: s.symbols.remove(name), ..s },
            ),
            DeferModel::Dealloc(name) => {
                if alloc_index(s.allocs, name) is None {
                    lemma_closing_progress(next, s);
                }
            },
        }
    }
}

proof fn lemma_writing_progress(r: RunModel, s: StateModel)
    requires
        valid(r),
        r.phase == Phase::Writing,
    ensures
        ({
            let (next, state, action) = writing(r, s);
            &&& valid(next)
            &&& action is Done <==> next.phase == Phase::Over
            &&& !(action is Done) ==> 0 <= remaining(next) < remaining(r)
        }),
{
    if r.written >= r.placed.len() {
        lemma_closing_progress(RunModel { phase: Phase::Closing, ..r }, s);
    }
}

proof fn lemma_laid_len(
    items: Seq<ItemModel>,
    symbols: Map<Seq<char>, u64>,
    cursor: Option<u64>,
    placed: Seq<(u64, EmitModel)>,
)
    ensures
        laid(items, symbols, cursor, placed).1 matches Ok(p) ==> p.len() <= placed.len()
            + items.len(),
    decreases items.len(),
{
    if items.len() > 0 {
        match items[0] {
            ItemModel::Anchor(name) => if symbols.dom().contains(name) {
                lemma_laid_len(items.skip(1), symbols, Some(symbols[name]), placed);
            } else if cursor is Some {
                lemma_laid_len(items.skip(1), symbols.insert(name, cursor->0), cursor, placed);
            },
            ItemModel::Emit(e) => if cursor is Some {
                lemma_laid_len(
                    items.skip(1),
                    symbols,
                    Some(combined(cursor->0, true, (emit_size(e) as u64))),
                    placed.push((cursor->0, e)),
                );
            },
        }
    }
}

proof fn lemma_reading_progress(r: RunModel, s: StateModel)
    requires
        valid(r),
        r.phase == Phase::Reading,
    ensures
        ({
            let (next, state, action) = reading(r, s);
            &&& valid(next)
            &&& action is Done <==> next.phase == Phase::Over
            &&& !(action is Done) ==> 0 <= remaining(next) < remaining(r)
        }),
    decreases r.lines.len() - r.line,
{
    if r.line >= r.lines.len() {
        lemma_laid_len(r.items, s.symbols, None, Seq::empty());
        let (symbols, placed) = laid(r.items, s.symbols, None, Seq::empty());
        if placed is Ok {
            lemma_writing_progress(
                RunModel {
                    placed: placed->Ok_0,
                    phase: Phase::Writing,
                    items: Seq::empty(),
                    ..r
                },
                StateModel { symbols, ..s },
            );
        }
    } else {
        let next = RunModel { line: r.line + 1, ..r };
        match command(r.lines[r.line], s.symbols) {
            Ok(CommandModel::Nothing) => lemma_reading_progress(next, s),
            Ok(CommandModel::Anchor(n)) => lemma_reading_progress(
                RunModel { items: r.items.push(ItemModel::Anchor(n)), ..next },
                s,
            ),
            Ok(CommandModel::Emit(e)) => lemma_reading_progress(
                RunModel { items: r.items.push(ItemModel::Emit(e)), ..next },
                s,
            ),
            Ok(CommandModel::Defer(d)) => lemma_reading_progress(
                RunModel { deferred: r.deferred.push(d), ..next },
                s,
            ),
            _ => {},
        }
    }
}

/// When a run ends, no symbol is left that it was still to unregister.
pub proof fn lemma_unregistered(r: RunModel, s: StateModel, k: int)
    requires
        0 <= r.closed <= k < r.deferred.len(),
        closing(r, s).2 is Done,
    ensures
        r.deferred[k] matches DeferModel::Unregister(name) ==> !closing(
            r,
            s,
        ).1.symbols.dom().contains(name),
    decreases r.deferred.len() - r.closed,
{
    let next = RunModel { closed: r.closed + 1, ..r };
    match r.deferred[r.closed] {
        DeferModel::Unregister(name) => {
            let state = StateModel { symbols: s.symbols.remove(name), ..s };
            if k > r.closed {
                lemma_unregistered(next, state, k);
            } else {
                lemma_closing_forgets(next, state, name);
            }
        },
        DeferModel::Dealloc(name) => {
            if k > r.closed {
                lemma_unregistered(next, s, k);
            }
        },
    }
}

proof fn lemma_closing_forgets(r: RunModel, s: StateModel, name: Seq<char>)
    requires
        !s.symbols.dom().contains(name),
        0 <= r.closed,
    ensures
        !closing(r, s).1.symbols.dom().contains(name),
    decreases r.deferred.len() - r.closed,
{
    if r.closed < r.deferred.len() {
        let next = RunModel { closed: r.closed + 1, ..r };
        match r.deferred[r.closed] {
            DeferModel::Unregister(n) => lemma_closing_forgets(
                next,
                StateModel { symbols: s.symbols.remove(n), ..s },
                name,
            ),
            DeferModel::Dealloc(n) => {
                if alloc_index(s.allocs, n) is None {
                    lemma_closing_forgets(next, s, name);
                }
            },
        }
    }
}

} // verus!
