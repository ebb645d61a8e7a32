//! What the functions of a script compute: numbers out of bytes and bytes out
//! of numbers, bases of modules and places of patterns. Everything a script
//! sees is an integer of 64 bits.
use crate::bytes;
use crate::text;
use vstd::prelude::*;

verus! {

/// The result of a run: the lines of output and an error, if there was one.
#[derive(Debug)]
pub struct ScriptResult {
    pub output: Vec<String>,
    pub error: Option<String>,
}

/// How many operations a script may perform.
pub const MAX_OPERATIONS: u64 = 100_000_000;

/// How deep the calls of a script may nest.
pub const MAX_CALL_LEVELS: usize = 64;

/// The script that is shown first.
pub const SAMPLE: &'static str = "// Exemplo: lê um valor e escreve outro.\n// 'attach' um processo antes de executar.\nlet base = module_base(\"game.exe\");\nprint(\"game.exe base = \" + base);\n\n// let hp = read_i32(base + 0x10C);\n// print(\"hp = \" + hp);\n// write_i32(base + 0x10C, 999);\n\n// AOB scan (curinga ??):\n// let hit = aob_scan(\"89 83 A4 00 00 00\");\n// print(\"achei em \" + hit);\n";

/// The value of a number of `k` bytes whose highest bit is its sign.
pub open spec fn with_sign(n: int, k: nat) -> int {
    let m = vstd::arithmetic::power::pow(256, k);
    if 2 * n < m {
        n
    } else {
        n - m
    }
}

/// The number in the first `k` bytes of what was read; 0 if there are fewer.
pub open spec fn number_of(read: Option<Seq<u8>>, k: nat) -> int {
    match read {
        None => 0,
        Some(b) => if b.len() < k {
            0
        } else {
            bytes::le_value(b.take(k as int))
        },
    }
}

/// What was read, by its bytes.
pub open spec fn read_view(read: Option<Vec<u8>>) -> Option<Seq<u8>> {
    match read {
        Some(b) => Some(b@),
        None => None,
    }
}

/// Reads a number without a sign.
fn unsigned(read: &Option<Vec<u8>>, k: usize) -> (r: u64)
    requires
        k <= 8,
    ensures
        r == number_of(read_view(*read), k as nat),
        r < vstd::arithmetic::power::pow(256, k as nat),
{
    proof {
        vstd::arithmetic::power::lemma_pow_positive(256, k as nat);
    }
    match read {
        None => 0,
        Some(b) => match bytes::read_le_at(b, 0, k) {
            None => 0,
            Some(v) => {
                proof {
                    assert(b@.subrange(0, k as int) =~= b@.take(k as int));
                    bytes::lemma_le_value_bound(b@.take(k as int));
                }
                v
            },
        },
    }
}

/// Reads a byte with a sign.
pub fn read_i8(read: &Option<Vec<u8>>) -> (r: i64)
    ensures
        r == with_sign(number_of(read_view(*read), 1), 1),
{
    let n: u64 = unsigned(read, 1);
    proof {
        bytes::lemma_256_to_8();
    }
    if n < 0x80 {
        n as i64
    } else {
        n as i64 - 0x100
    }
}

/// Reads a number of two bytes with a sign.
pub fn read_i16(read: &Option<Vec<u8>>) -> (r: i64)
    ensures
        r == with_sign(number_of(read_view(*read), 2), 2),
{
    let n: u64 = unsigned(read, 2);
    proof {
        bytes::lemma_256_to_8();
    }
    if n < 0x8000 {
        n as i64
    } else {
        n as i64 - 0x1_0000
    }
}

/// Reads a number of four bytes with a sign.
pub fn read_i32(read: &Option<Vec<u8>>) -> (r: i64)
    ensures
        r == with_sign(number_of(read_view(*read), 4), 4),
{
    let n: u64 = unsigned(read, 4);
    proof {
        bytes::lemma_256_to_8();
    }
    if n < 0x8000_0000 {
        n as i64
    } else {
        n as i64 - 0x1_0000_0000
    }
}

/// Reads a number of eight bytes with a sign.
pub fn read_i64(read: &Option<Vec<u8>>) -> (r: i64)
    ensures
        r == with_sign(number_of(read_view(*read), 8), 8),
{
    let n: u64 = unsigned(read, 8);
    proof {
        bytes::lemma_256_to_8();
    }
    bytes::wrap_u64(n)
}

/// Reads a number of four bytes without a sign.
pub fn read_u32(read: &Option<Vec<u8>>) -> (r: i64)
    ensures
        r == number_of(read_view(*read), 4),
{
    let n: u64 = unsigned(read, 4);
    proof {
        bytes::lemma_256_to_8();
    }
    n as i64
}

/// Reads a pointer of the size that the process has: four bytes without a sign,
/// else eight.
pub fn read_ptr(read: &Option<Vec<u8>>, size: usize) -> (r: i64)
    ensures
        r == (if size == 4 {
            number_of(read_view(*read), 4)
        } else {
            with_sign(number_of(read_view(*read), 8), 8)
        }),
{
    if size == 4 {
        read_u32(read)
    } else {
        read_i64(read)
    }
}

/// Hands an address to a script; 0 if there is none.
pub fn address(v: Option<u64>) -> (r: i64)
    ensures
        r == match v {
            Some(a) => bytes::wrapped(a as int),
            None => 0,
        },
{
    match v {
        Some(a) => bytes::wrap_u64(a),
        None => 0,
    }
}

/// Takes an address from a script.
pub fn place(addr: i64) -> (r: u64)
    ensures
        r == addr as int % 0x1_0000_0000_0000_0000,
{
    bytes::as_unsigned(addr)
}

/// How many bytes are read where a script asks for `len`.
pub fn read_len(len: i64) -> (r: u64)
    ensures
        r == if len < 0 {
            0
        } else {
            len as int
        },
{
    if len < 0 {
        0
    } else {
        len as u64
    }
}

/// The bytes that were read, as numbers; none if nothing was read.
pub open spec fn byte_values(read: Option<Seq<u8>>) -> Seq<i64> {
    match read {
        None => Seq::empty(),
        Some(b) => b.map_values(|x: u8| x as i64),
    }
}

/// Hands bytes to a script.
pub fn read_bytes(read: &Option<Vec<u8>>) -> (r: Vec<i64>)
    ensures
        r@ == byte_values(read_view(*read)),
{
    let mut out: Vec<i64> = Vec::new();
    match read {
        None => {},
        Some(b) => {
            for i in 0..b.len()
                invariant
                    out@.len() == i,
                    forall|j: int| 0 <= j < i ==> #[trigger] out@[j] == b@[j] as i64,
            {
                out.push(b[i] as i64);
            }
            assert(out@ =~= byte_values(Some(b@)));
        },
    }
    assert(out@ =~= byte_values(read_view(*read)));
    out
}

/// The bytes of a number of 32 bits.
pub fn write_i32(val: i64) -> (r: Vec<u8>)
    ensures
        r@ == bytes::le(val as int, 4),
{
    let mut out: Vec<u8> = Vec::new();
    let v: u64 = bytes::as_unsigned(val);
    bytes::push_le(&mut out, v, 4);
    proof {
        bytes::lemma_le_of_remainder(val as int, 4);
        assert(Seq::<u8>::empty() + bytes::le(v as int, 4) =~= bytes::le(v as int, 4));
    }
    out
}

/// The bytes of a number of 64 bits.
pub fn write_i64(val: i64) -> (r: Vec<u8>)
    ensures
        r@ == bytes::le(val as int, 8),
{
    let mut out: Vec<u8> = Vec::new();
    let v: u64 = bytes::as_unsigned(val);
    bytes::push_le(&mut out, v, 8);
    proof {
        bytes::lemma_le_of_remainder(val as int, 8);
        assert(Seq::<u8>::empty() + bytes::le(v as int, 8) =~= bytes::le(v as int, 8));
    }
    out
}

/// The low bytes of numbers.
pub open spec fn low_bytes(values: Seq<i64>) -> Seq<u8> {
    values.map_values(|v: i64| (v as int % 256) as u8)
}

/// The low bytes of the numbers of a script; what is no number counts as 0.
pub fn write_bytes(values: &Vec<Option<i64>>) -> (r: Vec<u8>)
    ensures
        r@ == low_bytes(
            values@.map_values(
                |v: Option<i64>|
                    match v {
                        Some(n) => n,
                        None => 0,
                    },
            ),
        ),
{
    let ghost numbers = values@.map_values(
        |v: Option<i64>|
            match v {
                Some(n) => n,
                None => 0,
            },
    );
    let mut out: Vec<u8> = Vec::new();
    for i in 0..values.len()
        invariant
            numbers == values@.map_values(
                |v: Option<i64>|
                    match v {
                        Some(n) => n,
                        None => 0,
                    },
            ),
            out@.len() == i,
            forall|j: int| 0 <= j < i ==> #[trigger] out@[j] == (numbers[j] as int % 256) as u8,
    {
        let n: i64 = match values[i] {
            Some(n) => n,
            None => 0,
        };
        let low: u64 = bytes::as_unsigned(n) % 256;
        proof {
            assert(numbers[i as int] == n);
            assert(low == n as int % 256);
        }
        out.push(low as u8);
    }
    assert(out@ =~= low_bytes(numbers));
    out
}

/// The base of the first module with a name, whatever the case of its letters;
/// 0 if there is none.
pub open spec fn base_of(bases: Seq<(String, u64)>, name: Seq<char>) -> int
    decreases bases.len(),
{
    if bases.len() == 0 {
        0
    } else if text::same_ignoring_case(bases[0].0@, name) {
        bytes::wrapped(bases[0].1 as int)
    } else {
        base_of(bases.skip(1), name)
    }
}

/// Finds the base of a module.
pub fn module_base(bases: &Vec<(String, u64)>, name: &str) -> (r: i64)
    ensures
        r == base_of(bases@, name@),
{
    let n: usize = bases.len();
    let mut i: usize = 0;
    proof {
        assert(bases@.skip(0) =~= bases@);
    }
    while i < n
        invariant
            n == bases@.len(),
            i <= n,
            base_of(bases@.skip(i as int), name@) == base_of(bases@, name@),
        decreases n - i,
    {
        proof {
            assert(bases@.skip(i as int)[0] == bases@[i as int]);
            assert(bases@.skip(i as int).skip(1) =~= bases@.skip(i + 1));
        }
        if text::same_str_any_case(bases[i].0.as_str(), name) {
            return bytes::wrap_u64(bases[i].1);
        }
        i = i + 1;
    }
    0
}

/// The first place of a pattern; 0 if there is none.
pub fn first_hit(hits: &Vec<u64>) -> (r: i64)
    ensures
        r == if hits@.len() == 0 {
            0
        } else {
            bytes::wrapped(hits@[0] as int)
        },
{
    if hits.len() == 0 {
        0
    } else {
        bytes::wrap_u64(hits[0])
    }
}

/// A line of output for debugging.
pub fn debug_line(pos: &str, message: &str) -> (r: String)
    ensures
        r@ == "[debug "@ + pos@ + "] "@ + message@,
{
    let mut s: String = "[debug ".to_owned();
    s.append(pos);
    s.append("] ");
    s.append(message);
    s
}

/// A number of 32 bits that is written and read again is the same.
pub proof fn lemma_i32_roundtrip(n: i64)
    requires
        i32::MIN <= n <= i32::MAX,
    ensures
        with_sign(number_of(Some(bytes::le(n as int, 4)), 4), 4) == n,
{
    bytes::lemma_256_to_8();
    bytes::lemma_le_len(n as int, 4);
    bytes::lemma_le_roundtrip(n as int, 4);
    assert(bytes::le(n as int, 4).take(4) =~= bytes::le(n as int, 4));
}

/// A number of 64 bits that is written and read again is the same.
pub proof fn lemma_i64_roundtrip(n: i64)
    ensures
        with_sign(number_of(Some(bytes::le(n as int, 8)), 8), 8) == n,
{
    bytes::lemma_256_to_8();
    bytes::lemma_le_len(n as int, 8);
    bytes::lemma_le_roundtrip(n as int, 8);
    assert(bytes::le(n as int, 8).take(8) =~= bytes::le(n as int, 8));
}

/// Numbers that are bytes are the same after they are written and read again.
pub proof fn lemma_bytes_roundtrip(values: Seq<i64>)
    requires
        forall|i: int| 0 <= i < values.len() ==> 0 <= #[trigger] values[i] < 256,
    ensures
        byte_values(Some(low_bytes(values))) == values,
{
    assert(byte_values(Some(low_bytes(values))) =~= values);
}

} // verus!
