//! The memory of a process: its map, its threads, its command line and its texts.
use crate::assembler;
use crate::bytes;
use crate::internals;
use crate::internals::{
    CommandModel,
    CommandPart,
    FoundModel,
    Query,
    RegionModel,
    ThreadModel,
    ThreadRow,
    WalkModel,
};
use crate::laws::games;
use crate::laws::plain;
use crate::pattern;
use crate::script;
use crate::target;
use crate::target::ModuleInfo;
use crate::text;
use crate::text::Class;
use vstd::prelude::*;

verus! {

/// The protections of a page by their numbers, and bit 8, which makes it a guard.
pub proof fn lemma_protection(k: int, guard: bool)
    requires
        0 < k < 256,
    ensures
        ({
            let t = internals::protect_text(k + (if guard {
                256int
            } else {
                0
            }));
            let rights = if k == 1 {
                "---"@
            } else if k == 2 {
                "R--"@
            } else if k == 4 {
                "RW-"@
            } else if k == 8 {
                "RWc"@
            } else if k == 16 {
                "--X"@
            } else if k == 32 {
                "R-X"@
            } else if k == 64 {
                "RWX"@
            } else if k == 128 {
                "RcX"@
            } else {
                "???"@
            };
            t == if guard {
                rights + " guard"@
            } else {
                rights
            }
        }),
        internals::protect_text(0) == "-"@,
{
}

/// A region of the map: its place and size, and its state and kind by their numbers; the
/// name of a mapped file is what stands behind the last backslash of its path.
pub proof fn lemma_region(q: Query, path: Seq<u16>, dir: Seq<char>, name: Seq<char>)
    requires
        forall|i: int| 0 <= i < name.len() ==> #[trigger] name[i] != '\\',
    ensures
        ({
            let r = internals::region_of(q, path);
            &&& r.base == q.base && r.size == q.size
            &&& q.state == 0x1000 ==> r.state == "commit"@
            &&& q.state == 0x2000 ==> r.state == "reserve"@
            &&& q.state == 0x1_0000 ==> r.state == "free"@
            &&& q.kind == 0x100_0000 ==> r.kind == "image"@
            &&& q.kind == 0x4_0000 ==> r.kind == "mapped"@
            &&& q.kind == 0x2_0000 ==> r.kind == "private"@
            &&& r.protect == internals::protect_text(q.protect as int)
            &&& q.state == 0x1000 && (q.kind == 0x100_0000 || q.kind == 0x4_0000) && path.len() > 0
                && bytes::utf16_text(path) == dir + "\\"@ + name ==> r.detail == name
            &&& q.state != 0x1000 || (q.kind != 0x100_0000 && q.kind != 0x4_0000) ==> r.detail.len()
                == 0
        }),
        internals::file_name(dir + "\\"@ + name) == name,
        internals::file_name(name) == name,
{
    reveal_strlit("\\");
    lemma_last(dir + "\\"@ + name, dir.len() as int);
    assert((dir + "\\"@ + name).skip(dir.len() as int + 1) =~= name);
    lemma_none(name);
    assert(name.skip(0) =~= name);
}

proof fn lemma_last(s: Seq<char>, n: int)
    requires
        0 <= n < s.len(),
        s[n] == '\\',
        forall|i: int| n < i < s.len() ==> #[trigger] s[i] != '\\',
    ensures
        text::last_in(s, Class::Is('\\')) == n,
    decreases s.len(),
{
    if n < s.len() - 1 {
        assert(s[s.len() - 1] != '\\');
        assert forall|i: int| n < i < s.drop_last().len() implies #[trigger] s.drop_last()[i]
            != '\\' by {
            assert(s.drop_last()[i] == s[i]);
        }
        lemma_last(s.drop_last(), n);
    }
}

proof fn lemma_none(s: Seq<char>)
    requires
        forall|i: int| 0 <= i < s.len() ==> #[trigger] s[i] != '\\',
    ensures
        text::last_in(s, Class::Is('\\')) == -1,
{
    text::lemma_last_in(s, Class::Is('\\'));
}

/// The walk goes on behind each region, and keeps it unless it is free; it ends where it
/// would not go forward.
pub proof fn lemma_walk(w: WalkModel, q: Query, path: Seq<u16>)
    requires
        q.base + q.size <= u64::MAX,
    ensures
        ({
            let (next, more) = internals::walked(w, q, path);
            &&& q.state == 0x1_0000 ==> next.out == w.out
            &&& q.state != 0x1_0000 ==> next.out == w.out.push(internals::region_of(q, path))
            &&& q.base + q.size > w.addr ==> next.addr == q.base + q.size
            &&& q.base + q.size <= w.addr ==> !more
            &&& q.base + q.size > w.addr && w.out.len() < 49999 && w.steps < 299999 ==> more
            &&& next.steps == w.steps + 1
        }),
{
}

/// An address is named by the first module that it lies in and its distance from the base
/// of that module.
pub proof fn lemma_symbol(addr: u64, modules: Seq<ModuleInfo>, i: int)
    requires
        addr != 0,
        0 <= i < modules.len(),
        modules[i].base <= addr < modules[i].base + modules[i].size <= u64::MAX,
        forall|j: int|
            0 <= j < i ==> !((#[trigger] modules[j]).base <= addr < target::module_end(modules[j])),
    ensures
        internals::symbol(addr, modules) == modules[i].name@ + "+0x"@ + text::hex(
            (addr - modules[i].base) as nat,
        ),
    decreases i,
{
    if i > 0 {
        let t = modules.skip(1);
        assert(!(modules[0].base <= addr < target::module_end(modules[0])));
        assert forall|j: int| 0 <= j < i - 1 implies !((#[trigger] t[j]).base <= addr
            < target::module_end(t[j])) by {
            assert(t[j] == modules[j + 1]);
        }
        lemma_symbol(addr, t, i - 1);
    }
}

/// The threads of a process are the rows that it owns, and no others.
pub proof fn lemma_threads(
    rows: Seq<ThreadRow>,
    pid: u32,
    modules: Seq<ModuleInfo>,
    n: int,
    t: ThreadModel,
)
    requires
        0 <= n <= rows.len(),
    ensures
        internals::threads_until(rows, pid, modules, n).contains(t) <==> exists|i: int|
            {
                &&& 0 <= i < n
                &&& (#[trigger] rows[i]).owner == pid
                &&& t.tid == rows[i].tid
                &&& t.base_priority == rows[i].base_priority
                &&& t.start == rows[i].start
                &&& t.start_sym == internals::symbol(rows[i].start, modules)
            },
    decreases n,
{
    if n > 0 {
        lemma_threads(rows, pid, modules, n - 1, t);
        let before = internals::threads_until(rows, pid, modules, n - 1);
        let all = internals::threads_until(rows, pid, modules, n);
        if rows[n - 1].owner == pid {
            assert(all[before.len() as int] == all.last());
            if before.contains(t) {
                let i = before.index_of(t);
                assert(all[i] == t);
            }
        }
    } else {
        assert(!internals::threads_until(rows, pid, modules, n).contains(t));
    }
}

/// Whether bytes are asked for at a place.
pub open spec fn asks(r: (CommandPart, CommandModel), addr: int, len: int) -> bool {
    r.1 matches CommandModel::Bytes { addr: a, len: n } && a == addr % 0x1_0000_0000_0000_0000 && n
        == len
}

/// The command line of a process is found through its block, whose address is at 8: at 0x20
/// the parameters, in them at 0x70 how long the text is and at 0x78 where, in two bytes a
/// character.
pub proof fn lemma_command_line(b: Seq<u8>, p: u64, n: u16)
    ensures
        b.len() >= 16 && plain::eight(b, 8) != 0 ==> {
            &&& internals::command_begun(b).0 == CommandPart::Parameters
            &&& asks(internals::command_begun(b), plain::eight(b, 8) + 0x20, 8)
        },
        b.len() < 16 ==> internals::command_begun(b).1 == CommandModel::Done(None),
        b.len() >= 8 ==> {
            let r = internals::command_took(CommandPart::Parameters, Some(b));
            r.0 == CommandPart::Length(plain::eight(b, 0) as u64) && asks(
                r,
                plain::eight(b, 0) + 0x70,
                2,
            )
        },
        b.len() >= 2 ==> {
            let r = internals::command_took(CommandPart::Length(p), Some(b));
            r.0 == CommandPart::Buffer(plain::two(b, 0) as u16) && asks(r, p + 0x78, 8)
        },
        b.len() >= 8 && n != 0 && plain::eight(b, 0) != 0 ==> {
            let r = internals::command_took(CommandPart::Buffer(n), Some(b));
            r.0 == CommandPart::Text && asks(r, plain::eight(b, 0), n as int)
        },
        internals::command_took(CommandPart::Text, Some(b)).1 == CommandModel::Done(
            Some(bytes::utf16_text(internals::units(b))),
        ),
{
    plain::lemma_le_at(b, 8);
    plain::lemma_le_at(b, 0);
}

/// The code units of bytes have two bytes each, the lower first.
pub proof fn lemma_units(b: Seq<u8>)
    ensures
        internals::units(b).len() == b.len() / 2,
        forall|i: int|
            0 <= i < b.len() / 2 ==> #[trigger] internals::units(b)[i] == plain::two(b, 2 * i),
    decreases b.len(),
{
    if b.len() >= 2 {
        let t = b.skip(2);
        lemma_units(t);
        assert forall|i: int| 0 <= i < b.len() / 2 implies #[trigger] internals::units(b)[i]
            == plain::two(b, 2 * i) by {
            if i > 0 {
                assert(internals::units(b)[i] == internals::units(t)[i - 1]);
                assert(plain::two(t, 2 * (i - 1)) == plain::two(b, 2 * i));
            }
        }
    }
}

/// Whether a byte is a printable character of ASCII.
pub open spec fn printable(c: u8) -> bool {
    32 <= c < 127
}

/// Whether the bytes from `i` to `j` are a run of printable ones that goes as far as it
/// can.
pub open spec fn is_run(b: Seq<u8>, i: int, j: int) -> bool {
    &&& 0 <= i < j <= b.len()
    &&& forall|k: int| i <= k < j ==> printable(#[trigger] b[k])
    &&& j == b.len() || !printable(b[j])
    &&& i == 0 || !printable(b[i - 1])
}

proof fn lemma_run_end(b: Seq<u8>, i: int, j: int)
    requires
        0 <= i <= j <= b.len(),
        forall|k: int| i <= k < j ==> printable(#[trigger] b[k]),
        j == b.len() || !printable(b[j]),
    ensures
        internals::run_end(b, i) == j,
    decreases j - i,
{
    if i < j {
        assert(printable(b[i]));
        lemma_run_end(b, i + 1, j);
    }
}

proof fn lemma_narrow_keeps(b: Seq<u8>, base: u64, min: int, i: int, out: Seq<FoundModel>)
    ensures
        ({
            let r = internals::narrow_from(b, base, min, i, out);
            &&& r.len() >= out.len()
            &&& r.take(out.len() as int) == out
        }),
    decreases b.len() - i,
{
    let r = internals::narrow_from(b, base, min, i, out);
    if i < 0 || i >= b.len() {
        assert(r.take(out.len() as int) =~= out);
    } else if !internals::is_printable(b[i]) {
        lemma_narrow_keeps(b, base, min, i + 1, out);
    } else {
        lemma_first_end(b, i);
        let j = internals::run_end(b, i);
        if j - i >= min {
            let next = out.push(
                FoundModel {
                    addr: internals::at(base, i),
                    wide: false,
                    text: internals::run_text(b, i, j, 1),
                },
            );
            if next.len() >= internals::MAX_FOUND {
                assert(r.take(out.len() as int) =~= out);
            } else {
                lemma_narrow_keeps(b, base, min, j, next);
                assert(r.take(out.len() as int) =~= r.take(next.len() as int).take(
                    out.len() as int,
                ));
                assert(next.take(out.len() as int) =~= out);
            }
        } else {
            lemma_narrow_keeps(b, base, min, j, out);
        }
    }
}

proof fn lemma_first_end(b: Seq<u8>, i: int)
    requires
        0 <= i < b.len(),
        printable(b[i]),
    ensures
        i < internals::run_end(b, i) <= b.len(),
        forall|k: int| i <= k < internals::run_end(b, i) ==> printable(#[trigger] b[k]),
        internals::run_end(b, i) == b.len() || !printable(b[internals::run_end(b, i)]),
    decreases b.len() - i,
{
    if i + 1 < b.len() && printable(b[i + 1]) {
        lemma_first_end(b, i + 1);
    } else {
        assert(internals::run_end(b, i + 1) == i + 1);
    }
}

/// Whether a text is that of a run, at its place.
pub open spec fn is_text_of(f: FoundModel, b: Seq<u8>, base: u64, i: int, j: int) -> bool {
    &&& f.addr == (base + i) % 0x1_0000_0000_0000_0000
    &&& !f.wide
    &&& f.text.len() == j - i
    &&& forall|c: int| 0 <= c < j - i ==> #[trigger] f.text[c] as int == b[i + c]
}

/// Every run of printable bytes that is long enough is found, as long as there are fewer
/// than twenty thousand.
pub proof fn lemma_runs_found(
    b: Seq<u8>,
    base: u64,
    min: int,
    start: int,
    out: Seq<FoundModel>,
    i: int,
    j: int,
)
    requires
        0 <= start <= i,
        start == 0 || !printable(b[start - 1]) || start == b.len() || !printable(b[start]),
        is_run(b, i, j),
        j - i >= min,
        internals::narrow_from(b, base, min, start, out).len() < 20000,
    ensures
        exists|k: int|
            0 <= k < internals::narrow_from(b, base, min, start, out).len() && is_text_of(
                #[trigger] internals::narrow_from(b, base, min, start, out)[k],
                b,
                base,
                i,
                j,
            ),
    decreases b.len() - start,
{
    let r = internals::narrow_from(b, base, min, start, out);
    assert(printable(b[i]));
    if start < i && printable(b[start]) {
        lemma_first_end(b, start);
        let e = internals::run_end(b, start);
        if e > i {
            assert(printable(b[i - 1]));
            assert(false);
        }
        if e - start >= min {
            let next = out.push(
                FoundModel {
                    addr: internals::at(base, start),
                    wide: false,
                    text: internals::run_text(b, start, e, 1),
                },
            );
            if next.len() < 20000 {
                lemma_runs_found(b, base, min, e, next, i, j);
            }
        } else {
            lemma_runs_found(b, base, min, e, out, i, j);
        }
    } else if start < i {
        lemma_runs_found(b, base, min, start + 1, out, i, j);
    } else {
        lemma_run_end(b, i, j);
        let one = FoundModel {
            addr: internals::at(base, i),
            wide: false,
            text: internals::run_text(b, i, j, 1),
        };
        let next = out.push(one);
        if next.len() < 20000 {
            lemma_narrow_keeps(b, base, min, j, next);
        }
        let k = out.len() as int;
        assert(next.take(next.len() as int) =~= next);
        assert(r.take(next.len() as int)[k] == next[k]);
        assert(r[k] == one);
        assert forall|c: int| 0 <= c < j - i implies #[trigger] r[k].text[c] as int == b[i + c] by {
            assert(printable(b[i + c]));
        }
    }
}

/// A region is searched exactly if it is committed and can be read, and at most its first
/// eight mebibytes are.
pub proof fn lemma_searched(r: RegionModel)
    ensures
        match internals::searched(r) {
            Some(n) => {
                &&& r.state == "commit"@ && r.protect.len() > 0 && r.protect[0] == 'R'
                &&& n == if r.size < 0x80_0000 {
                    r.size as int
                } else {
                    0x80_0000
                }
            },
            None => r.state != "commit"@ || r.protect.len() == 0 || r.protect[0] != 'R',
        },
{
}

/// Whether a word of a pattern stands for a byte.
pub open spec fn is_byte_of(w: Seq<char>, b: Option<u8>) -> bool {
    match b {
        None => w == "?"@ || w == "??"@,
        Some(x) => {
            ||| plain::is_number(w, 16) && plain::value(w, 16) == x
            ||| w.len() > 0 && w[0] == '+' && plain::is_number(w.skip(1), 16) && plain::value(
                w.skip(1),
                16,
            ) == x
        },
    }
}

/// A pattern has one byte for each word: any byte for a question mark or two, else the
/// value of the word in hexadecimal, which is below 256.
pub proof fn lemma_pattern(words: Seq<Seq<char>>, p: Seq<Option<u8>>)
    requires
        pattern::bytes_of(words) == Some(p),
    ensures
        p.len() == words.len(),
        forall|i: int| 0 <= i < words.len() ==> is_byte_of(words[i], #[trigger] p[i]),
    decreases words.len(),
{
    if words.len() > 0 {
        let q = pattern::bytes_of(words.drop_last())->0;
        lemma_pattern(words.drop_last(), q);
        let w = words.last();
        plain::lemma_number(w, 16);
        plain::lemma_number(w.skip(1), 16);
        assert(p.drop_last() =~= q);
        text::lemma_number_nonneg(w, 16);
        text::lemma_number_nonneg(w.skip(1), 16);
        assert(is_byte_of(w, p.last()));
        assert forall|i: int| 0 <= i < words.len() implies is_byte_of(words[i], #[trigger] p[i]) by {
            if i < words.len() - 1 {
                assert(p[i] == q[i] && words.drop_last()[i] == words[i]);
            }
        }
    }
}

/// A number that is read from memory is that of its bytes, the lowest first; with a sign it
/// is negative where the highest bit is set. Where nothing could be read it is zero.
pub proof fn lemma_number_read(b: Seq<u8>)
    ensures
        b.len() >= 1 ==> script::number_of(Some(b), 1) == b[0],
        b.len() >= 2 ==> script::number_of(Some(b), 2) == plain::two(b, 0),
        b.len() >= 4 ==> script::number_of(Some(b), 4) == plain::four(b, 0),
        b.len() >= 8 ==> script::number_of(Some(b), 8) == plain::eight(b, 0),
        b.len() < 4 ==> script::number_of(Some(b), 4) == 0,
        script::number_of(None, 4) == 0,
        b.len() >= 4 ==> script::with_sign(script::number_of(Some(b), 4), 4) == plain::signed(
            plain::four(b, 0),
        ),
{
    bytes::lemma_256_to_8();
    if b.len() >= 1 {
        plain::lemma_le_value(b.take(1));
    }
    if b.len() >= 2 {
        plain::lemma_le_value(b.take(2));
    }
    if b.len() >= 4 {
        plain::lemma_le_value(b.take(4));
    }
    if b.len() >= 8 {
        plain::lemma_le_value(b.take(8));
        assert(plain::four(b.take(8), 4) == plain::four(b, 4));
    }
}

/// The base of a module is that of the first of its name, whatever its case, and zero where
/// there is none.
pub proof fn lemma_module_base(bases: Seq<(String, u64)>, name: Seq<char>, i: int)
    requires
        0 <= i <= bases.len(),
        i < bases.len() ==> text::ascii_lowered(bases[i].0@) == text::ascii_lowered(name),
        i < bases.len() ==> bases[i].1 < 0x8000_0000_0000_0000,
        forall|j: int|
            0 <= j < i ==> text::ascii_lowered((#[trigger] bases[j]).0@) != text::ascii_lowered(name),
    ensures
        script::base_of(bases, name) == if i < bases.len() {
            bases[i].1 as int
        } else {
            0
        },
    decreases i,
{
    if i > 0 {
        assert(text::ascii_lowered(bases[0].0@) != text::ascii_lowered(name));
        let t = bases.skip(1);
        assert forall|j: int| 0 <= j < i - 1 implies text::ascii_lowered((#[trigger] t[j]).0@)
            != text::ascii_lowered(name) by {
            assert(t[j] == bases[j + 1]);
        }
        lemma_module_base(t, name, i - 1);
    }
}

/// Code units that are no surrogates are one character each.
pub proof fn lemma_units_text(u: Seq<u16>)
    requires
        forall|i: int| 0 <= i < u.len() ==> #[trigger] u[i] < 0xD800,
    ensures
        bytes::utf16_text(u).len() == u.len(),
        forall|i: int| 0 <= i < u.len() ==> #[trigger] bytes::utf16_text(u)[i] as int == u[i],
{
    assert(bytes::no_surrogates(u));
    assert forall|i: int| 0 <= i < u.len() implies #[trigger] bytes::utf16_text(u)[i] as int
        == u[i] by {
        assert(u[i] < 0xD800);
    }
}

/// Whether the bytes from `i` on are printable characters with a zero behind each, up to
/// `j`, where they end.
pub open spec fn is_wide_run(b: Seq<u8>, i: int, j: int) -> bool {
    &&& 0 <= i < j <= b.len()
    &&& (j - i) % 2 == 0
    &&& forall|k: int|
        i <= k < j && (k - i) % 2 == 0 ==> printable(#[trigger] b[k]) && b[k + 1] == 0
    &&& j + 1 >= b.len() || !printable(b[j]) || b[j + 1] != 0
}

proof fn lemma_wide_end(b: Seq<u8>, i: int, j: int)
    requires
        0 <= i <= j <= b.len(),
        (j - i) % 2 == 0,
        forall|k: int|
            i <= k < j && (k - i) % 2 == 0 ==> printable(#[trigger] b[k]) && b[k + 1] == 0,
        j + 1 >= b.len() || !printable(b[j]) || b[j + 1] != 0,
    ensures
        internals::wide_end(b, i) == j,
    decreases j - i,
{
    if i < j {
        assert(printable(b[i]) && b[i + 1] == 0);
        assert forall|k: int| i + 2 <= k < j && (k - (i + 2)) % 2 == 0 implies printable(
            #[trigger] b[k],
        ) && b[k + 1] == 0 by {
            assert((k - i) % 2 == 0);
        }
        lemma_wide_end(b, i + 2, j);
    }
}

/// A text of two bytes a character at the place where the search stands is found, if it is
/// long enough.
pub proof fn lemma_wide_found(
    b: Seq<u8>,
    base: u64,
    min: int,
    out: Seq<FoundModel>,
    i: int,
    j: int,
)
    requires
        is_wide_run(b, i, j),
        (j - i) / 2 >= min,
        out.len() + 1 < 20000,
    ensures
        ({
            let f = FoundModel {
                addr: ((base + i) % 0x1_0000_0000_0000_0000) as u64,
                wide: true,
                text: Seq::new(((j - i) / 2) as nat, |k: int| b[i + 2 * k] as char),
            };
            internals::wide_from(b, base, min, i, out) == internals::wide_from(
                b,
                base,
                min,
                j,
                out.push(f),
            )
        }),
{
    assert(printable(b[i]) && b[i + 1] == 0);
    lemma_wide_end(b, i, j);
    assert(internals::run_text(b, i, j, 2) =~= Seq::new(
        ((j - i) / 2) as nat,
        |k: int| b[i + 2 * k] as char,
    ));
}

/// Where no such text begins, the search goes one byte on.
pub proof fn lemma_wide_passed(b: Seq<u8>, base: u64, min: int, out: Seq<FoundModel>, i: int)
    requires
        0 <= i,
        i + 1 < b.len(),
        !printable(b[i]) || b[i + 1] != 0,
    ensures
        internals::wide_from(b, base, min, i, out) == internals::wide_from(
            b,
            base,
            min,
            i + 1,
            out,
        ),
{
}

/// The search asks for the first region from its place on that can be searched, as far as
/// that goes, and moves there; full, it asks for none.
pub proof fn lemma_search_asks(s: internals::SearchModel, regions: Seq<RegionModel>, i: int)
    requires
        0 <= s.at <= i <= regions.len(),
        i < regions.len() ==> internals::searched(regions[i]) is Some,
        forall|j: int| s.at <= j < i ==> internals::searched(#[trigger] regions[j]) is None,
    ensures
        ({
            let (next, r) = internals::asked(s, regions);
            &&& s.full ==> next == s && r is None
            &&& !s.full && i < regions.len() ==> next.at == i && r == Some(
                (regions[i].base, internals::searched(regions[i])->0),
            )
            &&& !s.full && i == regions.len() ==> r is None
            &&& next.out == s.out && next.full == s.full
        }),
    decreases i - s.at,
{
    lemma_next_searched(regions, s.at, i);
}

proof fn lemma_next_searched(regions: Seq<RegionModel>, at: int, i: int)
    requires
        0 <= at <= i <= regions.len(),
        i < regions.len() ==> internals::searched(regions[i]) is Some,
        forall|j: int| at <= j < i ==> internals::searched(#[trigger] regions[j]) is None,
    ensures
        internals::next_searched(regions, at) == i,
    decreases i - at,
{
    if at < i {
        assert(internals::searched(regions[at]) is None);
        lemma_next_searched(regions, at + 1, i);
    }
}

/// What was read of a region is searched for texts of one byte a character, then of two; a
/// region that cannot be read is passed over.
pub proof fn lemma_search_takes(s: internals::SearchModel, base: u64, b: Seq<u8>, min: int)
    ensures
        ({
            let next = internals::answered(s, base, Some(b), min);
            let narrow = internals::narrow_from(b, base, min, 0, s.out);
            &&& next.at == s.at + 1
            &&& next.out == internals::wide_from(b, base, min, 0, narrow)
            &&& next.full == (next.out.len() >= 20000)
        }),
        internals::answered(s, base, None, min).at == s.at + 1,
        internals::answered(s, base, None, min).out == s.out,
{
}

/// A module ends behind its size, and the regions of a module are those that begin in it.
pub proof fn lemma_module_regions(m: ModuleInfo, regions: Seq<target::Region>, r: target::Region)
    requires
        m.base + m.size <= u64::MAX,
    ensures
        target::module_end(m) == m.base + m.size,
        target::starting_in(regions, m.base, target::module_end(m)).contains(r) <==> regions.contains(
            r,
        ) && m.base <= r.base < m.base + m.size,
{
    let f = |x: target::Region| m.base <= x.base < target::module_end(m);
    if regions.filter(f).contains(r) {
        regions.lemma_filter_contains_rev(f, r);
    }
    if regions.contains(r) && f(r) {
        let i = regions.index_of(r);
        regions.lemma_filter_contains(f, i);
    }
}

/// Bytes with a sign, of one, two and eight.
pub proof fn lemma_signs_read(b: Seq<u8>)
    ensures
        b.len() >= 1 ==> script::with_sign(script::number_of(Some(b), 1), 1) == if b[0] < 128 {
            b[0] as int
        } else {
            b[0] - 256
        },
        b.len() >= 2 ==> script::with_sign(script::number_of(Some(b), 2), 2) == if plain::two(b, 0)
            < 0x8000 {
            plain::two(b, 0)
        } else {
            plain::two(b, 0) - 0x1_0000
        },
        b.len() >= 8 ==> script::with_sign(script::number_of(Some(b), 8), 8) == if plain::eight(b, 0)
            < 0x8000_0000_0000_0000 {
            plain::eight(b, 0)
        } else {
            plain::eight(b, 0) - 0x1_0000_0000_0000_0000
        },
{
    lemma_number_read(b);
    bytes::lemma_256_to_8();
}

/// Every word of a pattern that is a question mark, two of them, or a hexadecimal number
/// below 256 is accepted.
pub proof fn lemma_pattern_accepted(words: Seq<Seq<char>>)
    requires
        forall|i: int|
            0 <= i < words.len() ==> {
                ||| #[trigger] words[i] == "?"@
                ||| words[i] == "??"@
                ||| plain::is_number(words[i], 16) && plain::value(words[i], 16) < 256
            },
    ensures
        pattern::bytes_of(words) is Some,
    decreases words.len(),
{
    if words.len() > 0 {
        let t = words.drop_last();
        assert forall|i: int| 0 <= i < t.len() implies ({
            ||| #[trigger] t[i] == "?"@
            ||| t[i] == "??"@
            ||| plain::is_number(t[i], 16) && plain::value(t[i], 16) < 256
        }) by {
            assert(t[i] == words[i]);
        }
        lemma_pattern_accepted(t);
        let w = words[words.len() - 1];
        assert(w == words.last());
        plain::lemma_number(w, 16);
        if plain::is_number(w, 16) {
            assert(plain::worth(w[0]) is Some);
        }
    }
}

/// A number in a pattern is that byte, and question marks are any.
pub proof fn lemma_pattern_byte(w: Seq<char>)
    requires
        plain::is_number(w, 16),
        plain::value(w, 16) < 256,
    ensures
        pattern::byte_of(w) == Some(Some(plain::value(w, 16) as u8)),
        pattern::byte_of("?"@) == Some(None::<u8>),
        pattern::byte_of("??"@) == Some(None::<u8>),
{
    reveal_strlit("?");
    reveal_strlit("??");
    assert("?"@[0] == '?' && "??"@[0] == '?');
    plain::lemma_number(w, 16);
    assert(plain::worth(w[0]) is Some);
}

/// The range of a module goes from its base to behind its size; the first of its name
/// counts.
pub proof fn lemma_range(modules: Seq<ModuleInfo>, name: Seq<char>, i: int)
    requires
        0 <= i < modules.len(),
        text::ascii_lowered(modules[i].name@) == text::ascii_lowered(name),
        forall|j: int|
            0 <= j < i ==> text::ascii_lowered((#[trigger] modules[j]).name@) != text::ascii_lowered(
                name,
            ),
        modules[i].base + modules[i].size <= u64::MAX,
    ensures
        assembler::range_of(modules, name) == Some(
            (modules[i].base, (modules[i].base + modules[i].size) as u64),
        ),
{
    games::lemma_module_found(modules, name);
    let k = target::module_index(modules, name);
    if k is None {
        assert(text::ascii_lowered(modules[i].name@) != text::ascii_lowered(name));
    } else if k->0 < i {
        assert(text::ascii_lowered(modules[k->0].name@) != text::ascii_lowered(name));
    } else if k->0 > i {
        assert(text::ascii_lowered(modules[i].name@) != text::ascii_lowered(name));
    }
}

} // verus!
