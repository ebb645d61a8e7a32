//! Images of programs: which bytes of the file each field is.
use crate::bytes;
use crate::laws::games;
use crate::laws::plain;
use crate::pe;
use crate::pe::{ExportTables, ImportModel, PeModel, SectionModel};
use crate::text;
use vstd::prelude::*;

verus! {

proof fn lemma_fields(b: Seq<u8>)
    ensures
        forall|o: int| #[trigger] pe::field(b, o, 2) == plain::two_at(b, o),
        forall|o: int| #[trigger] pe::field(b, o, 4) == plain::four_at(b, o),
        forall|o: int| #[trigger] pe::field(b, o, 8) == plain::eight_at(b, o),
{
    assert forall|o: int| #[trigger] pe::field(b, o, 2) == plain::two_at(b, o) by {
        plain::lemma_le_at(b, o);
    }
    assert forall|o: int| #[trigger] pe::field(b, o, 4) == plain::four_at(b, o) by {
        plain::lemma_le_at(b, o);
    }
    assert forall|o: int| #[trigger] pe::field(b, o, 8) == plain::eight_at(b, o) by {
        plain::lemma_le_at(b, o);
    }
}

/// Whether bytes begin as an image does: `MZ`, at 0x3C the offset of `PE`, two zeros, the
/// file header and the first two bytes of the optional one.
pub open spec fn is_image(b: Seq<u8>) -> bool {
    let pe = plain::four_at(b, 60);
    &&& b.len() >= 64
    &&& b[0] == 0x4D && b[1] == 0x5A
    &&& pe + 26 <= b.len()
    &&& b[pe] == 0x50 && b[pe + 1] == 0x45 && b[pe + 2] == 0 && b[pe + 3] == 0
}

/// Where the optional header stands.
pub open spec fn optional_header(b: Seq<u8>) -> int {
    plain::four_at(b, 60) + 24
}

/// Where the address in the data directory `k` stands: behind 112 bytes of the optional
/// header for 64 bits and 96 for 32 bits, eight bytes each.
pub open spec fn directory(b: Seq<u8>, k: int) -> int {
    optional_header(b) + (if plain::two_at(b, optional_header(b)) == 0x20B {
        112int
    } else {
        96
    }) + 8 * k
}

/// The header of an image: exactly the files that begin as one are read, and each field
/// stands at its place.
pub proof fn lemma_header(b: Seq<u8>)
    ensures
        pe::analysis(b) is Ok <==> is_image(b),
        pe::analysis(b) matches Ok(m) ==> {
            let h = optional_header(b);
            &&& m.is_64 == (plain::two_at(b, h) == 0x20B)
            &&& m.timestamp == plain::four_at(b, h - 16)
            &&& m.entry_point == plain::four_at(b, h + 16)
            &&& m.image_base == if m.is_64 {
                plain::eight_at(b, h + 24)
            } else {
                plain::four_at(b, h + 28)
            }
            &&& m.size_of_image == plain::four_at(b, h + 56)
            &&& m.dll_characteristics == plain::two_at(b, h + 70)
            &&& m.is_dll == ((plain::two_at(b, h - 2) / 0x2000) % 2 == 1)
            &&& m.is_dotnet == (plain::four_at(b, directory(b, 14)) != 0)
        },
{
    lemma_fields(b);
    let pe = plain::four_at(b, 60);
    plain::lemma_le_at(b, pe);
    if 0 <= pe && pe + 4 <= b.len() {
        assert(bytes::le_at(b, pe, 4) == Some(plain::four(b, pe)));
    }
}

/// Only the address in data directory 14 decides whether an image is managed code: two
/// images that agree on it, and on where it stands, agree on that, whatever else they
/// hold.
pub proof fn lemma_managed(a: Seq<u8>, b: Seq<u8>)
    requires
        pe::analysis(a) is Ok,
        pe::analysis(b) is Ok,
        plain::four_at(a, directory(a, 14)) == plain::four_at(b, directory(b, 14)),
    ensures
        pe::analysis(a)->Ok_0.is_dotnet == pe::analysis(b)->Ok_0.is_dotnet,
{
    lemma_header(a);
    lemma_header(b);
}

/// The processor and the subsystem of an image, by their numbers.
pub proof fn lemma_processor_and_subsystem(b: Seq<u8>)
    requires
        is_image(b),
    ensures
        ({
            let m = pe::analysis(b)->Ok_0;
            let processor = plain::two_at(b, optional_header(b) - 20);
            let subsystem = plain::two_at(b, optional_header(b) + 68);
            &&& processor == 0x8664 ==> m.machine_str == "x64 (AMD64)"@
            &&& processor == 0x14C ==> m.machine_str == "x86 (i386)"@
            &&& processor == 0xAA64 ==> m.machine_str == "ARM64"@
            &&& processor == 0x1C4 ==> m.machine_str == "ARM (Thumb-2)"@
            &&& processor != 0x8664 && processor != 0x14C && processor != 0xAA64 && processor
                != 0x1C4 ==> m.machine_str == "desconhecida"@
            &&& subsystem == 1 ==> m.subsystem_str == "Native"@
            &&& subsystem == 2 ==> m.subsystem_str == "Windows GUI"@
            &&& subsystem == 3 ==> m.subsystem_str == "Windows Console"@
            &&& subsystem == 5 ==> m.subsystem_str == "OS/2 Console"@
            &&& subsystem == 7 ==> m.subsystem_str == "POSIX Console"@
            &&& subsystem == 9 ==> m.subsystem_str == "Windows CE GUI"@
            &&& subsystem == 10 ==> m.subsystem_str == "EFI Application"@
            &&& subsystem == 0 || subsystem == 4 || subsystem == 6 || subsystem == 8 || subsystem
                > 10 ==> m.subsystem_str == "outro"@
        }),
{
    lemma_header(b);
    lemma_fields(b);
}

/// Whether a section is the one whose header stands at `h`: eight bytes of name, then its
/// size and place in memory, its size and place in the file, and at 36 its flags.
pub open spec fn is_section(b: Seq<u8>, h: int, s: SectionModel) -> bool {
    &&& s.vsize == plain::four_at(b, h + 8)
    &&& s.vaddr == plain::four_at(b, h + 12)
    &&& s.raw_size == plain::four_at(b, h + 16)
    &&& s.raw_offset == plain::four_at(b, h + 20)
    &&& s.characteristics == plain::four_at(b, h + 36)
    &&& forall|n: int|
        0 <= n <= 8 && (n == 8 || b[h + n] == 0) && (forall|j: int|
            0 <= j < n ==> #[trigger] b[h + j] != 0) ==> s.name == bytes::utf8_text(
            #[trigger] b.subrange(h, h + n),
        )
}

proof fn lemma_before_zero(s: Seq<u8>, n: int)
    requires
        0 <= n <= s.len(),
        n == s.len() || s[n] == 0,
        forall|j: int| 0 <= j < n ==> #[trigger] s[j] != 0,
    ensures
        pe::before_zero(s) == s.take(n),
    decreases n,
{
    if n > 0 {
        assert(s[0] != 0);
        let t = s.skip(1);
        assert forall|j: int| 0 <= j < n - 1 implies #[trigger] t[j] != 0 by {
            assert(t[j] == s[j + 1]);
        }
        lemma_before_zero(t, n - 1);
        assert(s.take(n) =~= seq![s[0]] + t.take(n - 1));
    } else {
        assert(s.take(0) =~= Seq::<u8>::empty());
    }
}

proof fn lemma_section(b: Seq<u8>, h: int)
    requires
        0 <= h,
        h + 8 <= b.len(),
    ensures
        is_section(b, h, pe::section_at(b, h)),
{
    lemma_fields(b);
    let name = b.subrange(h, h + 8);
    assert forall|n: int|
        0 <= n <= 8 && (n == 8 || b[h + n] == 0) && (forall|j: int|
            0 <= j < n ==> #[trigger] b[h + j] != 0) implies pe::section_at(b, h).name
        == bytes::utf8_text(#[trigger] b.subrange(h, h + n)) by {
        assert forall|j: int| 0 <= j < n implies #[trigger] name[j] != 0 by {
            assert(name[j] == b[h + j]);
        }
        lemma_before_zero(name, n);
        assert(name.take(n) =~= b.subrange(h, h + n));
    }
}

proof fn lemma_sections(b: Seq<u8>, table: int, n: int)
    requires
        0 <= table,
        0 <= n,
        table + 40 * n <= b.len(),
    ensures
        pe::sections_from(b, table, n).len() == n,
        forall|i: int|
            0 <= i < n ==> is_section(b, table + 40 * i, #[trigger] pe::sections_from(b, table, n)[i]),
    decreases n,
{
    if n > 0 {
        lemma_section(b, table);
        lemma_sections(b, table + 40, n - 1);
        let all = pe::sections_from(b, table, n);
        let rest = pe::sections_from(b, table + 40, n - 1);
        assert forall|i: int| 0 <= i < n implies is_section(b, table + 40 * i, #[trigger] all[i]) by {
            if i > 0 {
                assert(all[i] == rest[i - 1]);
                assert(is_section(b, table + 40 + 40 * (i - 1), rest[i - 1]));
            }
        }
    }
}

/// The sections of an image are those of its table, which stands behind the optional header
/// and has 40 bytes for each.
pub proof fn lemma_section_table(b: Seq<u8>)
    requires
        is_image(b),
        ({
            let h = optional_header(b);
            h + plain::two_at(b, h - 4) + 40 * plain::two_at(b, h - 18) <= b.len()
        }),
    ensures
        ({
            let h = optional_header(b);
            let table = h + plain::two_at(b, h - 4);
            let sections = pe::analysis(b)->Ok_0.sections;
            &&& sections.len() == plain::two_at(b, h - 18)
            &&& forall|i: int|
                0 <= i < sections.len() ==> is_section(b, table + 40 * i, #[trigger] sections[i])
        }),
{
    lemma_header(b);
    lemma_fields(b);
    let h = optional_header(b);
    lemma_sections(b, h + plain::two_at(b, h - 4), plain::two_at(b, h - 18));
}

/// Whether an address in memory lies in a section: the longer of its two sizes counts.
pub open spec fn lies_in(s: SectionModel, rva: int) -> bool {
    let size = if s.vsize < s.raw_size {
        s.raw_size
    } else {
        s.vsize
    };
    s.vaddr <= rva < (s.vaddr + size) % 0x1_0000_0000
}

/// An address in memory stands in the file as far behind the raw data of the first section
/// that it lies in as it is behind that section; in no section it stands nowhere.
pub proof fn lemma_offset(sections: Seq<SectionModel>, rva: int)
    ensures
        match pe::file_offset(sections, rva) {
            Some(o) => exists|i: int|
                {
                    &&& 0 <= i < sections.len()
                    &&& lies_in(#[trigger] sections[i], rva)
                    &&& o == (sections[i].raw_offset + (rva - sections[i].vaddr)) % 0x1_0000_0000
                    &&& forall|j: int| 0 <= j < i ==> !lies_in(#[trigger] sections[j], rva)
                },
            None => forall|j: int| 0 <= j < sections.len() ==> !lies_in(#[trigger] sections[j], rva),
        },
    decreases sections.len(),
{
    if sections.len() > 0 {
        if pe::covers(sections[0], rva) {
            assert(lies_in(sections[0], rva));
        } else {
            let rest = sections.skip(1);
            lemma_offset(rest, rva);
            assert(forall|j: int| 0 <= j < rest.len() ==> rest[j] == #[trigger] sections[j + 1]);
            if pe::file_offset(rest, rva) is Some {
                let o = pe::file_offset(rest, rva)->0;
                let i = choose|i: int|
                    {
                        &&& 0 <= i < rest.len()
                        &&& lies_in(#[trigger] rest[i], rva)
                        &&& o == (rest[i].raw_offset + (rva - rest[i].vaddr)) % 0x1_0000_0000
                        &&& forall|j: int| 0 <= j < i ==> !lies_in(#[trigger] rest[j], rva)
                    };
                assert(rest[i] == sections[i + 1]);
                assert forall|j: int| 0 <= j < i + 1 implies !lies_in(#[trigger] sections[j], rva) by {
                    if j > 0 {
                        assert(rest[j - 1] == sections[j]);
                    }
                }
                assert(lies_in(sections[i + 1], rva));
            } else {
                assert forall|j: int| 0 <= j < sections.len() implies !lies_in(
                    #[trigger] sections[j],
                    rva,
                ) by {
                    if j > 0 {
                        assert(rest[j - 1] == sections[j]);
                    }
                }
            }
        }
    }
}

/// The imports and the exports of an image are those of its data directories 1 and 0;
/// where the address is zero there are none.
pub proof fn lemma_directories(b: Seq<u8>)
    requires
        is_image(b),
    ensures
        ({
            let m = pe::analysis(b)->Ok_0;
            let imports = plain::four_at(b, directory(b, 1));
            let exports = plain::four_at(b, directory(b, 0));
            &&& imports == 0 ==> m.imports.len() == 0
            &&& exports == 0 ==> m.exports.len() == 0
            &&& imports != 0 ==> match pe::file_offset(m.sections, imports) {
                Some(d) => m.imports == pe::imports_from(b, m.sections, m.is_64, d, 512),
                None => m.imports.len() == 0,
            }
            &&& exports != 0 ==> match pe::file_offset(m.sections, exports) {
                Some(d) => m.exports == pe::directory_exports(b, m.sections, d),
                None => m.exports.len() == 0,
            }
        }),
{
    lemma_header(b);
    lemma_fields(b);
}

/// Whether a descriptor of imports, of 20 bytes, is the last: it names no library and no
/// table.
pub open spec fn last_descriptor(b: Seq<u8>, d: int) -> bool {
    plain::four_at(b, d + 12) == 0 && plain::four_at(b, d + 16) == 0
}

/// The name of each imported library is the text at the address in bytes 12 to 15 of its
/// descriptor; the list of its functions is at the address in bytes 0 to 3, or 16 to 19
/// where that is zero.
pub proof fn lemma_imported_libraries(
    b: Seq<u8>,
    sections: Seq<SectionModel>,
    is_64: bool,
    d: int,
    left: int,
    i: int,
)
    requires
        0 <= i < pe::imports_from(b, sections, is_64, d, left).len(),
    ensures
        ({
            let one = pe::imports_from(b, sections, is_64, d, left)[i];
            let e = d + 20 * i;
            let first = plain::four_at(b, e);
            let list = if first == 0 {
                plain::four_at(b, e + 16)
            } else {
                first
            };
            &&& !last_descriptor(b, e)
            &&& one.dll == pe::text_at(b, sections, plain::four_at(b, e + 12))
            &&& match pe::file_offset(sections, list) {
                Some(t) => one.funcs == pe::functions_from(b, sections, is_64, t, 5000, 0),
                None => one.funcs.len() == 0,
            }
        }),
    decreases left,
{
    lemma_fields(b);
    if i > 0 {
        let rest = pe::imports_from(b, sections, is_64, d + 20, left - 1);
        assert(pe::imports_from(b, sections, is_64, d, left)[i] == rest[i - 1]);
        lemma_imported_libraries(b, sections, is_64, d + 20, left - 1, i - 1);
        assert(d + 20 + 20 * (i - 1) == d + 20 * i);
    }
}

/// There are as many imported libraries as descriptors before the last one.
pub proof fn lemma_import_count(
    b: Seq<u8>,
    sections: Seq<SectionModel>,
    is_64: bool,
    d: int,
    left: int,
    n: int,
)
    requires
        0 <= n < left,
        last_descriptor(b, d + 20 * n),
        forall|i: int| 0 <= i < n ==> !#[trigger] last_descriptor(b, d + 20 * i),
    ensures
        pe::imports_from(b, sections, is_64, d, left).len() == n,
    decreases left,
{
    lemma_fields(b);
    if n > 0 {
        assert(!last_descriptor(b, d + 20 * 0));
        assert forall|i: int| 0 <= i < n - 1 implies !#[trigger] last_descriptor(
            b,
            d + 20 + 20 * i,
        ) by {
            assert(!last_descriptor(b, d + 20 * (i + 1)));
            assert(d + 20 * (i + 1) == d + 20 + 20 * i);
        }
        assert(d + 20 + 20 * (n - 1) == d + 20 * n);
        lemma_import_count(b, sections, is_64, d + 20, left - 1, n - 1);
    }
}

/// A list of functions has entries of eight bytes for 64 bits and four for 32, up to a
/// zero: the highest bit says that the function is given by its number, in the lowest two
/// bytes; else its name stands two bytes behind the address.
pub proof fn lemma_imported_function(
    b: Seq<u8>,
    sections: Seq<SectionModel>,
    is_64: bool,
    at: int,
    left: int,
    got: int,
)
    requires
        left > 0,
        0 <= got < 1999,
    ensures
        ({
            let val = if is_64 {
                plain::eight_at(b, at)
            } else {
                plain::four_at(b, at)
            };
            let top = if is_64 {
                val / 0x8000_0000_0000_0000
            } else {
                val / 0x8000_0000
            };
            let all = pe::functions_from(b, sections, is_64, at, left, got);
            let next = if is_64 {
                at + 8
            } else {
                at + 4
            };
            if val == 0 {
                all.len() == 0
            } else if top == 1 {
                all == seq!["#"@ + text::decimal((val % 0x1_0000) as nat)] + pe::functions_from(
                    b,
                    sections,
                    is_64,
                    next,
                    left - 1,
                    got + 1,
                )
            } else {
                match pe::file_offset(sections, val % 0x8000_0000) {
                    Some(o) => all == seq![pe::c_text(b, o + 2, 256)] + pe::functions_from(
                        b,
                        sections,
                        is_64,
                        next,
                        left - 1,
                        got + 1,
                    ),
                    None => all == pe::functions_from(b, sections, is_64, next, left - 1, got),
                }
            }
        }),
{
    lemma_fields(b);
    let no = Seq::<Seq<char>>::empty();
    assert(no + pe::functions_from(b, sections, is_64, at + pe::entry_size(is_64), left - 1, got)
        =~= pe::functions_from(b, sections, is_64, at + pe::entry_size(is_64), left - 1, got));
}

/// The exports of a directory at `d`: names at the address at 32, their numbers, two bytes
/// each, at 36, the functions at 28; the number of an export is its index and the first
/// number, at 16, and its address is that of the function with its index.
pub proof fn lemma_exports(b: Seq<u8>, sections: Seq<SectionModel>, d: int, i: int)
    requires
        ({
            let names = pe::file_offset(sections, plain::four_at(b, d + 32));
            let count = plain::four_at(b, d + 24);
            &&& pe::file_offset(sections, plain::four_at(b, d + 28)) is Some
            &&& names is Some
            &&& pe::file_offset(sections, plain::four_at(b, d + 36)) is Some
            &&& 0 <= i < count
            &&& count <= plain::four_at(b, d + 20)
            &&& count <= 20000
            &&& forall|j: int|
                0 <= j < count ==> pe::text_at(
                    b,
                    sections,
                    plain::four_at(b, #[trigger] entry_of(names->0, j)),
                ).len() > 0
        }),
    ensures
        ({
            let functions = pe::file_offset(sections, plain::four_at(b, d + 28))->0;
            let names = pe::file_offset(sections, plain::four_at(b, d + 32))->0;
            let ordinals = pe::file_offset(sections, plain::four_at(b, d + 36))->0;
            let all = pe::directory_exports(b, sections, d);
            let k = plain::two_at(b, ordinals + 2 * i);
            &&& all.len() == plain::four_at(b, d + 24)
            &&& all[i].name == pe::text_at(b, sections, plain::four_at(b, names + 4 * i))
            &&& all[i].ordinal == (k + plain::four_at(b, d + 16)) % 0x1_0000
            &&& all[i].rva == plain::four_at(b, functions + 4 * k)
        }),
{
    lemma_fields(b);
    let t = ExportTables {
        functions: pe::file_offset(sections, plain::four_at(b, d + 28))->0,
        names: pe::file_offset(sections, plain::four_at(b, d + 32))->0,
        ordinals: pe::file_offset(sections, plain::four_at(b, d + 36))->0,
    };
    lemma_named_exports(b, sections, t, plain::four_at(b, d + 16), plain::four_at(b, d + 24), i);
}

/// Where the entry of a table of four bytes each stands.
pub open spec fn entry_of(table: int, j: int) -> int {
    table + 4 * j
}

proof fn lemma_named_exports(
    b: Seq<u8>,
    sections: Seq<SectionModel>,
    t: ExportTables,
    base: int,
    n: int,
    i: int,
)
    requires
        0 <= n,
        forall|j: int|
            0 <= j < n ==> pe::text_at(
                b,
                sections,
                plain::four_at(b, #[trigger] entry_of(t.names, j)),
            ).len() > 0,
    ensures
        pe::exports_until(b, sections, t, base, n).len() == n,
        0 <= i < n ==> {
            let one = pe::exports_until(b, sections, t, base, n)[i];
            let k = plain::two_at(b, t.ordinals + 2 * i);
            &&& one.name == pe::text_at(b, sections, plain::four_at(b, t.names + 4 * i))
            &&& one.ordinal == (k + base) % 0x1_0000
            &&& one.rva == plain::four_at(b, t.functions + 4 * k)
        },
    decreases n,
{
    lemma_fields(b);
    if n > 0 {
        lemma_named_exports(b, sections, t, base, n - 1, i);
        assert(entry_of(t.names, n - 1) == t.names + (n - 1) * 4);
    }
}

/// Whether the bit with this weight is set.
pub open spec fn set(n: int, weight: int) -> bool {
    (n / weight) % 2 != 0
}

/// The flags of a section: bits 29, 30 and 31 are execution, reading and writing, bits 5
/// and 6 code and data.
pub proof fn lemma_section_flags(c: int)
    ensures
        pe::flags_text(c) == (if set(c, 0x2000_0000) {
            "X"@
        } else {
            ""@
        }) + (if set(c, 0x4000_0000) {
            "R"@
        } else {
            ""@
        }) + (if set(c, 0x8000_0000) {
            "W"@
        } else {
            ""@
        }) + (if set(c, 0x20) {
            " code"@
        } else {
            ""@
        }) + (if set(c, 0x40) {
            " data"@
        } else {
            ""@
        }),
{
    reveal_strlit("");
    assert(""@ =~= Seq::<char>::empty());
}

/// The protections of an image are named exactly for the bits that are set.
pub proof fn lemma_protections(d: int)
    ensures
        ({
            let all = pe::mitigation_list(d);
            &&& all.contains("ASLR"@) <==> set(d, 0x40)
            &&& all.contains("ASLR-alta-entropia"@) <==> set(d, 0x20)
            &&& all.contains("DEP/NX"@) <==> set(d, 0x100)
            &&& all.contains("CFG"@) <==> set(d, 0x4000)
            &&& all.contains("sem-SEH"@) <==> set(d, 0x400)
            &&& all.contains("força-integridade"@) <==> set(d, 0x80)
        }),
{
    reveal_strlit("ASLR");
    reveal_strlit("ASLR-alta-entropia");
    reveal_strlit("DEP/NX");
    reveal_strlit("CFG");
    reveal_strlit("sem-SEH");
    reveal_strlit("força-integridade");
    let n = Seq::<Seq<char>>::empty();
    let a = pe::listed(n, set(d, 0x40), "ASLR"@);
    lemma_listed(n, set(d, 0x40), "ASLR"@);
    let b = pe::listed(a, set(d, 0x20), "ASLR-alta-entropia"@);
    lemma_listed(a, set(d, 0x20), "ASLR-alta-entropia"@);
    let c = pe::listed(b, set(d, 0x100), "DEP/NX"@);
    lemma_listed(b, set(d, 0x100), "DEP/NX"@);
    let e = pe::listed(c, set(d, 0x4000), "CFG"@);
    lemma_listed(c, set(d, 0x4000), "CFG"@);
    let f = pe::listed(e, set(d, 0x400), "sem-SEH"@);
    lemma_listed(e, set(d, 0x400), "sem-SEH"@);
    lemma_listed(f, set(d, 0x80), "força-integridade"@);
    assert("ASLR"@.len() == 4 && "ASLR-alta-entropia"@.len() == 18 && "DEP/NX"@.len() == 6
        && "CFG"@.len() == 3 && "sem-SEH"@.len() == 7 && "força-integridade"@.len() == 17);
}

proof fn lemma_listed(v: Seq<Seq<char>>, on: bool, t: Seq<char>)
    ensures
        forall|x: Seq<char>| #[trigger]
            pe::listed(v, on, t).contains(x) <==> v.contains(x) || (on && x == t),
{
    assert forall|x: Seq<char>| #[trigger]
        pe::listed(v, on, t).contains(x) <==> v.contains(x) || (on && x == t) by {
        if on {
            let w = v.push(t);
            assert(w[v.len() as int] == t);
            if v.contains(x) {
                let i = v.index_of(x);
                assert(w[i] == x);
            }
        }
    }
}

/// What is said of an image: managed code, the sections of the packer UPX, a section
/// that is empty in the file and large in memory, and a small table of imports are said
/// exactly where they are found; where nothing is found, that is said.
pub proof fn lemma_findings(m: PeModel, high: Seq<bool>)
    ensures
        ({
            let all = pe::findings(m, high);
            let empty = exists|i: int|
                0 <= i < m.sections.len() && (#[trigger] m.sections[i]).raw_size == 0
                    && m.sections[i].vsize > 4096;
            &&& m.is_dotnet ==> all.contains("Binário .NET / gerenciado (CLR)."@)
            &&& pe::has_upx(m.sections) ==> all.contains("Seções UPX — empacotado com UPX."@)
            &&& empty ==> all.contains(
                "Seção sem dados crus (vsize ≫ raw) — código descomprimido em runtime."@,
            )
            &&& m.imports.len() < 3 && pe::total_functions(m.imports) <= 9 && !m.is_dotnet
                ==> all.contains(pe::small_table(m.imports.len(), pe::total_functions(m.imports)))
            &&& !m.is_dotnet && pe::high_names(m.sections, high, m.sections.len() as int).len() == 0
                && !pe::has_upx(m.sections) && !empty && m.imports.len() >= 3 && !pe::has_section(
                m.sections,
                ".rdata"@,
            ) && !pe::has_gcc(m.sections) ==> all == seq![
                "Nada de anormal — provável binário não-empacotado."@,
            ]
        }),
{
    let names = pe::high_names(m.sections, high, m.sections.len() as int);
    let total = pe::total_functions(m.imports);
    let n = Seq::<Seq<char>>::empty();
    let t1 = "Binário .NET / gerenciado (CLR)."@;
    let a = pe::listed(n, m.is_dotnet, t1);
    lemma_listed(n, m.is_dotnet, t1);
    let t2 = "Seção(ões) de alta entropia ("@ + text::joined_with(names, ", "@)
        + ") — provável compressão/cifra (packer)."@;
    let b = pe::listed(a, names.len() > 0, t2);
    lemma_listed(a, names.len() > 0, t2);
    let t3 = "Seções UPX — empacotado com UPX."@;
    let c = pe::listed(b, pe::has_upx(m.sections), t3);
    lemma_listed(b, pe::has_upx(m.sections), t3);
    let t4 = "Seção sem dados crus (vsize ≫ raw) — código descomprimido em runtime."@;
    let d = pe::listed(c, pe::has_unpacked(m.sections), t4);
    lemma_listed(c, pe::has_unpacked(m.sections), t4);
    let few = m.imports.len() <= 2 && total < 10 && !m.is_dotnet;
    let e = pe::listed(d, few, pe::small_table(m.imports.len(), total));
    lemma_listed(d, few, pe::small_table(m.imports.len(), total));
    let msvc = pe::has_section(m.sections, ".text"@) && pe::has_section(m.sections, ".rdata"@);
    let t6 = "Layout típico de MSVC (.text/.rdata/.data)."@;
    let f = pe::listed(e, msvc, t6);
    lemma_listed(e, msvc, t6);
    let t7 = "Layout típico de GCC/MinGW."@;
    let g = pe::listed(f, !msvc && pe::has_gcc(m.sections), t7);
    lemma_listed(f, !msvc && pe::has_gcc(m.sections), t7);
    let t8 = "Nada de anormal — provável binário não-empacotado."@;
    lemma_listed(g, g.len() == 0, t8);
    assert(n.push(t8) =~= seq![t8]);
    assert(pe::findings(m, high) == pe::listed(g, g.len() == 0, t8));
    assert(m.is_dotnet ==> a.contains(t1));
    assert(pe::has_upx(m.sections) ==> c.contains(t3));
    assert(pe::has_unpacked(m.sections) ==> d.contains(t4));
    assert(few ==> e.contains(pe::small_table(m.imports.len(), total)));
}

/// How often a byte occurs in the raw data of a section.
pub proof fn lemma_counts(b: Seq<u8>, x: u8)
    requires
        b.len() <= u64::MAX,
    ensures
        pe::histogram(b).len() == 256,
        pe::histogram(b)[x as int] == b.to_multiset().count(x),
{
    lemma_occurrences(b, x);
}

proof fn lemma_occurrences(b: Seq<u8>, x: u8)
    ensures
        pe::occurrences(b, x as int) == b.to_multiset().count(x),
        pe::occurrences(b, x as int) <= b.len(),
    decreases b.len(),
{
    b.to_multiset_ensures();
    if b.len() > 0 {
        let t = b.drop_last();
        lemma_occurrences(t, x);
        t.to_multiset_ensures();
        assert(b =~= t.push(b.last()));
        assert(b.to_multiset() =~= t.to_multiset().insert(b.last()));
    } else {
        assert(b.to_multiset().count(x) == 0) by {
            if b.to_multiset().count(x) > 0 {
                assert(b.contains(x));
            }
        }
    }
}

/// A section of UPX has these letters in its name, whatever their case.
pub proof fn lemma_upx(name: Seq<char>)
    ensures
        pe::upx_name(name) <==> games::holds(text::ascii_uppered(name), "UPX"@),
        pe::gcc_name(name) <==> games::holds(text::lowered(name), "rodata"@) || text::lowered(name)
            == ".eh_frame"@,
{
    games::lemma_position(text::ascii_uppered(name), "UPX"@);
    games::lemma_position(text::lowered(name), "rodata"@);
}

/// A text in the file ends before the first zero, and after 256 bytes at the latest.
pub proof fn lemma_text_in_file(b: Seq<u8>, off: int, n: int)
    requires
        0 <= off,
        0 <= n <= 256,
        off + 256 <= b.len(),
        n == 256 || b[off + n] == 0,
        forall|j: int| 0 <= j < n ==> #[trigger] b[off + j] != 0,
    ensures
        pe::c_text(b, off, 256) == bytes::utf8_text(b.subrange(off, off + n)),
{
    let w = b.subrange(off, off + 256);
    assert forall|j: int| 0 <= j < n implies #[trigger] w[j] != 0 by {
        assert(w[j] == b[off + j]);
    }
    lemma_before_zero(w, n);
    assert(w.take(n) =~= b.subrange(off, off + n));
}

/// The bytes of a section are counted in its raw data: as many as its size in the file, from
/// its place there.
pub proof fn lemma_section_counts(b: Seq<u8>, h: int, x: u8)
    requires
        0 <= h,
        h + 40 <= b.len() <= u64::MAX,
        plain::four(b, h + 20) + plain::four(b, h + 16) <= b.len(),
    ensures
        ({
            let at = plain::four(b, h + 20);
            let size = plain::four(b, h + 16);
            pe::section_at(b, h).counts[x as int] == b.subrange(at, at + size).to_multiset().count(x)
        }),
{
    lemma_fields(b);
    let at = plain::four(b, h + 20);
    let size = plain::four(b, h + 16);
    lemma_counts(b.subrange(at, at + size), x);
}

/// The functions of all imports are counted.
pub proof fn lemma_total(imports: Seq<ImportModel>, one: ImportModel)
    ensures
        pe::total_functions(imports.push(one)) == pe::total_functions(imports) + one.funcs.len(),
        pe::total_functions(Seq::empty()) == 0,
{
    assert(imports.push(one).drop_last() =~= imports);
}

/// The names of the sections of high entropy are those that are marked.
pub proof fn lemma_high_names(sections: Seq<SectionModel>, high: Seq<bool>, n: int, t: Seq<char>)
    requires
        0 <= n <= sections.len(),
    ensures
        pe::high_names(sections, high, n).contains(t) <==> exists|i: int|
            0 <= i < n && high[i] && (#[trigger] sections[i]).name == t,
    decreases n,
{
    if n > 0 {
        lemma_high_names(sections, high, n - 1, t);
        lemma_listed(pe::high_names(sections, high, n - 1), high[n - 1], sections[n - 1].name);
    } else {
        assert(!pe::high_names(sections, high, n).contains(t));
    }
}

/// The protections are listed with commas between them; where there are none that is said.
pub proof fn lemma_protections_text(d: int)
    ensures
        !set(d, 0x40) && !set(d, 0x20) && !set(d, 0x100) && !set(d, 0x4000) && !set(d, 0x400) && !set(
            d,
            0x80,
        ) ==> pe::mitigations_text(d) == "(nenhuma)"@,
        set(d, 0x40) && !set(d, 0x20) && set(d, 0x100) && !set(d, 0x4000) && !set(d, 0x400) && !set(
            d,
            0x80,
        ) ==> pe::mitigations_text(d) == "ASLR, DEP/NX"@,
{
    reveal_strlit("ASLR");
    reveal_strlit("DEP/NX");
    reveal_strlit(", ");
    reveal_strlit("ASLR, DEP/NX");
    let v = seq!["ASLR"@, "DEP/NX"@];
    reveal_with_fuel(text::joined_with, 3);
    assert(v.drop_last() =~= seq!["ASLR"@]);
    assert("ASLR"@ + ", "@ + "DEP/NX"@ =~= "ASLR, DEP/NX"@);
    if set(d, 0x40) && !set(d, 0x20) && set(d, 0x100) && !set(d, 0x4000) && !set(d, 0x400) && !set(
        d,
        0x80,
    ) {
        assert(pe::mitigation_list(d) =~= v);
    }
}

} // verus!
