//! Static analysis of PE files: headers, sections, imports, exports, .NET and
//! signs of packers and compilers. Every read is checked; a malformed file
//! gives a message or partial data.
use crate::bytes;
use crate::text;
use vstd::prelude::*;

verus! {

/// A section.
#[derive(Debug)]
pub struct PeSection {
    pub name: String,
    pub vaddr: u32,
    pub vsize: u32,
    pub raw_offset: u32,
    pub raw_size: u32,
    pub characteristics: u32,
    /// How often each of the 256 bytes occurs in the raw data; the entropy of
    /// the section is computed from it.
    pub counts: Vec<u64>,
}

/// An imported module and the functions asked of it.
#[derive(Debug)]
pub struct PeImport {
    pub dll: String,
    pub funcs: Vec<String>,
}

/// An exported function.
#[derive(Debug)]
pub struct PeExport {
    pub name: String,
    pub ordinal: u16,
    pub rva: u32,
}

/// The result of an analysis.
#[derive(Debug)]
pub struct PeInfo {
    pub is_64: bool,
    pub machine_str: &'static str,
    pub timestamp: u32,
    pub subsystem_str: &'static str,
    pub entry_point: u32,
    pub image_base: u64,
    pub size_of_image: u32,
    pub dll_characteristics: u16,
    pub is_dll: bool,
    pub is_dotnet: bool,
    pub sections: Vec<PeSection>,
    pub imports: Vec<PeImport>,
    pub exports: Vec<PeExport>,
    /// The findings; filled in by `conclude`.
    pub verdict: Vec<String>,
}

/// The value of a `PeSection`.
#[verifier::ext_equal]
pub struct SectionModel {
    pub name: Seq<char>,
    pub vaddr: u32,
    pub vsize: u32,
    pub raw_offset: u32,
    pub raw_size: u32,
    pub characteristics: u32,
    pub counts: Seq<u64>,
}

/// The value of a `PeImport`.
#[verifier::ext_equal]
pub struct ImportModel {
    pub dll: Seq<char>,
    pub funcs: Seq<Seq<char>>,
}

/// The value of a `PeExport`.
#[verifier::ext_equal]
pub struct ExportModel {
    pub name: Seq<char>,
    pub ordinal: u16,
    pub rva: u32,
}

/// The value of a `PeInfo`.
#[verifier::ext_equal]
pub struct PeModel {
    pub is_64: bool,
    pub machine_str: Seq<char>,
    pub timestamp: u32,
    pub subsystem_str: Seq<char>,
    pub entry_point: u32,
    pub image_base: u64,
    pub size_of_image: u32,
    pub dll_characteristics: u16,
    pub is_dll: bool,
    pub is_dotnet: bool,
    pub sections: Seq<SectionModel>,
    pub imports: Seq<ImportModel>,
    pub exports: Seq<ExportModel>,
    pub verdict: Seq<Seq<char>>,
}

impl PeImport {
    /// The value of the import.
    pub open spec fn model(self) -> ImportModel {
        ImportModel { dll: self.dll@, funcs: text::texts(self.funcs@) }
    }
}

impl PeExport {
    /// The value of the export.
    pub open spec fn model(self) -> ExportModel {
        ExportModel { name: self.name@, ordinal: self.ordinal, rva: self.rva }
    }
}

/// The values of sections.
pub open spec fn section_models(v: Seq<PeSection>) -> Seq<SectionModel> {
    v.map_values(|s: PeSection| s.model())
}

/// The values of imports.
pub open spec fn import_models(v: Seq<PeImport>) -> Seq<ImportModel> {
    v.map_values(|i: PeImport| i.model())
}

/// The values of exports.
pub open spec fn export_models(v: Seq<PeExport>) -> Seq<ExportModel> {
    v.map_values(|e: PeExport| e.model())
}

/// Whether the bit with a value is set.
pub open spec fn bit(n: int, value: int) -> bool {
    (n / value) % 2 == 1
}

/// A text if a condition holds, else nothing.
pub open spec fn mark(on: bool, t: Seq<char>) -> Seq<char> {
    if on {
        t
    } else {
        Seq::empty()
    }
}

/// The flags of a section as text.
pub open spec fn flags_text(c: int) -> Seq<char> {
    mark(bit(c, 0x2000_0000), "X"@) + mark(bit(c, 0x4000_0000), "R"@) + mark(
        bit(c, 0x8000_0000),
        "W"@,
    ) + mark(bit(c, 0x20), " code"@) + mark(bit(c, 0x40), " data"@)
}

/// Appends a text if a condition holds.
fn append_mark(out: &mut String, on: bool, t: &str)
    ensures
        final(out)@ == old(out)@ + mark(on, t@),
{
    if on {
        out.append(t);
    }
    proof {
        assert(old(out)@ + Seq::<char>::empty() =~= old(out)@);
    }
}

impl PeSection {
    /// The value of the section.
    pub open spec fn model(self) -> SectionModel {
        SectionModel {
            name: self.name@,
            vaddr: self.vaddr,
            vsize: self.vsize,
            raw_offset: self.raw_offset,
            raw_size: self.raw_size,
            characteristics: self.characteristics,
            counts: self.counts@,
        }
    }

    /// The flags as text: executable, readable, writable, code, data.
    pub fn flags(&self) -> (r: String)
        ensures
            r@ == flags_text(self.characteristics as int),
    {
        let c: u32 = self.characteristics;
        let mut s: String = String::new();
        append_mark(&mut s, (c / 0x2000_0000) % 2 == 1, "X");
        append_mark(&mut s, (c / 0x4000_0000) % 2 == 1, "R");
        append_mark(&mut s, (c / 0x8000_0000) % 2 == 1, "W");
        append_mark(&mut s, (c / 0x20) % 2 == 1, " code");
        append_mark(&mut s, (c / 0x40) % 2 == 1, " data");
        proof {
            assert(s@ =~= flags_text(c as int));
        }
        s
    }
}

/// A list with a text at its end if a condition holds.
pub open spec fn listed(v: Seq<Seq<char>>, on: bool, t: Seq<char>) -> Seq<Seq<char>> {
    if on {
        v.push(t)
    } else {
        v
    }
}

/// The mitigations that a header switches on.
pub open spec fn mitigation_list(d: int) -> Seq<Seq<char>> {
    let a = listed(Seq::empty(), bit(d, 0x0040), "ASLR"@);
    let b = listed(a, bit(d, 0x0020), "ASLR-alta-entropia"@);
    let c = listed(b, bit(d, 0x0100), "DEP/NX"@);
    let e = listed(c, bit(d, 0x4000), "CFG"@);
    let f = listed(e, bit(d, 0x0400), "sem-SEH"@);
    listed(f, bit(d, 0x0080), "força-integridade"@)
}

/// The mitigations as text.
pub open spec fn mitigations_text(d: int) -> Seq<char> {
    if mitigation_list(d).len() == 0 {
        "(nenhuma)"@
    } else {
        text::joined_with(mitigation_list(d), ", "@)
    }
}

/// Appends a text to a list if a condition holds.
fn push_if(out: &mut Vec<String>, on: bool, t: &str)
    ensures
        text::texts(final(out)@) == listed(text::texts(old(out)@), on, t@),
{
    let ghost before = out@;
    if on {
        out.push(t.to_owned());
        proof {
            assert(text::texts(out@) =~= text::texts(before).push(t@));
        }
    }
}

impl PeInfo {
    /// The value of the analysis.
    pub open spec fn model(self) -> PeModel {
        PeModel {
            is_64: self.is_64,
            machine_str: self.machine_str@,
            timestamp: self.timestamp,
            subsystem_str: self.subsystem_str@,
            entry_point: self.entry_point,
            image_base: self.image_base,
            size_of_image: self.size_of_image,
            dll_characteristics: self.dll_characteristics,
            is_dll: self.is_dll,
            is_dotnet: self.is_dotnet,
            sections: section_models(self.sections@),
            imports: import_models(self.imports@),
            exports: export_models(self.exports@),
            verdict: text::texts(self.verdict@),
        }
    }

    /// The mitigations that the header switches on.
    pub fn mitigations(&self) -> (r: String)
        ensures
            r@ == mitigations_text(self.dll_characteristics as int),
    {
        let d: u16 = self.dll_characteristics;
        let mut on: Vec<String> = Vec::new();
        proof {
            assert(text::texts(on@) =~= Seq::<Seq<char>>::empty());
        }
        push_if(&mut on, (d / 0x0040) % 2 == 1, "ASLR");
        push_if(&mut on, (d / 0x0020) % 2 == 1, "ASLR-alta-entropia");
        push_if(&mut on, (d / 0x0100) % 2 == 1, "DEP/NX");
        push_if(&mut on, (d / 0x4000) % 2 == 1, "CFG");
        push_if(&mut on, (d / 0x0400) % 2 == 1, "sem-SEH");
        push_if(&mut on, (d / 0x0080) % 2 == 1, "força-integridade");
        assert(text::texts(on@) == mitigation_list(d as int));
        assert(text::texts(on@).len() == on@.len());
        if on.len() == 0 {
            "(nenhuma)".to_owned()
        } else {
            text::join_strings(&on, ", ")
        }
    }
}

// ---------------------------------------------------------------------------
// Reads
// ---------------------------------------------------------------------------
/// A number of `k` bytes at an offset, zero where the file is too short.
pub open spec fn field(b: Seq<u8>, off: int, k: int) -> int {
    match bytes::le_at(b, off, k) {
        Some(v) => v,
        None => 0,
    }
}

/// Reads two bytes.
fn rd_u16(b: &[u8], o: u64) -> (r: Option<u16>)
    ensures
        match r {
            Some(v) => bytes::le_at(b@, o as int, 2) == Some(v as int),
            None => bytes::le_at(b@, o as int, 2) is None,
        },
{
    match bytes::read_le_at(b, o, 2) {
        Some(v) => {
            proof {
                bytes::lemma_256_to_8();
                bytes::lemma_le_value_bound(b@.subrange(o as int, o + 2));
            }
            Some(v as u16)
        },
        None => None,
    }
}

/// Reads four bytes.
fn rd_u32(b: &[u8], o: u64) -> (r: Option<u32>)
    ensures
        match r {
            Some(v) => bytes::le_at(b@, o as int, 4) == Some(v as int),
            None => bytes::le_at(b@, o as int, 4) is None,
        },
{
    match bytes::read_le_at(b, o, 4) {
        Some(v) => {
            proof {
                bytes::lemma_256_to_8();
                bytes::lemma_le_value_bound(b@.subrange(o as int, o + 4));
            }
            Some(v as u32)
        },
        None => None,
    }
}

/// Reads eight bytes.
fn rd_u64(b: &[u8], o: u64) -> (r: Option<u64>)
    ensures
        match r {
            Some(v) => bytes::le_at(b@, o as int, 8) == Some(v as int),
            None => bytes::le_at(b@, o as int, 8) is None,
        },
{
    bytes::read_le_at(b, o, 8)
}

/// Reads two bytes, or zero.
fn field16(b: &[u8], o: u64) -> (r: u16)
    ensures
        r == field(b@, o as int, 2),
{
    match rd_u16(b, o) {
        Some(v) => v,
        None => 0,
    }
}

/// Reads four bytes, or zero.
fn field32(b: &[u8], o: u64) -> (r: u32)
    ensures
        r == field(b@, o as int, 4),
{
    match rd_u32(b, o) {
        Some(v) => v,
        None => 0,
    }
}

/// Reads eight bytes, or zero.
fn field64(b: &[u8], o: u64) -> (r: u64)
    ensures
        r == field(b@, o as int, 8),
{
    match rd_u64(b, o) {
        Some(v) => v,
        None => 0,
    }
}

/// The bytes before the first zero.
pub open spec fn before_zero(b: Seq<u8>) -> Seq<u8>
    decreases b.len(),
{
    if b.len() == 0 || b[0] == 0 {
        Seq::empty()
    } else {
        seq![b[0]] + before_zero(b.skip(1))
    }
}

/// The bytes from an offset on, at most `max` of them.
pub open spec fn window(b: Seq<u8>, off: int, max: int) -> Seq<u8> {
    if 0 <= off <= b.len() && max >= 0 {
        b.subrange(
            off,
            if off + max <= b.len() {
                off + max
            } else {
                b.len() as int
            },
        )
    } else {
        Seq::empty()
    }
}

/// A text that a zero ends, at an offset, of at most `max` bytes.
pub open spec fn c_text(b: Seq<u8>, off: int, max: int) -> Seq<char> {
    bytes::utf8_text(before_zero(window(b, off, max)))
}

/// Counts the bytes before the first zero.
pub(crate) fn until_zero(b: &[u8]) -> (r: usize)
    ensures
        r <= b@.len(),
        b@.take(r as int) == before_zero(b@),
{
    let n: usize = b.len();
    let mut i: usize = 0;
    proof {
        assert(b@.skip(0) =~= b@);
        assert(b@.take(0) + before_zero(b@.skip(0)) =~= before_zero(b@));
    }
    while i < n && b[i] != 0
        invariant
            n == b@.len(),
            i <= n,
            b@.take(i as int) + before_zero(b@.skip(i as int)) == before_zero(b@),
        decreases n - i,
    {
        proof {
            assert(b@.skip(i as int).skip(1) =~= b@.skip(i + 1));
            assert(b@.take(i + 1) + before_zero(b@.skip(i + 1)) =~= b@.take(i as int)
                + before_zero(b@.skip(i as int)));
        }
        i = i + 1;
    }
    proof {
        assert(before_zero(b@.skip(i as int)) =~= Seq::<u8>::empty());
        assert(b@.take(i as int) + Seq::<u8>::empty() =~= b@.take(i as int));
    }
    i
}

/// Takes the bytes from an offset on.
fn slice_at<'a>(b: &'a [u8], off: u64, max: u64) -> (r: &'a [u8])
    ensures
        r@ == window(b@, off as int, max as int),
{
    let n: usize = b.len();
    if off > n as u64 {
        let r: &[u8] = vstd::slice::slice_subrange(b, 0, 0);
        proof {
            assert(r@ =~= Seq::<u8>::empty());
        }
        return r;
    }
    let start: usize = off as usize;
    let end: usize = if max <= (n - start) as u64 {
        start + max as usize
    } else {
        n
    };
    vstd::slice::slice_subrange(b, start, end)
}

/// Reads a text that a zero ends.
fn read_cstr(b: &[u8], off: u64, max: u64) -> (r: String)
    ensures
        r@ == c_text(b@, off as int, max as int),
{
    let part: &[u8] = slice_at(b, off, max);
    let n: usize = until_zero(part);
    let head: &[u8] = vstd::slice::slice_subrange(part, 0, n);
    proof {
        assert(head@ =~= part@.take(n as int));
    }
    bytes::utf8_string(head)
}

/// The name of a machine type.
pub open spec fn machine_text(m: int) -> Seq<char> {
    if m == 0x014c {
        "x86 (i386)"@
    } else if m == 0x8664 {
        "x64 (AMD64)"@
    } else if m == 0xAA64 {
        "ARM64"@
    } else if m == 0x01c4 {
        "ARM (Thumb-2)"@
    } else {
        "desconhecida"@
    }
}

/// Finds the name of a machine type.
fn machine_name(m: u16) -> (r: &'static str)
    ensures
        r@ == machine_text(m as int),
{
    match m {
        0x014c => "x86 (i386)",
        0x8664 => "x64 (AMD64)",
        0xAA64 => "ARM64",
        0x01c4 => "ARM (Thumb-2)",
        _ => "desconhecida",
    }
}

/// The name of a subsystem.
pub open spec fn subsystem_text(s: int) -> Seq<char> {
    if s == 1 {
        "Native"@
    } else if s == 2 {
        "Windows GUI"@
    } else if s == 3 {
        "Windows Console"@
    } else if s == 5 {
        "OS/2 Console"@
    } else if s == 7 {
        "POSIX Console"@
    } else if s == 9 {
        "Windows CE GUI"@
    } else if s == 10 {
        "EFI Application"@
    } else {
        "outro"@
    }
}

/// Finds the name of a subsystem.
fn subsystem_name(s: u16) -> (r: &'static str)
    ensures
        r@ == subsystem_text(s as int),
{
    match s {
        1 => "Native",
        2 => "Windows GUI",
        3 => "Windows Console",
        5 => "OS/2 Console",
        7 => "POSIX Console",
        9 => "Windows CE GUI",
        10 => "EFI Application",
        _ => "outro",
    }
}

// ---------------------------------------------------------------------------
// Sections
// ---------------------------------------------------------------------------
/// The sum of two 32-bit numbers, modulo 2^32.
pub open spec fn sum32(a: int, b: int) -> int {
    (a + b) % 0x1_0000_0000
}

/// Whether an address lies in a section, which is as long as the longer of its
/// two sizes.
pub open spec fn covers(s: SectionModel, rva: int) -> bool {
    s.vaddr <= rva < sum32(
        s.vaddr as int,
        if s.vsize >= s.raw_size {
            s.vsize as int
        } else {
            s.raw_size as int
        },
    )
}

/// The place in the file of an address: in the first section that covers it.
pub open spec fn file_offset(sections: Seq<SectionModel>, rva: int) -> Option<int>
    decreases sections.len(),
{
    if sections.len() == 0 {
        None
    } else if covers(sections[0], rva) {
        Some(sum32(rva - sections[0].vaddr, sections[0].raw_offset as int))
    } else {
        file_offset(sections.skip(1), rva)
    }
}

/// Finds the place in the file of an address.
fn rva_to_off(sections: &Vec<PeSection>, rva: u32) -> (r: Option<u64>)
    ensures
        match r {
            Some(o) => file_offset(section_models(sections@), rva as int) == Some(o as int) && o
                <= u32::MAX,
            None => file_offset(section_models(sections@), rva as int) is None,
        },
{
    let ghost all = section_models(sections@);
    let n: usize = sections.len();
    let mut i: usize = 0;
    proof {
        assert(all.skip(0) =~= all);
    }
    while i < n
        invariant
            n == sections@.len(),
            i <= n,
            all == section_models(sections@),
            file_offset(all.skip(i as int), rva as int) == file_offset(all, rva as int),
        decreases n - i,
    {
        let s: &PeSection = &sections[i];
        proof {
            assert(all.skip(i as int)[0] == s.model());
            assert(all.skip(i as int).skip(1) =~= all.skip(i + 1));
        }
        let len: u32 = if s.vsize >= s.raw_size {
            s.vsize
        } else {
            s.raw_size
        };
        if rva >= s.vaddr && rva < s.vaddr.wrapping_add(len) {
            let o: u32 = (rva - s.vaddr).wrapping_add(s.raw_offset);
            return Some(o as u64);
        }
        i = i + 1;
    }
    None
}

/// How often a byte occurs.
pub open spec fn occurrences(b: Seq<u8>, x: int) -> nat
    decreases b.len(),
{
    if b.len() == 0 {
        0
    } else {
        occurrences(b.drop_last(), x) + (if b.last() == x {
            1nat
        } else {
            0
        })
    }
}

/// How often each byte occurs.
pub open spec fn histogram(b: Seq<u8>) -> Seq<u64> {
    Seq::new(256, |x: int| occurrences(b, x) as u64)
}

proof fn lemma_occurrences_bound(b: Seq<u8>, x: int)
    ensures
        occurrences(b, x) <= b.len(),
    decreases b.len(),
{
    if b.len() > 0 {
        lemma_occurrences_bound(b.drop_last(), x);
    }
}

/// Counts how often each byte occurs.
fn count_bytes(b: &[u8]) -> (r: Vec<u64>)
    ensures
        r@ == histogram(b@),
{
    let mut counts: Vec<u64> = Vec::new();
    for i in 0..256usize
        invariant
            counts@ == Seq::new(i as nat, |x: int| 0u64),
    {
        counts.push(0);
        proof {
            assert(counts@ =~= Seq::new((i + 1) as nat, |x: int| 0u64));
        }
    }
    let n: usize = b.len();
    proof {
        assert(counts@ =~= histogram(b@.take(0)));
    }
    for i in 0..n
        invariant
            n == b@.len(),
            counts@ == histogram(b@.take(i as int)),
    {
        let x: usize = b[i] as usize;
        proof {
            lemma_occurrences_bound(b@.take(i as int), x as int);
            assert(b@.take(i + 1).drop_last() =~= b@.take(i as int));
        }
        let c: u64 = counts[x];
        counts.set(x, c + 1);
        proof {
            assert(counts@ =~= histogram(b@.take(i + 1)));
        }
    }
    proof {
        assert(b@.take(n as int) =~= b@);
    }
    counts
}

/// The section whose header is at an offset.
pub open spec fn section_at(b: Seq<u8>, s: int) -> SectionModel {
    SectionModel {
        name: bytes::utf8_text(before_zero(b.subrange(s, s + 8))),
        vsize: field(b, s + 8, 4) as u32,
        vaddr: field(b, s + 12, 4) as u32,
        raw_size: field(b, s + 16, 4) as u32,
        raw_offset: field(b, s + 20, 4) as u32,
        characteristics: field(b, s + 36, 4) as u32,
        counts: histogram(window(b, field(b, s + 20, 4), field(b, s + 16, 4))),
    }
}

/// The sections of a table of `n` headers, as far as the file has their names.
pub open spec fn sections_from(b: Seq<u8>, table: int, n: int) -> Seq<SectionModel>
    decreases n,
{
    if n <= 0 || table + 8 > b.len() {
        Seq::empty()
    } else {
        seq![section_at(b, table)] + sections_from(b, table + 40, n - 1)
    }
}

/// Reads the section whose header is at an offset.
fn parse_section(b: &[u8], s: u64) -> (r: PeSection)
    requires
        s + 40 <= u64::MAX,
        s + 8 <= b@.len(),
    ensures
        r.model() == section_at(b@, s as int),
{
    let raw: &[u8] = slice_at(b, s, 8);
    proof {
        assert(raw@ =~= b@.subrange(s as int, s + 8));
    }
    let k: usize = until_zero(raw);
    let head: &[u8] = vstd::slice::slice_subrange(raw, 0, k);
    proof {
        assert(head@ =~= raw@.take(k as int));
    }
    let name: String = bytes::utf8_string(head);
    let vsize: u32 = field32(b, s + 8);
    let vaddr: u32 = field32(b, s + 12);
    let raw_size: u32 = field32(b, s + 16);
    let raw_offset: u32 = field32(b, s + 20);
    let characteristics: u32 = field32(b, s + 36);
    let counts: Vec<u64> = count_bytes(slice_at(b, raw_offset as u64, raw_size as u64));
    PeSection { name, vaddr, vsize, raw_offset, raw_size, characteristics, counts }
}

/// Reads the section table.
fn parse_sections(b: &[u8], table: u64, n: u16) -> (r: Vec<PeSection>)
    requires
        table <= 0x2_0000_0000,
    ensures
        section_models(r@) == sections_from(b@, table as int, n as int),
{
    let mut out: Vec<PeSection> = Vec::new();
    let mut i: u16 = 0;
    let len: usize = b.len();
    proof {
        assert(section_models(out@) =~= Seq::<SectionModel>::empty());
        assert(section_models(out@) + sections_from(b@, table as int, n as int)
            =~= sections_from(b@, table as int, n as int));
    }
    while i < n
        invariant
            i <= n,
            len == b@.len(),
            table <= 0x2_0000_0000,
            section_models(out@) + sections_from(b@, table + i * 40, n - i) == sections_from(
                b@,
                table as int,
                n as int,
            ),
        decreases n - i,
    {
        let s: u64 = table + i as u64 * 40;
        if s + 8 > len as u64 {
            proof {
                assert(section_models(out@) + Seq::<SectionModel>::empty() =~= section_models(
                    out@,
                ));
            }
            return out;
        }
        let section: PeSection = parse_section(b, s);
        let ghost before = out@;
        out.push(section);
        proof {
            assert(section_models(out@) =~= section_models(before).push(section.model()));
            assert(section_models(out@) + sections_from(b@, s + 40, n - i - 1) =~= section_models(
                before,
            ) + sections_from(b@, s as int, n - i));
        }
        i = i + 1;
    }
    proof {
        assert(section_models(out@) + Seq::<SectionModel>::empty() =~= section_models(out@));
    }
    out
}

// ---------------------------------------------------------------------------
// Imports and exports
// ---------------------------------------------------------------------------
/// The text that an address points to, empty if no section covers it.
pub open spec fn text_at(b: Seq<u8>, sections: Seq<SectionModel>, rva: int) -> Seq<char> {
    match file_offset(sections, rva) {
        Some(o) => c_text(b, o, 256),
        None => Seq::empty(),
    }
}

/// The function that a nonzero entry of an import list names: by its number if
/// the highest bit is set, else by the text behind a hint of two bytes.
pub open spec fn import_name(
    b: Seq<u8>,
    sections: Seq<SectionModel>,
    is_64: bool,
    val: int,
) -> Option<Seq<char>> {
    let by_number = if is_64 {
        val >= 0x8000_0000_0000_0000
    } else {
        val >= 0x8000_0000
    };
    if by_number {
        Some("#"@ + text::decimal((val % 0x1_0000) as nat))
    } else {
        match file_offset(sections, val % 0x8000_0000) {
            Some(o) => Some(c_text(b, o + 2, 256)),
            None => None,
        }
    }
}

/// The size of an entry of an import list.
pub open spec fn entry_size(is_64: bool) -> int {
    if is_64 {
        8
    } else {
        4
    }
}

/// The functions of an import list at an offset, up to a zero entry, among at
/// most `left` entries; the list is full with 2000 functions, of which `got`
/// are there already.
pub open spec fn functions_from(
    b: Seq<u8>,
    sections: Seq<SectionModel>,
    is_64: bool,
    at: int,
    left: int,
    got: int,
) -> Seq<Seq<char>>
    decreases left,
{
    let val = field(b, at, entry_size(is_64));
    if left <= 0 || val == 0 {
        Seq::empty()
    } else {
        let one = match import_name(b, sections, is_64, val) {
            Some(t) => seq![t],
            None => Seq::empty(),
        };
        let count = got + one.len();
        if count >= 2000 {
            one
        } else {
            one + functions_from(
                b,
                sections,
                is_64,
                at + entry_size(is_64),
                left - 1,
                count,
            )
        }
    }
}

/// The functions of an import descriptor: of its first list, or of its second
/// one where it has no first.
pub open spec fn descriptor_functions(
    b: Seq<u8>,
    sections: Seq<SectionModel>,
    is_64: bool,
    desc: int,
) -> Seq<Seq<char>> {
    let list = if field(b, desc, 4) != 0 {
        field(b, desc, 4)
    } else {
        field(b, desc + 16, 4)
    };
    match file_offset(sections, list) {
        Some(t) => functions_from(b, sections, is_64, t, 5000, 0),
        None => Seq::empty(),
    }
}

/// The imports of at most `left` descriptors at an offset, up to an empty one.
pub open spec fn imports_from(
    b: Seq<u8>,
    sections: Seq<SectionModel>,
    is_64: bool,
    desc: int,
    left: int,
) -> Seq<ImportModel>
    decreases left,
{
    if left <= 0 || (field(b, desc + 12, 4) == 0 && field(b, desc + 16, 4) == 0) {
        Seq::empty()
    } else {
        seq![
            ImportModel {
                dll: text_at(b, sections, field(b, desc + 12, 4)),
                funcs: descriptor_functions(b, sections, is_64, desc),
            },
        ] + imports_from(b, sections, is_64, desc + 20, left - 1)
    }
}

/// The imports of a file, 512 at most.
pub open spec fn imports_of(
    b: Seq<u8>,
    sections: Seq<SectionModel>,
    import_rva: int,
    is_64: bool,
) -> Seq<ImportModel> {
    if import_rva == 0 {
        Seq::empty()
    } else {
        match file_offset(sections, import_rva) {
            Some(desc) => imports_from(b, sections, is_64, desc, 512),
            None => Seq::empty(),
        }
    }
}

/// Reads the text that an address points to.
fn text_behind(b: &[u8], sections: &Vec<PeSection>, rva: u32) -> (r: String)
    ensures
        r@ == text_at(b@, section_models(sections@), rva as int),
{
    match rva_to_off(sections, rva) {
        Some(o) => read_cstr(b, o, 256),
        None => String::new(),
    }
}

/// Reads the function that an entry of an import list names.
fn parse_import_name(b: &[u8], sections: &Vec<PeSection>, is_64: bool, val: u64) -> (r: Option<
    String,
>)
    ensures
        match r {
            Some(t) => import_name(b@, section_models(sections@), is_64, val as int) == Some(t@),
            None => import_name(b@, section_models(sections@), is_64, val as int) is None,
        },
{
    let by_number: bool = if is_64 {
        val >= 0x8000_0000_0000_0000
    } else {
        val >= 0x8000_0000
    };
    if by_number {
        let mut t: String = "#".to_owned();
        t.append(text::write_decimal(val % 0x1_0000).as_str());
        return Some(t);
    }
    match rva_to_off(sections, (val % 0x8000_0000) as u32) {
        Some(o) => Some(read_cstr(b, o + 2, 256)),
        None => None,
    }
}

/// Reads the functions of an import list.
fn parse_functions(b: &[u8], sections: &Vec<PeSection>, is_64: bool, start: u64) -> (r: Vec<String>)
    requires
        start <= u32::MAX,
    ensures
        text::texts(r@) == functions_from(
            b@,
            section_models(sections@),
            is_64,
            start as int,
            5000,
            0,
        ),
{
    let ghost secs = section_models(sections@);
    let ghost goal = functions_from(b@, secs, is_64, start as int, 5000, 0);
    let mut out: Vec<String> = Vec::new();
    let size: u64 = if is_64 {
        8
    } else {
        4
    };
    let mut at: u64 = start;
    let mut left: u64 = 5000;
    proof {
        assert(text::texts(out@) =~= Seq::<Seq<char>>::empty());
        assert(text::texts(out@) + goal =~= goal);
    }
    while left > 0
        invariant
            left <= 5000,
            secs == section_models(sections@),
            size == entry_size(is_64),
            at == start + (5000 - left) * size,
            start <= u32::MAX,
            out@.len() < 2000,
            text::texts(out@) + functions_from(
                b@,
                secs,
                is_64,
                at as int,
                left as int,
                out@.len() as int,
            ) == goal,
            goal == functions_from(b@, secs, is_64, start as int, 5000, 0),
        decreases left,
    {
        let val: u64 = if is_64 {
            field64(b, at)
        } else {
            field32(b, at) as u64
        };
        let ghost before = text::texts(out@);
        let ghost rest = functions_from(
            b@,
            secs,
            is_64,
            at as int,
            left as int,
            out@.len() as int,
        );
        if val == 0 {
            proof {
                assert(before + Seq::<Seq<char>>::empty() =~= before);
            }
            return out;
        }
        match parse_import_name(b, sections, is_64, val) {
            Some(t) => {
                let ghost earlier = out@;
                out.push(t);
                proof {
                    assert(text::texts(out@) =~= text::texts(earlier).push(t@));
                    assert(text::texts(out@) =~= before + seq![t@]);
                }
            },
            None => {
                proof {
                    assert(text::texts(out@) =~= before + Seq::<Seq<char>>::empty());
                }
            },
        }
        if out.len() >= 2000 {
            return out;
        }
        at = at + size;
        left = left - 1;
        proof {
            assert(text::texts(out@) + functions_from(
                b@,
                secs,
                is_64,
                at as int,
                left as int,
                out@.len() as int,
            ) =~= before + rest);
        }
    }
    proof {
        assert(text::texts(out@) + Seq::<Seq<char>>::empty() =~= text::texts(out@));
    }
    out
}

/// Reads an import descriptor.
fn parse_descriptor(b: &[u8], sections: &Vec<PeSection>, is_64: bool, desc: u64) -> (r: PeImport)
    requires
        desc + 16 <= u64::MAX,
    ensures
        r.model() == (ImportModel {
            dll: text_at(b@, section_models(sections@), field(b@, desc + 12, 4)),
            funcs: descriptor_functions(b@, section_models(sections@), is_64, desc as int),
        }),
{
    let first: u32 = field32(b, desc);
    let second: u32 = field32(b, desc + 16);
    let dll: String = text_behind(b, sections, field32(b, desc + 12));
    let list: u32 = if first != 0 {
        first
    } else {
        second
    };
    let funcs: Vec<String> = match rva_to_off(sections, list) {
        Some(t) => parse_functions(b, sections, is_64, t),
        None => Vec::new(),
    };
    proof {
        assert(text::texts(funcs@) =~= descriptor_functions(
            b@,
            section_models(sections@),
            is_64,
            desc as int,
        ));
    }
    PeImport { dll, funcs }
}

/// Reads the imports.
fn parse_imports(b: &[u8], sections: &Vec<PeSection>, import_rva: u32, is_64: bool) -> (r: Vec<
    PeImport,
>)
    ensures
        import_models(r@) == imports_of(b@, section_models(sections@), import_rva as int, is_64),
{
    let ghost secs = section_models(sections@);
    let mut out: Vec<PeImport> = Vec::new();
    proof {
        assert(import_models(out@) =~= Seq::<ImportModel>::empty());
    }
    if import_rva == 0 {
        return out;
    }
    let start: u64 = match rva_to_off(sections, import_rva) {
        Some(o) => o,
        None => {
            return out;
        },
    };
    let ghost goal = imports_from(b@, secs, is_64, start as int, 512);
    let mut desc: u64 = start;
    let mut left: u64 = 512;
    proof {
        assert(import_models(out@) + goal =~= goal);
    }
    while left > 0
        invariant
            left <= 512,
            secs == section_models(sections@),
            desc == start + (512 - left) * 20,
            start <= u32::MAX,
            import_models(out@) + imports_from(b@, secs, is_64, desc as int, left as int) == goal,
            import_rva != 0,
            file_offset(secs, import_rva as int) == Some(start as int),
            goal == imports_from(b@, secs, is_64, start as int, 512),
        decreases left,
    {
        let ghost before = import_models(out@);
        let ghost rest = imports_from(b@, secs, is_64, desc as int, left as int);
        if field32(b, desc + 12) == 0 && field32(b, desc + 16) == 0 {
            proof {
                assert(before + Seq::<ImportModel>::empty() =~= before);
            }
            return out;
        }
        let import: PeImport = parse_descriptor(b, sections, is_64, desc);
        let ghost earlier = out@;
        out.push(import);
        desc = desc + 20;
        left = left - 1;
        proof {
            assert(import_models(out@) =~= import_models(earlier).push(import.model()));
            assert(import_models(out@) + imports_from(b@, secs, is_64, desc as int, left as int)
                =~= before + rest);
        }
    }
    proof {
        assert(import_models(out@) + Seq::<ImportModel>::empty() =~= import_models(out@));
    }
    out
}

/// Where the three tables of the exports are in the file.
pub struct ExportTables {
    pub functions: int,
    pub names: int,
    pub ordinals: int,
}

/// The `i`th export; `None` without a name.
pub open spec fn export_at(
    b: Seq<u8>,
    sections: Seq<SectionModel>,
    t: ExportTables,
    base: int,
    i: int,
) -> Option<ExportModel> {
    let ord = field(b, t.ordinals + i * 2, 2);
    let name = text_at(b, sections, field(b, t.names + i * 4, 4));
    if name.len() == 0 {
        None
    } else {
        Some(
            ExportModel {
                name,
                ordinal: ((ord + base) % 0x1_0000) as u16,
                rva: field(b, t.functions + ord * 4, 4) as u32,
            },
        )
    }
}

/// The first `n` exports, without those that have no name.
pub open spec fn exports_until(
    b: Seq<u8>,
    sections: Seq<SectionModel>,
    t: ExportTables,
    base: int,
    n: int,
) -> Seq<ExportModel>
    decreases n,
{
    if n <= 0 {
        Seq::empty()
    } else {
        let before = exports_until(b, sections, t, base, n - 1);
        match export_at(b, sections, t, base, n - 1) {
            Some(e) => before.push(e),
            None => before,
        }
    }
}

/// The smallest of three numbers.
pub open spec fn least(a: int, b: int, c: int) -> int {
    let m = if a <= b {
        a
    } else {
        b
    };
    if m <= c {
        m
    } else {
        c
    }
}

/// The exports of the directory at an offset, among the first 20000 names.
pub open spec fn directory_exports(b: Seq<u8>, sections: Seq<SectionModel>, ed: int) -> Seq<
    ExportModel,
> {
    let functions = file_offset(sections, field(b, ed + 28, 4));
    let names = file_offset(sections, field(b, ed + 32, 4));
    let ordinals = file_offset(sections, field(b, ed + 36, 4));
    if functions is Some && names is Some && ordinals is Some {
        exports_until(
            b,
            sections,
            ExportTables { functions: functions->0, names: names->0, ordinals: ordinals->0 },
            field(b, ed + 16, 4),
            least(field(b, ed + 24, 4), field(b, ed + 20, 4), 20000),
        )
    } else {
        Seq::empty()
    }
}

/// The exports of a file.
pub open spec fn exports_of(b: Seq<u8>, sections: Seq<SectionModel>, export_rva: int) -> Seq<
    ExportModel,
> {
    if export_rva == 0 {
        Seq::empty()
    } else {
        match file_offset(sections, export_rva) {
            Some(ed) => directory_exports(b, sections, ed),
            None => Seq::empty(),
        }
    }
}

/// Reads the exports of a directory.
fn parse_directory(b: &[u8], sections: &Vec<PeSection>, ed: u64) -> (r: Vec<PeExport>)
    requires
        ed <= u32::MAX,
    ensures
        export_models(r@) == directory_exports(b@, section_models(sections@), ed as int),
{
    let ghost secs = section_models(sections@);
    let mut out: Vec<PeExport> = Vec::new();
    proof {
        assert(export_models(out@) =~= Seq::<ExportModel>::empty());
    }
    let base: u32 = field32(b, ed + 16);
    let num_funcs: u32 = field32(b, ed + 20);
    let num_names: u32 = field32(b, ed + 24);
    let functions: u64 = match rva_to_off(sections, field32(b, ed + 28)) {
        Some(o) => o,
        None => {
            return out;
        },
    };
    let names: u64 = match rva_to_off(sections, field32(b, ed + 32)) {
        Some(o) => o,
        None => {
            return out;
        },
    };
    let ordinals: u64 = match rva_to_off(sections, field32(b, ed + 36)) {
        Some(o) => o,
        None => {
            return out;
        },
    };
    let mut n: u32 = num_names;
    if num_funcs < n {
        n = num_funcs;
    }
    if 20000 < n {
        n = 20000;
    }
    let ghost t = ExportTables {
        functions: functions as int,
        names: names as int,
        ordinals: ordinals as int,
    };
    let mut i: u32 = 0;
    while i < n
        invariant
            i <= n <= 20000,
            secs == section_models(sections@),
            t == (ExportTables {
                functions: functions as int,
                names: names as int,
                ordinals: ordinals as int,
            }),
            functions <= u32::MAX,
            names <= u32::MAX,
            ordinals <= u32::MAX,
            export_models(out@) == exports_until(b@, secs, t, base as int, i as int),
        decreases n - i,
    {
        let ord: u16 = field16(b, ordinals + i as u64 * 2);
        let rva: u32 = field32(b, functions + ord as u64 * 4);
        let name: String = text_behind(b, sections, field32(b, names + i as u64 * 4));
        if name.as_str().unicode_len() > 0 {
            let low: u16 = (base % 0x1_0000) as u16;
            let e: PeExport = PeExport { name, ordinal: ord.wrapping_add(low), rva };
            proof {
                assert(e.ordinal == (ord + base) % 0x1_0000);
                assert(export_models(out@.push(e)) =~= export_models(out@).push(e.model()));
            }
            out.push(e);
        }
        i = i + 1;
    }
    out
}

/// Reads the exports.
fn parse_exports(b: &[u8], sections: &Vec<PeSection>, export_rva: u32) -> (r: Vec<PeExport>)
    ensures
        export_models(r@) == exports_of(b@, section_models(sections@), export_rva as int),
{
    let out: Vec<PeExport> = Vec::new();
    proof {
        assert(export_models(out@) =~= Seq::<ExportModel>::empty());
    }
    if export_rva == 0 {
        return out;
    }
    match rva_to_off(sections, export_rva) {
        Some(ed) => parse_directory(b, sections, ed),
        None => out,
    }
}

// ---------------------------------------------------------------------------
// Analysis
// ---------------------------------------------------------------------------
/// What a file with valid headers holds. `oh` is where its optional header
/// starts, 20 bytes behind the file header.
pub open spec fn contents(b: Seq<u8>, oh: int) -> PeModel {
    let fh = oh - 20;
    let is_64 = field(b, oh, 2) == 0x20B;
    let directories = if is_64 {
        oh + 112
    } else {
        oh + 96
    };
    let sections = sections_from(b, oh + field(b, fh + 16, 2), field(b, fh + 2, 2));
    PeModel {
        is_64,
        machine_str: machine_text(field(b, fh, 2)),
        timestamp: field(b, fh + 4, 4) as u32,
        subsystem_str: subsystem_text(field(b, oh + 68, 2)),
        entry_point: field(b, oh + 16, 4) as u32,
        image_base: (if is_64 {
            field(b, oh + 24, 8)
        } else {
            field(b, oh + 28, 4)
        }) as u64,
        size_of_image: field(b, oh + 56, 4) as u32,
        dll_characteristics: field(b, oh + 70, 2) as u16,
        is_dll: bit(field(b, fh + 18, 2), 0x2000),
        is_dotnet: field(b, directories + 112, 4) != 0,
        sections,
        imports: imports_of(b, sections, field(b, directories + 8, 4), is_64),
        exports: exports_of(b, sections, field(b, directories, 4)),
        verdict: Seq::empty(),
    }
}

/// The analysis of a file, without its verdict.
pub open spec fn analysis(b: Seq<u8>) -> Result<PeModel, Seq<char>> {
    let pe = field(b, 0x3C, 4);
    let fh = pe + 4;
    if b.len() < 0x40 || b[0] != 0x4D || b[1] != 0x5A {
        Err("não é um PE (assinatura MZ ausente)"@)
    } else if bytes::le_at(b, pe, 4) != Some(0x4550int) {
        Err("assinatura PE ausente"@)
    } else if fh + 18 > b.len() {
        Err("header truncado"@)
    } else if fh + 22 > b.len() {
        Err("optional header ausente"@)
    } else {
        Ok(contents(b, fh + 20))
    }
}

/// The value of an analysis.
pub open spec fn pe_result(r: Result<PeInfo, String>) -> Result<PeModel, Seq<char>> {
    match r {
        Ok(i) => Ok(i.model()),
        Err(e) => Err(e@),
    }
}

/// Reads what a file with valid headers holds.
fn read_contents(b: &[u8], oh: u64) -> (r: PeInfo)
    requires
        20 <= oh <= 0x1_0000_0100,
    ensures
        r.model() == contents(b@, oh as int),
{
    let fh: u64 = oh - 20;
    let machine: u16 = field16(b, fh);
    let num_sections: u16 = field16(b, fh + 2);
    let timestamp: u32 = field32(b, fh + 4);
    let opt_size: u16 = field16(b, fh + 16);
    let characteristics: u16 = field16(b, fh + 18);
    let is_64: bool = field16(b, oh) == 0x20B;
    let entry_point: u32 = field32(b, oh + 16);
    let image_base: u64 = if is_64 {
        field64(b, oh + 24)
    } else {
        field32(b, oh + 28) as u64
    };
    let directories: u64 = if is_64 {
        oh + 112
    } else {
        oh + 96
    };
    let size_of_image: u32 = field32(b, oh + 56);
    let subsystem: u16 = field16(b, oh + 68);
    let dll_characteristics: u16 = field16(b, oh + 70);
    let export_rva: u32 = field32(b, directories);
    let import_rva: u32 = field32(b, directories + 8);
    let is_dotnet: bool = field32(b, directories + 112) != 0;
    let sections: Vec<PeSection> = parse_sections(b, oh + opt_size as u64, num_sections);
    let imports: Vec<PeImport> = parse_imports(b, &sections, import_rva, is_64);
    let exports: Vec<PeExport> = parse_exports(b, &sections, export_rva);
    let is_dll: bool = (characteristics / 0x2000) % 2 == 1;
    let r: PeInfo = PeInfo {
        is_64,
        machine_str: machine_name(machine),
        timestamp,
        subsystem_str: subsystem_name(subsystem),
        entry_point,
        image_base,
        size_of_image,
        dll_characteristics,
        is_dll,
        is_dotnet,
        sections,
        imports,
        exports,
        verdict: Vec::new(),
    };
    proof {
        assert(r.model().verdict =~= Seq::<Seq<char>>::empty());
        assert(r.model() =~= contents(b@, oh as int));
    }
    r
}

/// Analyses a file. The verdict is left to `conclude`, which needs the entropy
/// of the sections.
pub fn analyze(b: &[u8]) -> (r: Result<PeInfo, String>)
    ensures
        pe_result(r) == analysis(b@),
{
    let n: usize = b.len();
    if n < 0x40 || b[0] != 0x4D || b[1] != 0x5A {
        return Err("não é um PE (assinatura MZ ausente)".to_owned());
    }
    let pe: u64 = field32(b, 0x3C) as u64;
    match rd_u32(b, pe) {
        Some(signature) => {
            if signature != 0x4550 {
                return Err("assinatura PE ausente".to_owned());
            }
        },
        None => {
            return Err("assinatura PE ausente".to_owned());
        },
    }
    let fh: u64 = pe + 4;
    if fh + 18 > n as u64 {
        return Err("header truncado".to_owned());
    }
    if fh + 22 > n as u64 {
        return Err("optional header ausente".to_owned());
    }
    Ok(read_contents(b, fh + 20))
}

// ---------------------------------------------------------------------------
// Verdict
// ---------------------------------------------------------------------------
/// The names of the sections of high entropy.
pub open spec fn high_names(sections: Seq<SectionModel>, high: Seq<bool>, n: int) -> Seq<Seq<char>>
    decreases n,
{
    if n <= 0 {
        Seq::empty()
    } else {
        listed(high_names(sections, high, n - 1), high[n - 1], sections[n - 1].name)
    }
}

/// Whether some section has a name with `UPX` in it.
pub open spec fn has_upx(sections: Seq<SectionModel>) -> bool {
    exists|i: int|
        0 <= i < sections.len() && #[trigger] upx_name(sections[i].name)
}

/// Whether a name has `UPX` in it, in any case.
pub open spec fn upx_name(name: Seq<char>) -> bool {
    text::position(text::ascii_uppered(name), "UPX"@) is Some
}

/// Whether some section has no raw data and more than a page of memory.
pub open spec fn has_unpacked(sections: Seq<SectionModel>) -> bool {
    exists|i: int|
        0 <= i < sections.len() && (#[trigger] sections[i]).raw_size == 0 && sections[i].vsize
            > 0x1000
}

/// The functions of all imports.
pub open spec fn total_functions(imports: Seq<ImportModel>) -> nat
    decreases imports.len(),
{
    if imports.len() == 0 {
        0
    } else {
        total_functions(imports.drop_last()) + imports.last().funcs.len()
    }
}

/// Whether some section has a name, in any case.
pub open spec fn has_section(sections: Seq<SectionModel>, name: Seq<char>) -> bool {
    exists|i: int|
        0 <= i < sections.len() && #[trigger] text::lowered(sections[i].name) == name
}

/// Whether a name is one that GCC gives.
pub open spec fn gcc_name(name: Seq<char>) -> bool {
    let low = text::lowered(name);
    text::position(low, "rodata"@) is Some || low == ".eh_frame"@
}

/// Whether some section has a name that GCC gives.
pub open spec fn has_gcc(sections: Seq<SectionModel>) -> bool {
    exists|i: int| 0 <= i < sections.len() && #[trigger] gcc_name(sections[i].name)
}

/// The finding about a small import table.
pub open spec fn small_table(dlls: nat, functions: nat) -> Seq<char> {
    "IAT minúscula ("@ + text::decimal(dlls) + " DLL/"@ + text::decimal(functions)
        + " funções) — típico de packer/protector."@
}

/// The findings of an analysis, given which sections have high entropy.
pub open spec fn findings(m: PeModel, high: Seq<bool>) -> Seq<Seq<char>> {
    let names = high_names(m.sections, high, m.sections.len() as int);
    let total = total_functions(m.imports);
    let a = listed(Seq::empty(), m.is_dotnet, "Binário .NET / gerenciado (CLR)."@);
    let b = listed(
        a,
        names.len() > 0,
        "Seção(ões) de alta entropia ("@ + text::joined_with(names, ", "@)
            + ") — provável compressão/cifra (packer)."@,
    );
    let c = listed(b, has_upx(m.sections), "Seções UPX — empacotado com UPX."@);
    let d = listed(
        c,
        has_unpacked(m.sections),
        "Seção sem dados crus (vsize ≫ raw) — código descomprimido em runtime."@,
    );
    let e = listed(
        d,
        m.imports.len() <= 2 && total < 10 && !m.is_dotnet,
        small_table(m.imports.len(), total),
    );
    let msvc = has_section(m.sections, ".text"@) && has_section(m.sections, ".rdata"@);
    let f = listed(e, msvc, "Layout típico de MSVC (.text/.rdata/.data)."@);
    let g = listed(f, !msvc && has_gcc(m.sections), "Layout típico de GCC/MinGW."@);
    listed(
        g,
        g.len() == 0,
        "Nada de anormal — provável binário não-empacotado."@,
    )
}

/// Collects the names of the sections of high entropy.
fn names_of_high(sections: &Vec<PeSection>, high: &Vec<bool>) -> (r: Vec<String>)
    requires
        high@.len() == sections@.len(),
    ensures
        text::texts(r@) == high_names(
            section_models(sections@),
            high@,
            sections@.len() as int,
        ),
{
    let ghost all = section_models(sections@);
    let mut out: Vec<String> = Vec::new();
    proof {
        assert(text::texts(out@) =~= Seq::<Seq<char>>::empty());
    }
    for i in 0..sections.len()
        invariant
            high@.len() == sections@.len(),
            all == section_models(sections@),
            text::texts(out@) == high_names(all, high@, i as int),
    {
        assert(all[i as int].name == sections@[i as int].name@);
        push_if(&mut out, high[i], sections[i].name.as_str());
    }
    out
}

/// Looks for a section with `UPX` in its name.
fn find_upx(sections: &Vec<PeSection>) -> (r: bool)
    ensures
        r == has_upx(section_models(sections@)),
{
    let ghost all = section_models(sections@);
    let upx: Vec<char> = text::chars_of("UPX");
    for i in 0..sections.len()
        invariant
            all == section_models(sections@),
            upx@ == "UPX"@,
            forall|j: int| 0 <= j < i ==> !(#[trigger] upx_name(all[j].name)),
    {
        assert(all[i as int].name == sections@[i as int].name@);
        let upper: Vec<char> = text::ascii_uppercase(&text::chars_of(sections[i].name.as_str()));
        if text::find_text(&upper, &upx).is_some() {
            assert(upx_name(all[i as int].name));
            return true;
        }
    }
    false
}

/// Looks for a section without raw data.
fn find_unpacked(sections: &Vec<PeSection>) -> (r: bool)
    ensures
        r == has_unpacked(section_models(sections@)),
{
    let ghost all = section_models(sections@);
    for i in 0..sections.len()
        invariant
            all == section_models(sections@),
            forall|j: int|
                0 <= j < i ==> !((#[trigger] all[j]).raw_size == 0 && all[j].vsize > 0x1000),
    {
        assert(all[i as int] == sections@[i as int].model());
        if sections[i].raw_size == 0 && sections[i].vsize > 0x1000 {
            return true;
        }
    }
    false
}

/// Looks for a section with a name.
fn find_section(sections: &Vec<PeSection>, name: &str) -> (r: bool)
    ensures
        r == has_section(section_models(sections@), name@),
{
    let ghost all = section_models(sections@);
    for i in 0..sections.len()
        invariant
            all == section_models(sections@),
            forall|j: int|
                0 <= j < i ==> #[trigger] text::lowered(all[j].name) != name@,
    {
        assert(all[i as int].name == sections@[i as int].name@);
        let low: Vec<char> = text::lowercase(&text::chars_of(sections[i].name.as_str()));
        if text::is_text(&low, name) {
            assert(text::lowered(all[i as int].name) == name@);
            return true;
        }
    }
    false
}

/// Looks for a section with a name that GCC gives.
fn find_gcc(sections: &Vec<PeSection>) -> (r: bool)
    ensures
        r == has_gcc(section_models(sections@)),
{
    let ghost all = section_models(sections@);
    let rodata: Vec<char> = text::chars_of("rodata");
    for i in 0..sections.len()
        invariant
            all == section_models(sections@),
            rodata@ == "rodata"@,
            forall|j: int| 0 <= j < i ==> !(#[trigger] gcc_name(all[j].name)),
    {
        assert(all[i as int].name == sections@[i as int].name@);
        let low: Vec<char> = text::lowercase(&text::chars_of(sections[i].name.as_str()));
        if text::find_text(&low, &rodata).is_some() || text::is_text(&low, ".eh_frame") {
            assert(gcc_name(all[i as int].name));
            return true;
        }
    }
    false
}

proof fn lemma_total_prefix(imports: Seq<ImportModel>, n: int)
    requires
        0 <= n <= imports.len(),
    ensures
        total_functions(imports.take(n)) <= total_functions(imports),
    decreases imports.len() - n,
{
    if n < imports.len() {
        assert(imports.take(n + 1).drop_last() =~= imports.take(n));
        lemma_total_prefix(imports, n + 1);
    } else {
        assert(imports.take(n) =~= imports);
    }
}

/// Counts the functions of all imports, up to ten.
fn few_functions(imports: &Vec<PeImport>) -> (r: Option<u64>)
    ensures
        match r {
            Some(n) => n == total_functions(import_models(imports@)) && n < 10,
            None => total_functions(import_models(imports@)) >= 10,
        },
{
    let ghost all = import_models(imports@);
    let mut total: u64 = 0;
    for i in 0..imports.len()
        invariant
            all == import_models(imports@),
            total == total_functions(all.take(i as int)),
            total < 10,
    {
        proof {
            assert(all.take(i + 1).drop_last() =~= all.take(i as int));
            assert(all.take(i + 1).last() == imports@[i as int].model());
            assert(imports@[i as int].model().funcs.len() == imports@[i as int].funcs@.len());
            lemma_total_prefix(all, i + 1);
        }
        let k: usize = imports[i].funcs.len();
        if k >= 10 {
            return None;
        }
        total = total + k as u64;
        if total >= 10 {
            return None;
        }
    }
    proof {
        assert(all.take(all.len() as int) =~= all);
    }
    Some(total)
}

/// Builds the finding about a small import table.
fn small_table_text(dlls: u64, functions: u64) -> (r: String)
    ensures
        r@ == small_table(dlls as nat, functions as nat),
{
    let mut r: String = "IAT minúscula (".to_owned();
    r.append(text::write_decimal(dlls).as_str());
    r.append(" DLL/");
    r.append(text::write_decimal(functions).as_str());
    r.append(" funções) — típico de packer/protector.");
    r
}

/// The findings of an analysis, given which sections have high entropy.
pub fn build_verdict(info: &PeInfo, high: &Vec<bool>) -> (r: Vec<String>)
    requires
        high@.len() == info.sections@.len(),
    ensures
        text::texts(r@) == findings(info.model(), high@),
{
    let ghost m = info.model();
    let mut v: Vec<String> = Vec::new();
    proof {
        assert(text::texts(v@) =~= Seq::<Seq<char>>::empty());
        assert(m.sections.len() == info.sections@.len());
        assert(m.imports.len() == info.imports@.len());
    }
    push_if(&mut v, info.is_dotnet, "Binário .NET / gerenciado (CLR).");
    let names: Vec<String> = names_of_high(&info.sections, high);
    let mut packed: String = "Seção(ões) de alta entropia (".to_owned();
    packed.append(text::join_strings(&names, ", ").as_str());
    packed.append(") — provável compressão/cifra (packer).");
    assert(text::texts(names@).len() == names@.len());
    push_if(&mut v, names.len() > 0, packed.as_str());
    push_if(&mut v, find_upx(&info.sections), "Seções UPX — empacotado com UPX.");
    push_if(
        &mut v,
        find_unpacked(&info.sections),
        "Seção sem dados crus (vsize ≫ raw) — código descomprimido em runtime.",
    );
    let dlls: u64 = info.imports.len() as u64;
    match few_functions(&info.imports) {
        Some(total) => {
            let table: String = small_table_text(dlls, total);
            push_if(&mut v, dlls <= 2 && !info.is_dotnet, table.as_str());
        },
        None => {},
    }
    let msvc: bool = find_section(&info.sections, ".text") && find_section(
        &info.sections,
        ".rdata",
    );
    push_if(&mut v, msvc, "Layout típico de MSVC (.text/.rdata/.data).");
    push_if(&mut v, !msvc && find_gcc(&info.sections), "Layout típico de GCC/MinGW.");
    let none: bool = v.len() == 0;
    assert(text::texts(v@).len() == v@.len());
    push_if(&mut v, none, "Nada de anormal — provável binário não-empacotado.");
    v
}

impl PeInfo {
    /// Fills in the verdict, given which sections have high entropy.
    pub fn conclude(&mut self, high: &Vec<bool>)
        requires
            high@.len() == old(self).sections@.len(),
        ensures
            final(self).model() == (PeModel {
                verdict: findings(old(self).model(), high@),
                ..old(self).model()
            }),
    {
        self.verdict = build_verdict(self, high);
    }
}

// ---------------------------------------------------------------------------
// Laws
// ---------------------------------------------------------------------------
/// A verdict always says something.
pub proof fn lemma_verdict_not_empty(m: PeModel, high: Seq<bool>)
    ensures
        findings(m, high).len() > 0,
{
}

/// The limits that keep a malformed file from growing without bound: 512
/// imports, 2000 functions each, 20000 exports and as many sections as the
/// header counts.
pub proof fn lemma_bounded(b: Seq<u8>)
    requires
        analysis(b) is Ok,
    ensures
        ({
            let m = analysis(b)->Ok_0;
            &&& m.sections.len() <= 0xFFFF
            &&& m.imports.len() <= 512
            &&& m.exports.len() <= 20000
            &&& forall|i: int|
                0 <= i < m.imports.len() ==> (#[trigger] m.imports[i]).funcs.len() <= 2000
        }),
{
    let oh = field(b, 0x3C, 4) + 24;
    let fh = oh - 20;
    let m = contents(b, oh);
    lemma_field_bound(b, fh + 2, 2);
    lemma_sections_len(b, oh + field(b, fh + 16, 2), field(b, fh + 2, 2));
    let is_64 = m.is_64;
    let directories = if is_64 {
        oh + 112
    } else {
        oh + 96
    };
    let import_rva = field(b, directories + 8, 4);
    if import_rva != 0 && file_offset(m.sections, import_rva) is Some {
        lemma_imports_bounded(
            b,
            m.sections,
            is_64,
            file_offset(m.sections, import_rva)->0,
            512,
        );
    }
    let export_rva = field(b, directories, 4);
    if export_rva != 0 && file_offset(m.sections, export_rva) is Some {
        let ed = file_offset(m.sections, export_rva)->0;
        let functions = file_offset(m.sections, field(b, ed + 28, 4));
        let names = file_offset(m.sections, field(b, ed + 32, 4));
        let ordinals = file_offset(m.sections, field(b, ed + 36, 4));
        if functions is Some && names is Some && ordinals is Some {
            lemma_exports_len(
                b,
                m.sections,
                ExportTables { functions: functions->0, names: names->0, ordinals: ordinals->0 },
                field(b, ed + 16, 4),
                least(field(b, ed + 24, 4), field(b, ed + 20, 4), 20000),
            );
        }
    }
}

proof fn lemma_field_bound(b: Seq<u8>, off: int, k: int)
    requires
        k == 2,
    ensures
        0 <= field(b, off, k) <= 0xFFFF,
{
    bytes::lemma_256_to_8();
    if bytes::le_at(b, off, k) is Some {
        bytes::lemma_le_value_bound(b.subrange(off, off + k));
    }
}

proof fn lemma_sections_len(b: Seq<u8>, table: int, n: int)
    requires
        n >= 0,
    ensures
        sections_from(b, table, n).len() <= n,
    decreases n,
{
    if n > 0 && table + 8 <= b.len() {
        lemma_sections_len(b, table + 40, n - 1);
    }
}

proof fn lemma_functions_len(
    b: Seq<u8>,
    sections: Seq<SectionModel>,
    is_64: bool,
    at: int,
    left: int,
    got: int,
)
    requires
        0 <= got < 2000,
    ensures
        functions_from(b, sections, is_64, at, left, got).len() + got <= 2000,
    decreases left,
{
    let val = field(b, at, entry_size(is_64));
    if left > 0 && val != 0 {
        let one: Seq<Seq<char>> = match import_name(b, sections, is_64, val) {
            Some(t) => seq![t],
            None => Seq::empty(),
        };
        if got + one.len() < 2000 {
            lemma_functions_len(
                b,
                sections,
                is_64,
                at + entry_size(is_64),
                left - 1,
                got + one.len() as int,
            );
        }
    }
}

proof fn lemma_imports_bounded(
    b: Seq<u8>,
    sections: Seq<SectionModel>,
    is_64: bool,
    desc: int,
    left: int,
)
    requires
        left >= 0,
    ensures
        imports_from(b, sections, is_64, desc, left).len() <= left,
        forall|i: int|
            0 <= i < imports_from(b, sections, is_64, desc, left).len() ==> (
            #[trigger] imports_from(b, sections, is_64, desc, left)[i]).funcs.len() <= 2000,
    decreases left,
{
    let all = imports_from(b, sections, is_64, desc, left);
    if left > 0 && !(field(b, desc + 12, 4) == 0 && field(b, desc + 16, 4) == 0) {
        lemma_imports_bounded(b, sections, is_64, desc + 20, left - 1);
        let list = if field(b, desc, 4) != 0 {
            field(b, desc, 4)
        } else {
            field(b, desc + 16, 4)
        };
        if file_offset(sections, list) is Some {
            lemma_functions_len(b, sections, is_64, file_offset(sections, list)->0, 5000, 0);
        }
        let rest = imports_from(b, sections, is_64, desc + 20, left - 1);
        assert forall|i: int| 0 <= i < all.len() implies (#[trigger] all[i]).funcs.len()
            <= 2000 by {
            if i > 0 {
                assert(all[i] == rest[i - 1]);
            }
        }
    }
}

proof fn lemma_exports_len(
    b: Seq<u8>,
    sections: Seq<SectionModel>,
    t: ExportTables,
    base: int,
    n: int,
)
    ensures
        exports_until(b, sections, t, base, n).len() <= (if n > 0 {
            n
        } else {
            0
        }),
    decreases n,
{
    if n > 0 {
        lemma_exports_len(b, sections, t, base, n - 1);
    }
}

} // verus!
