//! The internals of a process: its memory map, its threads, its command line
//! and the texts in its memory. The caller reads; what is decided from it
//! stands here.
use crate::bytes;
use crate::target;
use crate::target::ModuleInfo;
use crate::text;
use vstd::prelude::*;

verus! {

// ---------------------------------------------------------------------------
// Memory map
// ---------------------------------------------------------------------------
/// A region of the address space.
#[derive(Debug)]
pub struct MemRegion {
    pub base: u64,
    pub size: u64,
    pub state: &'static str,
    pub protect: String,
    pub kind: &'static str,
    /// The mapped file, if there is one.
    pub detail: String,
}

/// The value of a `MemRegion`.
#[verifier::ext_equal]
pub struct RegionModel {
    pub base: u64,
    pub size: u64,
    pub state: Seq<char>,
    pub protect: Seq<char>,
    pub kind: Seq<char>,
    pub detail: Seq<char>,
}

impl MemRegion {
    /// The value of the region.
    pub open spec fn model(self) -> RegionModel {
        RegionModel {
            base: self.base,
            size: self.size,
            state: self.state@,
            protect: self.protect@,
            kind: self.kind@,
            detail: self.detail@,
        }
    }
}

/// The values of regions.
pub open spec fn region_models(v: Seq<MemRegion>) -> Seq<RegionModel> {
    v.map_values(|r: MemRegion| r.model())
}

/// A protection as text: what may be read, written and executed.
pub open spec fn access(p: int) -> Seq<char> {
    let k = p % 256;
    if k == 0x01 {
        "---"@
    } else if k == 0x02 {
        "R--"@
    } else if k == 0x04 {
        "RW-"@
    } else if k == 0x08 {
        "RWc"@
    } else if k == 0x10 {
        "--X"@
    } else if k == 0x20 {
        "R-X"@
    } else if k == 0x40 {
        "RWX"@
    } else if k == 0x80 {
        "RcX"@
    } else {
        "???"@
    }
}

/// A protection as text, with its guard.
pub open spec fn protect_text(p: int) -> Seq<char> {
    if p == 0 {
        "-"@
    } else if (p / 256) % 2 == 1 {
        access(p) + " guard"@
    } else {
        access(p)
    }
}

/// Writes a protection as text.
fn protect_str(p: u32) -> (r: String)
    ensures
        r@ == protect_text(p as int),
{
    if p == 0 {
        return "-".to_owned();
    }
    let k: u32 = p % 256;
    let mut s: String = (match k {
        0x01 => "---",
        0x02 => "R--",
        0x04 => "RW-",
        0x08 => "RWc",
        0x10 => "--X",
        0x20 => "R-X",
        0x40 => "RWX",
        0x80 => "RcX",
        _ => "???",
    }).to_owned();
    if (p / 256) % 2 == 1 {
        s.append(" guard");
    }
    s
}

/// What the system says of a region.
#[derive(Clone, Copy, Debug, PartialEq, Eq, Structural)]
pub struct Query {
    pub base: u64,
    pub size: u64,
    pub state: u32,
    pub kind: u32,
    pub protect: u32,
}

/// The state of a region as text.
pub open spec fn state_text(s: u32) -> Seq<char> {
    if s == 0x1000 {
        "commit"@
    } else if s == 0x2000 {
        "reserve"@
    } else if s == 0x1_0000 {
        "free"@
    } else {
        "?"@
    }
}

/// The kind of a region as text.
pub open spec fn kind_text(k: u32) -> Seq<char> {
    if k == 0x100_0000 {
        "image"@
    } else if k == 0x4_0000 {
        "mapped"@
    } else if k == 0x2_0000 {
        "private"@
    } else {
        Seq::empty()
    }
}

/// Whether a region may have a mapped file.
pub open spec fn has_file(q: Query) -> bool {
    q.state == 0x1000 && (q.kind == 0x100_0000 || q.kind == 0x4_0000)
}

/// The last part of a path.
pub open spec fn file_name(path: Seq<char>) -> Seq<char> {
    path.skip(text::last_in(path, text::Class::Is('\\')) + 1)
}

/// The mapped file of a region; `path` is what the system says of it.
pub open spec fn detail_of(q: Query, path: Seq<u16>) -> Seq<char> {
    if has_file(q) && path.len() > 0 {
        file_name(bytes::utf16_text(path))
    } else {
        Seq::empty()
    }
}

/// The region that the system describes.
pub open spec fn region_of(q: Query, path: Seq<u16>) -> RegionModel {
    RegionModel {
        base: q.base,
        size: q.size,
        state: state_text(q.state),
        protect: protect_text(q.protect as int),
        kind: kind_text(q.kind),
        detail: detail_of(q, path),
    }
}

/// Whether a region may have a mapped file, so that its path is worth asking
/// for.
pub fn wants_file(q: &Query) -> (r: bool)
    ensures
        r == has_file(*q),
{
    q.state == 0x1000 && (q.kind == 0x100_0000 || q.kind == 0x4_0000)
}

/// Takes the last part of a path.
fn last_part(path: &str) -> (r: String)
    ensures
        r@ == file_name(path@),
{
    let chars: Vec<char> = text::chars_of(path);
    let n: usize = chars.len();
    match text::rfind(&chars, text::Class::Is('\\')) {
        Some(i) => text::string_of(text::from_index(&chars, i + 1)),
        None => {
            proof {
                assert(path@.skip(0) =~= path@);
            }
            path.to_owned()
        },
    }
}

/// A walk over the address space.
#[derive(Debug)]
pub struct MapWalk {
    /// The address to ask for next.
    pub addr: u64,
    pub out: Vec<MemRegion>,
    /// How many regions were described.
    pub steps: u32,
}

/// The value of a `MapWalk`.
#[verifier::ext_equal]
pub struct WalkModel {
    pub addr: u64,
    pub out: Seq<RegionModel>,
    pub steps: int,
}

/// The address behind a region, at most the last one.
pub open spec fn behind(q: Query) -> u64 {
    if q.base + q.size > u64::MAX {
        u64::MAX
    } else {
        (q.base + q.size) as u64
    }
}

/// The walk after a region was described, and whether it goes on: a free
/// region is left out, and it ends where it would not advance, with 50000
/// regions or after 300000 descriptions.
pub open spec fn walked(w: WalkModel, q: Query, path: Seq<u16>) -> (WalkModel, bool) {
    let out = if q.state == 0x1_0000 {
        w.out
    } else {
        w.out.push(region_of(q, path))
    };
    let next = WalkModel { out, steps: w.steps + 1, ..w };
    if behind(q) <= w.addr {
        (next, false)
    } else {
        (
            WalkModel { addr: behind(q), ..next },
            out.len() < 50000 && w.steps + 1 < 300000,
        )
    }
}

impl MapWalk {
    /// The value of the walk.
    pub open spec fn model(self) -> WalkModel {
        WalkModel { addr: self.addr, out: region_models(self.out@), steps: self.steps as int }
    }

    /// A walk from the first address on.
    pub fn new() -> (r: Self)
        ensures
            r.model() == (WalkModel { addr: 0, out: Seq::empty(), steps: 0 }),
    {
        let r: MapWalk = MapWalk { addr: 0, out: Vec::new(), steps: 0 };
        proof {
            assert(r.model().out =~= Seq::<RegionModel>::empty());
        }
        r
    }

    /// Takes in the description of the region at the address of the walk, with
    /// the path of its mapped file, and says whether the walk goes on.
    pub fn take(&mut self, q: Query, path: &[u16]) -> (more: bool)
        requires
            old(self).steps < 300000,
        ensures
            (final(self).model(), more) == walked(old(self).model(), q, path@),
    {
        let ghost before = self.out@;
        self.steps = self.steps + 1;
        if q.state != 0x1_0000 {
            let state: &'static str = match q.state {
                0x1000 => "commit",
                0x2000 => "reserve",
                _ => "?",
            };
            let kind: &'static str = match q.kind {
                0x100_0000 => "image",
                0x4_0000 => "mapped",
                0x2_0000 => "private",
                _ => "",
            };
            proof {
                reveal_strlit("");
                assert(""@ =~= Seq::<char>::empty());
            }
            let detail: String = if wants_file(&q) && path.len() > 0 {
                last_part(bytes::utf16_string(path).as_str())
            } else {
                String::new()
            };
            let region: MemRegion = MemRegion {
                base: q.base,
                size: q.size,
                state,
                protect: protect_str(q.protect),
                kind,
                detail,
            };
            proof {
                assert(region.model() =~= region_of(q, path@));
            }
            self.out.push(region);
            proof {
                assert(region_models(self.out@) =~= region_models(before).push(region.model()));
            }
        }
        assert(region_models(self.out@).len() == self.out@.len());
        let next: u64 = if q.base > u64::MAX - q.size {
            u64::MAX
        } else {
            q.base + q.size
        };
        if next <= self.addr {
            return false;
        }
        self.addr = next;
        self.out.len() < 50000 && self.steps < 300000
    }
}

/// A walk that goes on has advanced and is within its limits.
pub proof fn lemma_walk_advances(w: WalkModel, q: Query, path: Seq<u16>)
    requires
        walked(w, q, path).1,
    ensures
        walked(w, q, path).0.addr > w.addr,
        walked(w, q, path).0.out.len() < 50000,
        walked(w, q, path).0.steps < 300000,
{
}

// ---------------------------------------------------------------------------
// Threads
// ---------------------------------------------------------------------------
/// A thread.
#[derive(Debug)]
pub struct ThreadInfo {
    pub tid: u32,
    pub base_priority: i32,
    pub start: u64,
    /// `module+0x1234` where the start lies in a known module.
    pub start_sym: String,
}

/// The value of a `ThreadInfo`.
#[verifier::ext_equal]
pub struct ThreadModel {
    pub tid: u32,
    pub base_priority: i32,
    pub start: u64,
    pub start_sym: Seq<char>,
}

impl ThreadInfo {
    /// The value of the thread.
    pub open spec fn model(self) -> ThreadModel {
        ThreadModel {
            tid: self.tid,
            base_priority: self.base_priority,
            start: self.start,
            start_sym: self.start_sym@,
        }
    }
}

/// The values of threads.
pub open spec fn thread_models(v: Seq<ThreadInfo>) -> Seq<ThreadModel> {
    v.map_values(|t: ThreadInfo| t.model())
}

/// What the system says of a thread.
#[derive(Clone, Copy, Debug, PartialEq, Eq, Structural)]
pub struct ThreadRow {
    pub owner: u32,
    pub tid: u32,
    pub base_priority: i32,
    pub start: u64,
}

/// An address as `module+0x1234`: in the first module that holds it, empty if
/// there is none.
pub open spec fn symbol(addr: u64, modules: Seq<ModuleInfo>) -> Seq<char>
    decreases modules.len(),
{
    if addr == 0 || modules.len() == 0 {
        Seq::empty()
    } else if modules[0].base <= addr < target::module_end(modules[0]) {
        modules[0].name@ + "+0x"@ + text::hex((addr - modules[0].base) as nat)
    } else {
        symbol(addr, modules.skip(1))
    }
}

/// Writes an address as `module+0x1234`.
pub fn resolve(addr: u64, modules: &Vec<ModuleInfo>) -> (r: String)
    ensures
        r@ == symbol(addr, modules@),
{
    let n: usize = modules.len();
    let mut i: usize = 0;
    proof {
        assert(modules@.skip(0) =~= modules@);
    }
    if addr == 0 {
        return String::new();
    }
    while i < n
        invariant
            addr != 0,
            n == modules@.len(),
            i <= n,
            symbol(addr, modules@.skip(i as int)) == symbol(addr, modules@),
        decreases n - i,
    {
        proof {
            assert(modules@.skip(i as int)[0] == modules@[i as int]);
            assert(modules@.skip(i as int).skip(1) =~= modules@.skip(i + 1));
        }
        let base: u64 = modules[i].base;
        if addr >= base && addr < target::end_of(&modules[i]) {
            let mut s: String = modules[i].name.clone();
            s.append("+0x");
            s.append(text::write_hex(addr - base).as_str());
            return s;
        }
        i = i + 1;
    }
    String::new()
}

/// The threads of a process among the first `n` rows.
pub open spec fn threads_until(
    rows: Seq<ThreadRow>,
    pid: u32,
    modules: Seq<ModuleInfo>,
    n: int,
) -> Seq<ThreadModel>
    decreases n,
{
    if n <= 0 {
        Seq::empty()
    } else if rows[n - 1].owner == pid {
        threads_until(rows, pid, modules, n - 1).push(
            ThreadModel {
                tid: rows[n - 1].tid,
                base_priority: rows[n - 1].base_priority,
                start: rows[n - 1].start,
                start_sym: symbol(rows[n - 1].start, modules),
            },
        )
    } else {
        threads_until(rows, pid, modules, n - 1)
    }
}

/// Lists the threads of a process.
pub fn threads(rows: &Vec<ThreadRow>, pid: u32, modules: &Vec<ModuleInfo>) -> (r: Vec<ThreadInfo>)
    ensures
        thread_models(r@) == threads_until(rows@, pid, modules@, rows@.len() as int),
{
    let mut out: Vec<ThreadInfo> = Vec::new();
    proof {
        assert(thread_models(out@) =~= Seq::<ThreadModel>::empty());
    }
    for i in 0..rows.len()
        invariant
            thread_models(out@) == threads_until(rows@, pid, modules@, i as int),
    {
        let row: ThreadRow = rows[i];
        if row.owner == pid {
            let t: ThreadInfo = ThreadInfo {
                tid: row.tid,
                base_priority: row.base_priority,
                start: row.start,
                start_sym: resolve(row.start, modules),
            };
            proof {
                assert(thread_models(out@.push(t)) =~= thread_models(out@).push(t.model()));
            }
            out.push(t);
        }
    }
    out
}

// ---------------------------------------------------------------------------
// Command line
// ---------------------------------------------------------------------------
/// What is being read on the way to the command line.
#[derive(Clone, Copy, Debug, PartialEq, Eq, Structural)]
pub enum CommandPart {
    /// The address of the parameters.
    Parameters,
    /// The length of the text, in the parameters at an address.
    Length(u64),
    /// The address of the text, whose length is known.
    Buffer(u16),
    /// The text itself.
    Text,
    /// Nothing more.
    Over,
}

/// What is to be read next.
#[derive(Debug)]
pub enum CommandRead {
    Bytes { addr: u64, len: usize },
    /// The command line, if it was found.
    Done(Option<String>),
}

/// The value of a `CommandRead`.
pub enum CommandModel {
    Bytes { addr: u64, len: int },
    Done(Option<Seq<char>>),
}

impl CommandRead {
    /// The value of what is to be read.
    pub open spec fn model(self) -> CommandModel {
        match self {
            CommandRead::Bytes { addr, len } => CommandModel::Bytes { addr, len: len as int },
            CommandRead::Done(t) => CommandModel::Done(text::option_view(t)),
        }
    }
}

/// An address and an offset, modulo 2^64.
pub open spec fn at(base: u64, off: int) -> u64 {
    ((base + off) % 0x1_0000_0000_0000_0000) as u64
}

/// The code units of bytes, two bytes each; a single one at the end is left.
pub open spec fn units(b: Seq<u8>) -> Seq<u16>
    decreases b.len(),
{
    if b.len() < 2 {
        Seq::empty()
    } else {
        seq![(b[0] + 256 * b[1]) as u16] + units(b.skip(2))
    }
}

/// Reads the code units of bytes.
fn read_units(b: &[u8]) -> (r: Vec<u16>)
    ensures
        r@ == units(b@),
{
    let n: usize = b.len();
    let mut out: Vec<u16> = Vec::new();
    let mut i: usize = 0;
    proof {
        assert(b@.skip(0) =~= b@);
        assert(out@ + units(b@.skip(0)) =~= units(b@));
    }
    while n - i >= 2
        invariant
            n == b@.len(),
            i <= n,
            out@ + units(b@.skip(i as int)) == units(b@),
        decreases n - i,
    {
        let ghost before = out@;
        let ghost rest = b@.skip(i as int);
        out.push(b[i] as u16 + 256 * b[i + 1] as u16);
        proof {
            assert(rest.skip(2) =~= b@.skip(i + 2));
            assert(out@ + units(b@.skip(i + 2)) =~= before + units(rest));
        }
        i = i + 2;
    }
    proof {
        assert(units(b@.skip(i as int)) =~= Seq::<u16>::empty());
        assert(out@ + Seq::<u16>::empty() =~= out@);
    }
    out
}

/// Nothing was found.
pub open spec fn not_found() -> (CommandPart, CommandModel) {
    (CommandPart::Over, CommandModel::Done(None))
}

/// Where the reading begins: at the block whose address stands in the basic
/// information of the process.
pub open spec fn command_begun(info: Seq<u8>) -> (CommandPart, CommandModel) {
    match bytes::le_at(info, 8, 8) {
        Some(peb) => if peb == 0 {
            not_found()
        } else {
            (
                CommandPart::Parameters,
                CommandModel::Bytes { addr: at(peb as u64, 0x20), len: 8 },
            )
        },
        None => not_found(),
    }
}

/// The reading after some bytes were read. What was not read, or not whole,
/// ends it, but the text may be cut short.
pub open spec fn command_took(part: CommandPart, b: Option<Seq<u8>>) -> (
    CommandPart,
    CommandModel,
) {
    match b {
        None => not_found(),
        Some(got) => match part {
            CommandPart::Parameters => match bytes::le_at(got, 0, 8) {
                None => not_found(),
                Some(p) => (
                    CommandPart::Length(p as u64),
                    CommandModel::Bytes { addr: at(p as u64, 0x70), len: 2 },
                ),
            },
            CommandPart::Length(p) => match bytes::le_at(got, 0, 2) {
                None => not_found(),
                Some(n) => (
                    CommandPart::Buffer(n as u16),
                    CommandModel::Bytes { addr: at(p, 0x78), len: 8 },
                ),
            },
            CommandPart::Buffer(n) => match bytes::le_at(got, 0, 8) {
                None => not_found(),
                Some(a) => if n == 0 || a == 0 {
                    not_found()
                } else {
                    (
                        CommandPart::Text,
                        CommandModel::Bytes { addr: a as u64, len: n as int },
                    )
                },
            },
            CommandPart::Text => (
                CommandPart::Over,
                CommandModel::Done(Some(bytes::utf16_text(units(got)))),
            ),
            CommandPart::Over => not_found(),
        },
    }
}

/// Begins to read the command line, given the basic information of the process.
pub fn command_begin(info: &[u8]) -> (r: (CommandPart, CommandRead))
    ensures
        (r.0, r.1.model()) == command_begun(info@),
{
    match bytes::read_le_at(info, 8, 8) {
        Some(peb) => if peb == 0 {
            (CommandPart::Over, CommandRead::Done(None))
        } else {
            (
                CommandPart::Parameters,
                CommandRead::Bytes { addr: peb.wrapping_add(0x20), len: 8 },
            )
        },
        None => (CommandPart::Over, CommandRead::Done(None)),
    }
}

/// Takes in what was read on the way to the command line, and says what to
/// read next.
pub fn command_take(part: CommandPart, read: Option<Vec<u8>>) -> (r: (CommandPart, CommandRead))
    ensures
        (r.0, r.1.model()) == command_took(
            part,
            match read {
                Some(b) => Some(b@),
                None => None,
            },
        ),
{
    let got: Vec<u8> = match read {
        Some(b) => b,
        None => {
            return (CommandPart::Over, CommandRead::Done(None));
        },
    };
    match part {
        CommandPart::Parameters => match bytes::read_le_at(&got, 0, 8) {
            None => (CommandPart::Over, CommandRead::Done(None)),
            Some(p) => (
                CommandPart::Length(p),
                CommandRead::Bytes { addr: p.wrapping_add(0x70), len: 2 },
            ),
        },
        CommandPart::Length(p) => match bytes::read_le_at(&got, 0, 2) {
            None => (CommandPart::Over, CommandRead::Done(None)),
            Some(n) => {
                proof {
                    bytes::lemma_256_to_8();
                    bytes::lemma_le_value_bound(got@.subrange(0, 2));
                }
                (
                    CommandPart::Buffer(n as u16),
                    CommandRead::Bytes { addr: p.wrapping_add(0x78), len: 8 },
                )
            },
        },
        CommandPart::Buffer(n) => match bytes::read_le_at(&got, 0, 8) {
            None => (CommandPart::Over, CommandRead::Done(None)),
            Some(a) => if n == 0 || a == 0 {
                (CommandPart::Over, CommandRead::Done(None))
            } else {
                (CommandPart::Text, CommandRead::Bytes { addr: a, len: n as usize })
            },
        },
        CommandPart::Text => {
            let u: Vec<u16> = read_units(&got);
            (CommandPart::Over, CommandRead::Done(Some(bytes::utf16_string(&u))))
        },
        CommandPart::Over => (CommandPart::Over, CommandRead::Done(None)),
    }
}

// ---------------------------------------------------------------------------
// Texts in memory
// ---------------------------------------------------------------------------
/// A text in memory.
#[derive(Debug)]
pub struct FoundString {
    pub addr: u64,
    /// Whether it has two bytes per character.
    pub wide: bool,
    pub text: String,
}

/// The value of a `FoundString`.
#[verifier::ext_equal]
pub struct FoundModel {
    pub addr: u64,
    pub wide: bool,
    pub text: Seq<char>,
}

impl FoundString {
    /// The value of the text.
    pub open spec fn model(self) -> FoundModel {
        FoundModel { addr: self.addr, wide: self.wide, text: self.text@ }
    }
}

/// The values of texts.
pub open spec fn found_models(v: Seq<FoundString>) -> Seq<FoundModel> {
    v.map_values(|f: FoundString| f.model())
}

/// The texts with which a search ends.
pub const MAX_FOUND: usize = 20000;

/// The bytes of a region that are searched at most.
pub const REGION_CAP: u64 = 8388608;

/// Whether a byte is a printable ASCII character.
pub open spec fn is_printable(c: u8) -> bool {
    0x20 <= c <= 0x7E
}

/// Recognises a printable ASCII character.
fn printable(c: u8) -> (r: bool)
    ensures
        r == is_printable(c),
{
    0x20 <= c && c <= 0x7E
}

/// Where a run of printable characters ends.
pub open spec fn run_end(b: Seq<u8>, i: int) -> int
    decreases b.len() - i,
{
    if i < 0 || i >= b.len() || !is_printable(b[i]) {
        i
    } else {
        run_end(b, i + 1)
    }
}

/// Whether a wide printable character stands at an index.
pub open spec fn wide_at(b: Seq<u8>, i: int) -> bool {
    0 <= i && i + 1 < b.len() && is_printable(b[i]) && b[i + 1] == 0
}

/// Where a run of wide printable characters ends.
pub open spec fn wide_end(b: Seq<u8>, i: int) -> int
    decreases b.len() - i,
{
    if wide_at(b, i) {
        wide_end(b, i + 2)
    } else {
        i
    }
}

/// The characters of a run whose characters are `step` bytes apart.
pub open spec fn run_text(b: Seq<u8>, i: int, j: int, step: int) -> Seq<char> {
    Seq::new(((j - i) / step) as nat, |k: int| b[i + k * step] as char)
}

/// The texts after a search for runs from an index on: every run of at least
/// `min` characters, until there are enough.
pub open spec fn narrow_from(
    b: Seq<u8>,
    base: u64,
    min: int,
    i: int,
    out: Seq<FoundModel>,
) -> Seq<FoundModel>
    decreases b.len() - i,
    via narrow_decreases
{
    if i < 0 || i >= b.len() {
        out
    } else if !is_printable(b[i]) {
        narrow_from(b, base, min, i + 1, out)
    } else {
        let j = run_end(b, i);
        if j - i >= min {
            let next = out.push(
                FoundModel { addr: at(base, i), wide: false, text: run_text(b, i, j, 1) },
            );
            if next.len() >= MAX_FOUND {
                next
            } else {
                narrow_from(b, base, min, j, next)
            }
        } else {
            narrow_from(b, base, min, j, out)
        }
    }
}

#[via_fn]
proof fn narrow_decreases(b: Seq<u8>, base: u64, min: int, i: int, out: Seq<FoundModel>) {
    if 0 <= i < b.len() && is_printable(b[i]) {
        lemma_run_end(b, i + 1);
    }
}

proof fn lemma_run_end(b: Seq<u8>, i: int)
    ensures
        i <= run_end(b, i),
        0 <= i <= b.len() ==> run_end(b, i) <= b.len(),
    decreases b.len() - i,
{
    if !(i < 0 || i >= b.len() || !is_printable(b[i])) {
        lemma_run_end(b, i + 1);
    }
}

/// The texts after a search for wide runs from an index on.
pub open spec fn wide_from(
    b: Seq<u8>,
    base: u64,
    min: int,
    i: int,
    out: Seq<FoundModel>,
) -> Seq<FoundModel>
    decreases b.len() - i,
    via wide_decreases
{
    if i < 0 || i + 1 >= b.len() {
        out
    } else if !wide_at(b, i) {
        wide_from(b, base, min, i + 1, out)
    } else {
        let j = wide_end(b, i);
        if (j - i) / 2 >= min {
            let next = out.push(
                FoundModel { addr: at(base, i), wide: true, text: run_text(b, i, j, 2) },
            );
            if next.len() >= MAX_FOUND {
                next
            } else {
                wide_from(b, base, min, j, next)
            }
        } else {
            wide_from(b, base, min, j, out)
        }
    }
}

#[via_fn]
proof fn wide_decreases(b: Seq<u8>, base: u64, min: int, i: int, out: Seq<FoundModel>) {
    if wide_at(b, i) {
        lemma_wide_end(b, i + 2);
    }
}

proof fn lemma_wide_end(b: Seq<u8>, i: int)
    ensures
        i <= wide_end(b, i),
        0 <= i <= b.len() ==> wide_end(b, i) <= b.len(),
        (wide_end(b, i) - i) % 2 == 0,
    decreases b.len() - i,
{
    if wide_at(b, i) {
        lemma_wide_end(b, i + 2);
    }
}

/// Appends the texts of a region with one byte per character.
fn scan_ascii(buf: &[u8], base: u64, min_len: usize, out: &mut Vec<FoundString>)
    ensures
        found_models(final(out)@) == narrow_from(
            buf@,
            base,
            min_len as int,
            0,
            found_models(old(out)@),
        ),
{
    let ghost goal = narrow_from(buf@, base, min_len as int, 0, found_models(out@));
    let n: usize = buf.len();
    let mut i: usize = 0;
    while i < n
        invariant
            n == buf@.len(),
            i <= n,
            narrow_from(buf@, base, min_len as int, i as int, found_models(out@)) == goal,
            goal == narrow_from(buf@, base, min_len as int, 0, found_models(old(out)@)),
        decreases n - i,
    {
        if printable(buf[i]) {
            let start: usize = i;
            let mut s: String = String::new();
            proof {
                assert(run_text(buf@, start as int, start as int, 1) =~= Seq::<char>::empty());
            }
            while i < n && printable(buf[i])
                invariant
                    n == buf@.len(),
                    start <= i <= n,
                    run_end(buf@, start as int) == run_end(buf@, i as int),
                    s@ == run_text(buf@, start as int, i as int, 1),
                decreases n - i,
            {
                s.push(buf[i] as char);
                i = i + 1;
                proof {
                    assert(s@ =~= run_text(buf@, start as int, i as int, 1));
                }
            }
            proof {
                lemma_run_end(buf@, start + 1);
                assert(i > start);
                assert(i == run_end(buf@, start as int));
            }
            if i - start >= min_len {
                let f: FoundString = FoundString {
                    addr: base.wrapping_add(start as u64),
                    wide: false,
                    text: s,
                };
                proof {
                    assert(found_models(out@.push(f)) =~= found_models(out@).push(f.model()));
                }
                out.push(f);
                assert(found_models(out@).len() == out@.len());
                if out.len() >= MAX_FOUND {
                    return;
                }
            }
        } else {
            i = i + 1;
        }
    }
}

/// Appends the texts of a region with two bytes per character.
fn scan_utf16(buf: &[u8], base: u64, min_len: usize, out: &mut Vec<FoundString>)
    ensures
        found_models(final(out)@) == wide_from(
            buf@,
            base,
            min_len as int,
            0,
            found_models(old(out)@),
        ),
{
    let ghost goal = wide_from(buf@, base, min_len as int, 0, found_models(out@));
    let n: usize = buf.len();
    let mut i: usize = 0;
    while i < n && n - i > 1
        invariant
            n == buf@.len(),
            i <= n,
            wide_from(buf@, base, min_len as int, i as int, found_models(out@)) == goal,
            goal == wide_from(buf@, base, min_len as int, 0, found_models(old(out)@)),
        decreases n - i,
    {
        if printable(buf[i]) && buf[i + 1] == 0 {
            let start: usize = i;
            let mut s: String = String::new();
            let mut count: usize = 0;
            proof {
                assert(run_text(buf@, start as int, start as int, 2) =~= Seq::<char>::empty());
            }
            while n - i > 1 && printable(buf[i]) && buf[i + 1] == 0
                invariant
                    n == buf@.len(),
                    start <= i <= n,
                    i == start + 2 * count,
                    wide_end(buf@, start as int) == wide_end(buf@, i as int),
                    s@ == run_text(buf@, start as int, i as int, 2),
                decreases n - i,
            {
                s.push(buf[i] as char);
                i = i + 2;
                count = count + 1;
                proof {
                    assert((i - start) / 2 == count);
                    assert((i - 2 - start) / 2 == count - 1);
                    assert(s@ =~= run_text(buf@, start as int, i as int, 2));
                }
            }
            proof {
                lemma_wide_end(buf@, start + 2);
                assert(i == wide_end(buf@, start as int));
                assert((i - start) / 2 == count);
            }
            if count >= min_len {
                let f: FoundString = FoundString {
                    addr: base.wrapping_add(start as u64),
                    wide: true,
                    text: s,
                };
                proof {
                    assert(found_models(out@.push(f)) =~= found_models(out@).push(f.model()));
                }
                out.push(f);
                assert(found_models(out@).len() == out@.len());
                if out.len() >= MAX_FOUND {
                    return;
                }
            }
        } else {
            i = i + 1;
        }
    }
}

/// How many bytes of a region are searched; none if it is not committed or not
/// readable.
pub open spec fn searched(r: RegionModel) -> Option<u64> {
    if r.state == "commit"@ && r.protect.len() > 0 && r.protect[0] == 'R' {
        Some(
            if r.size < REGION_CAP {
                r.size
            } else {
                REGION_CAP
            },
        )
    } else {
        None
    }
}

/// Decides how many bytes of a region are searched.
fn wants_strings(r: &MemRegion) -> (n: Option<u64>)
    ensures
        n == searched(r.model()),
{
    let protect: Vec<char> = text::chars_of(r.protect.as_str());
    if text::same_str(r.state, "commit") && protect.len() > 0 && protect[0] == 'R' {
        Some(
            if r.size < REGION_CAP {
                r.size
            } else {
                REGION_CAP
            },
        )
    } else {
        None
    }
}

/// The texts after a region was searched, both ways.
pub open spec fn gathered(out: Seq<FoundModel>, b: Seq<u8>, base: u64, min: int) -> Seq<
    FoundModel,
> {
    wide_from(b, base, min, 0, narrow_from(b, base, min, 0, out))
}

/// Searches the bytes of a region for texts of at least `min_len` characters
/// and says whether the search goes on.
fn gather(buf: &[u8], base: u64, min_len: usize, out: &mut Vec<FoundString>) -> (more: bool)
    ensures
        found_models(final(out)@) == gathered(
            found_models(old(out)@),
            buf@,
            base,
            min_len as int,
        ),
        more == (found_models(final(out)@).len() < MAX_FOUND),
{
    scan_ascii(buf, base, min_len, out);
    scan_utf16(buf, base, min_len, out);
    assert(found_models(out@).len() == out@.len());
    out.len() < MAX_FOUND
}

/// The index of the next region that is searched, from an index on.
pub open spec fn next_searched(regions: Seq<RegionModel>, i: int) -> int
    decreases regions.len() - i,
{
    if i < 0 || i >= regions.len() {
        regions.len() as int
    } else if searched(regions[i]) is Some {
        i
    } else {
        next_searched(regions, i + 1)
    }
}

/// A search for texts over the regions of a memory map.
#[derive(Debug)]
pub struct StringSearch {
    /// The index of the region to look at next.
    pub at: usize,
    pub out: Vec<FoundString>,
    /// Whether there are texts enough.
    pub full: bool,
}

/// The value of a `StringSearch`.
#[verifier::ext_equal]
pub struct SearchModel {
    pub at: int,
    pub out: Seq<FoundModel>,
    pub full: bool,
}

/// What a search asks for: the base of a region and how many of its bytes.
/// It passes over the regions that are not searched, and ends after the last
/// region or with texts enough.
pub open spec fn asked(s: SearchModel, regions: Seq<RegionModel>) -> (SearchModel, Option<(u64, u64)>) {
    let i = next_searched(regions, s.at);
    if s.full {
        (s, None)
    } else if i < regions.len() {
        (SearchModel { at: i, ..s }, Some((regions[i].base, searched(regions[i])->0)))
    } else {
        (SearchModel { at: i, ..s }, None)
    }
}

/// A search after its region was read; one that could not be read gives
/// nothing.
pub open spec fn answered(s: SearchModel, base: u64, read: Option<Seq<u8>>, min: int) -> SearchModel {
    match read {
        None => SearchModel { at: s.at + 1, ..s },
        Some(b) => {
            let out = gathered(s.out, b, base, min);
            SearchModel { at: s.at + 1, out, full: out.len() >= MAX_FOUND }
        },
    }
}

impl StringSearch {
    /// The value of the search.
    pub open spec fn model(self) -> SearchModel {
        SearchModel { at: self.at as int, out: found_models(self.out@), full: self.full }
    }

    /// A search from the first region on.
    pub fn new() -> (r: Self)
        ensures
            r.model() == (SearchModel { at: 0, out: Seq::empty(), full: false }),
    {
        let r: StringSearch = StringSearch { at: 0, out: Vec::new(), full: false };
        proof {
            assert(r.model().out =~= Seq::<FoundModel>::empty());
        }
        r
    }

    /// Says which bytes to read next: the base of a region and how many.
    pub fn ask(&mut self, regions: &Vec<MemRegion>) -> (r: Option<(u64, u64)>)
        ensures
            (final(self).model(), r) == asked(old(self).model(), region_models(regions@)),
    {
        if self.full {
            return None;
        }
        let ghost models = region_models(regions@);
        let ghost start = self.at as int;
        let n: usize = regions.len();
        let mut i: usize = self.at;
        if i > n {
            i = n;
        }
        while i < n
            invariant
                n == regions@.len(),
                models == region_models(regions@),
                i <= n,
                !self.full,
                *self == *old(self),
                next_searched(models, start) == next_searched(models, i as int),
                start == old(self).at,
            decreases n - i,
        {
            match wants_strings(&regions[i]) {
                Some(len) => {
                    assert(models[i as int] == regions@[i as int].model());
                    self.at = i;
                    return Some((regions[i].base, len));
                },
                None => {
                    assert(models[i as int] == regions@[i as int].model());
                },
            }
            i = i + 1;
        }
        self.at = n;
        None
    }

    /// Takes in what was read of the region at `base` and keeps its texts of at
    /// least `min_len` characters.
    pub fn take(&mut self, base: u64, read: Option<Vec<u8>>, min_len: usize)
        requires
            old(self).at < usize::MAX,
        ensures
            final(self).model() == answered(
                old(self).model(),
                base,
                match read {
                    Some(b) => Some(b@),
                    None => None,
                },
                min_len as int,
            ),
    {
        self.at = self.at + 1;
        match read {
            Some(b) => {
                let more: bool = gather(&b, base, min_len, &mut self.out);
                self.full = !more;
            },
            None => {},
        }
    }
}

/// Whether a text is as long as was asked for and stands in the bytes at its
/// address, one or two bytes per character, all of them printable.
pub open spec fn stands_in(f: FoundModel, b: Seq<u8>, base: u64, min: int) -> bool {
    let step = if f.wide {
        2int
    } else {
        1
    };
    &&& f.text.len() >= min
    &&& exists|i: int|
        #![trigger at(base, i)]
        0 <= i && i + f.text.len() * step <= b.len() && f.addr == at(base, i) && (forall|c: int|
            0 <= c < f.text.len() ==> #[trigger] f.text[c] == b[i + c * step] as char
                && is_printable(b[i + c * step]))
}

/// Every text that a search adds is as long as was asked for and stands at its
/// address; what was found before stays.
pub proof fn lemma_found(out: Seq<FoundModel>, b: Seq<u8>, base: u64, min: int, k: int)
    requires
        0 <= k < gathered(out, b, base, min).len(),
    ensures
        k < out.len() ==> gathered(out, b, base, min)[k] == out[k],
        k >= out.len() ==> stands_in(gathered(out, b, base, min)[k], b, base, min),
{
    let mid = narrow_from(b, base, min, 0, out);
    lemma_narrow(b, base, min, 0, out);
    lemma_wide(b, base, min, 0, mid);
    if k < mid.len() {
        assert(gathered(out, b, base, min)[k] == mid[k]);
    }
}

proof fn lemma_run_printable(b: Seq<u8>, i: int)
    requires
        0 <= i <= b.len(),
    ensures
        run_end(b, i) <= b.len(),
        forall|j: int| i <= j < run_end(b, i) ==> is_printable(#[trigger] b[j]),
    decreases b.len() - i,
{
    lemma_run_end(b, i);
    if i < b.len() && is_printable(b[i]) {
        lemma_run_printable(b, i + 1);
    }
}

proof fn lemma_wide_printable(b: Seq<u8>, i: int)
    requires
        0 <= i <= b.len(),
    ensures
        i <= wide_end(b, i) <= b.len(),
        (wide_end(b, i) - i) % 2 == 0,
        forall|c: int|
            0 <= c < (wide_end(b, i) - i) / 2 ==> #[trigger] wide_at(b, i + 2 * c),
    decreases b.len() - i,
{
    lemma_wide_end(b, i);
    if wide_at(b, i) {
        lemma_wide_printable(b, i + 2);
        assert forall|c: int| 0 <= c < (wide_end(b, i) - i) / 2 implies #[trigger] wide_at(
            b,
            i + 2 * c,
        ) by {
            if c > 0 {
                assert(wide_at(b, (i + 2) + 2 * (c - 1)));
            }
        }
    }
}

proof fn lemma_narrow(b: Seq<u8>, base: u64, min: int, i: int, out: Seq<FoundModel>)
    ensures
        ({
            let r = narrow_from(b, base, min, i, out);
            &&& r.len() >= out.len()
            &&& forall|k: int| 0 <= k < out.len() ==> #[trigger] r[k] == out[k]
            &&& forall|k: int|
                out.len() <= k < r.len() ==> stands_in(#[trigger] r[k], b, base, min)
        }),
    decreases b.len() - i,
{
    if !(i < 0 || i >= b.len()) {
        if !is_printable(b[i]) {
            lemma_narrow(b, base, min, i + 1, out);
        } else {
            let j = run_end(b, i);
            lemma_run_end(b, i + 1);
            if j - i >= min {
                let f = FoundModel { addr: at(base, i), wide: false, text: run_text(b, i, j, 1) };
                let next = out.push(f);
                lemma_run_printable(b, i);
                assert(stands_in(f, b, base, min)) by {
                    assert forall|c: int| 0 <= c < f.text.len() implies #[trigger] f.text[c] == b[i
                        + c * 1] as char && is_printable(b[i + c * 1]) by {
                        assert(is_printable(b[i + c]));
                    }
                    assert(at(base, i) == f.addr);
                }
                if next.len() < MAX_FOUND {
                    lemma_narrow(b, base, min, j, next);
                    let r = narrow_from(b, base, min, j, next);
                    assert(r[out.len() as int] == next[out.len() as int]);
                    assert forall|k: int| 0 <= k < out.len() implies #[trigger] r[k] == out[k] by {
                        assert(next[k] == out[k]);
                    }
                }
            } else {
                lemma_narrow(b, base, min, j, out);
            }
        }
    }
}

proof fn lemma_wide(b: Seq<u8>, base: u64, min: int, i: int, out: Seq<FoundModel>)
    ensures
        ({
            let r = wide_from(b, base, min, i, out);
            &&& r.len() >= out.len()
            &&& forall|k: int| 0 <= k < out.len() ==> #[trigger] r[k] == out[k]
            &&& forall|k: int|
                out.len() <= k < r.len() ==> stands_in(#[trigger] r[k], b, base, min)
        }),
    decreases b.len() - i,
{
    if !(i < 0 || i + 1 >= b.len()) {
        if !wide_at(b, i) {
            lemma_wide(b, base, min, i + 1, out);
        } else {
            let j = wide_end(b, i);
            lemma_wide_end(b, i + 2);
            if (j - i) / 2 >= min {
                let f = FoundModel { addr: at(base, i), wide: true, text: run_text(b, i, j, 2) };
                let next = out.push(f);
                lemma_wide_printable(b, i);
                assert(stands_in(f, b, base, min)) by {
                    assert forall|c: int| 0 <= c < f.text.len() implies #[trigger] f.text[c] == b[i
                        + c * 2] as char && is_printable(b[i + c * 2]) by {
                        assert(wide_at(b, i + 2 * c));
                    }
                    assert(at(base, i) == f.addr);
                }
                if next.len() < MAX_FOUND {
                    lemma_wide(b, base, min, j, next);
                    let r = wide_from(b, base, min, j, next);
                    assert(r[out.len() as int] == next[out.len() as int]);
                    assert forall|k: int| 0 <= k < out.len() implies #[trigger] r[k] == out[k] by {
                        assert(next[k] == out[k]);
                    }
                }
            } else {
                lemma_wide(b, base, min, j, out);
            }
        }
    }
}

} // verus!
