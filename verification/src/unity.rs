//! Games on the Unity engine: which scripting backend runs, and which functions
//! its Mono library exports, read from the memory of the process.
//!
//! An `ExportReader` decides what to read; its caller reads and answers.
use crate::bytes;
use crate::pe;
use crate::target;
use crate::target::ModuleInfo;
use crate::target::ModuleModel;
use crate::text;
use vstd::prelude::*;

verus! {

/// A scripting backend.
#[derive(Clone, Copy, Debug, PartialEq, Eq, Structural)]
pub enum Engine {
    /// Mono, whose metadata can be reached through its API.
    Mono,
    /// IL2CPP, compiled ahead of time.
    Il2Cpp,
    /// Unity with a backend that is not known.
    Unity,
    /// Not Unity.
    NotUnity,
}

/// The label of a backend.
pub open spec fn label_text(e: Engine) -> Seq<char> {
    match e {
        Engine::Mono => "Unity (Mono)"@,
        Engine::Il2Cpp => "Unity (IL2CPP)"@,
        Engine::Unity => "Unity (backend desconhecido)"@,
        Engine::NotUnity => "Não-Unity"@,
    }
}

impl Engine {
    /// The label of the backend.
    pub fn label(&self) -> (r: &'static str)
        ensures
            r@ == label_text(*self),
    {
        match self {
            Engine::Mono => "Unity (Mono)",
            Engine::Il2Cpp => "Unity (IL2CPP)",
            Engine::Unity => "Unity (backend desconhecido)",
            Engine::NotUnity => "Não-Unity",
        }
    }
}

/// What is known of a process.
#[derive(Debug)]
pub struct UnityInfo {
    pub engine: Engine,
    pub mono_module: Option<ModuleInfo>,
    pub game_assembly: Option<ModuleInfo>,
    pub unity_player: Option<ModuleInfo>,
    /// How many functions with the prefix `mono_` the Mono library exports.
    pub mono_export_count: usize,
    /// The first of their names.
    pub mono_exports: Vec<String>,
}

/// The value of a `UnityInfo`.
#[verifier::ext_equal]
pub struct UnityModel {
    pub engine: Engine,
    pub mono_module: Option<ModuleModel>,
    pub game_assembly: Option<ModuleModel>,
    pub unity_player: Option<ModuleModel>,
    pub mono_export_count: nat,
    pub mono_exports: Seq<Seq<char>>,
}

/// The names that are kept at most.
pub const SAMPLE_LIMIT: usize = 60;

/// The value of an optional module.
pub open spec fn module_view(m: Option<ModuleInfo>) -> Option<ModuleModel> {
    match m {
        Some(x) => Some(x.model()),
        None => None,
    }
}

impl UnityInfo {
    /// The value of what is known.
    pub open spec fn model(self) -> UnityModel {
        UnityModel {
            engine: self.engine,
            mono_module: module_view(self.mono_module),
            game_assembly: module_view(self.game_assembly),
            unity_player: module_view(self.unity_player),
            mono_export_count: self.mono_export_count as nat,
            mono_exports: text::texts(self.mono_exports@),
        }
    }
}

/// Whether a text starts with another one.
pub open spec fn starts(s: Seq<char>, p: Seq<char>) -> bool {
    s.len() >= p.len() && s.take(p.len() as int) == p
}

/// Whether a text ends with another one.
pub open spec fn ends(s: Seq<char>, p: Seq<char>) -> bool {
    s.len() >= p.len() && s.skip(s.len() - p.len()) == p
}

/// Whether a name is that of a library of the Mono runtime.
pub open spec fn is_mono(name: Seq<char>) -> bool {
    let n = text::ascii_lowered(name);
    n == "mono.dll"@ || starts(n, "mono-2.0"@) || (starts(n, "mono"@) && ends(n, ".dll"@))
}

/// Compares the end of a text with another one.
fn ends_with(s: &[char], p: &[char]) -> (r: bool)
    ensures
        r == ends(s@, p@),
{
    let n: usize = s.len();
    let m: usize = p.len();
    if n < m {
        return false;
    }
    text::same_chars(text::from_index(s, n - m), p)
}

/// Recognises a library of the Mono runtime.
fn is_mono_dll(name: &str) -> (r: bool)
    ensures
        r == is_mono(name@),
{
    let n: Vec<char> = text::ascii_lowercase(&text::chars_of(name));
    text::is_text(&n, "mono.dll") || text::starts_with(&n, &text::chars_of("mono-2.0")) || (
    text::starts_with(&n, &text::chars_of("mono")) && ends_with(&n, &text::chars_of(".dll")))
}

/// The first library of the Mono runtime among modules.
pub open spec fn mono_in(modules: Seq<ModuleInfo>) -> Option<int>
    decreases modules.len(),
{
    if modules.len() == 0 {
        None
    } else if is_mono(modules[0].name@) {
        Some(0)
    } else {
        match mono_in(modules.skip(1)) {
            Some(i) => Some(i + 1),
            None => None,
        }
    }
}

/// Finds the first library of the Mono runtime.
pub fn find_mono(modules: &Vec<ModuleInfo>) -> (r: Option<usize>)
    ensures
        match r {
            Some(i) => mono_in(modules@) == Some(i as int) && i < modules@.len(),
            None => mono_in(modules@) is None,
        },
{
    let n: usize = modules.len();
    let mut i: usize = 0;
    proof {
        assert(modules@.skip(0) =~= modules@);
    }
    while i < n
        invariant
            n == modules@.len(),
            i <= n,
            match mono_in(modules@.skip(i as int)) {
                Some(j) => mono_in(modules@) == Some(j + i),
                None => mono_in(modules@) is None,
            },
        decreases n - i,
    {
        proof {
            assert(modules@.skip(i as int).skip(1) =~= modules@.skip(i + 1));
        }
        if is_mono_dll(modules[i].name.as_str()) {
            return Some(i);
        }
        i = i + 1;
    }
    None
}

/// The module at an index.
pub open spec fn module_at(modules: Seq<ModuleInfo>, i: Option<int>) -> Option<ModuleModel> {
    match i {
        Some(k) => Some(modules[k].model()),
        None => None,
    }
}

/// The backend, given which of the three modules are there.
pub open spec fn engine_of(mono: bool, assembly: bool, player: bool) -> Engine {
    if mono {
        Engine::Mono
    } else if assembly {
        Engine::Il2Cpp
    } else if player {
        Engine::Unity
    } else {
        Engine::NotUnity
    }
}

/// The names with the prefix `mono_` among the first `n`.
pub open spec fn mono_names(names: Seq<Seq<char>>, n: int) -> Seq<Seq<char>>
    decreases n,
{
    if n <= 0 {
        Seq::empty()
    } else if starts(names[n - 1], "mono_"@) {
        mono_names(names, n - 1).push(names[n - 1])
    } else {
        mono_names(names, n - 1)
    }
}

/// The first names, as many as are kept.
pub open spec fn sample(names: Seq<Seq<char>>) -> Seq<Seq<char>> {
    if names.len() > SAMPLE_LIMIT {
        names.take(SAMPLE_LIMIT as int)
    } else {
        names
    }
}

/// What is known of a process with these modules, whose Mono library exports
/// these names.
pub open spec fn analysis(modules: Seq<ModuleInfo>, exports: Seq<Seq<char>>) -> UnityModel {
    let mono = mono_in(modules);
    let assembly = target::module_index(modules, "GameAssembly.dll"@);
    let player = target::module_index(modules, "UnityPlayer.dll"@);
    let names = if mono is Some {
        mono_names(exports, exports.len() as int)
    } else {
        Seq::empty()
    };
    UnityModel {
        engine: engine_of(mono is Some, assembly is Some, player is Some),
        mono_module: module_at(modules, mono),
        game_assembly: module_at(modules, assembly),
        unity_player: module_at(modules, player),
        mono_export_count: names.len(),
        mono_exports: sample(names),
    }
}

/// Copies the module at an index.
fn copy_at(modules: &Vec<ModuleInfo>, i: Option<usize>) -> (r: Option<ModuleInfo>)
    requires
        i matches Some(k) ==> k < modules@.len(),
    ensures
        module_view(r) == module_at(
            modules@,
            match i {
                Some(k) => Some(k as int),
                None => None,
            },
        ),
{
    match i {
        Some(k) => Some(modules[k].copy()),
        None => None,
    }
}

/// Says which backend runs, given the modules of the process and the names that
/// its Mono library exports.
pub fn analyze(modules: &Vec<ModuleInfo>, exports: &Vec<String>) -> (r: UnityInfo)
    ensures
        r.model() == analysis(modules@, text::texts(exports@)),
{
    let mono: Option<usize> = find_mono(modules);
    let assembly: Option<usize> = target::find_module(modules, "GameAssembly.dll");
    let player: Option<usize> = target::find_module(modules, "UnityPlayer.dll");
    let engine: Engine = if mono.is_some() {
        Engine::Mono
    } else if assembly.is_some() {
        Engine::Il2Cpp
    } else if player.is_some() {
        Engine::Unity
    } else {
        Engine::NotUnity
    };
    let ghost all = text::texts(exports@);
    let mut count: usize = 0;
    let mut kept: Vec<String> = Vec::new();
    let prefix: Vec<char> = text::chars_of("mono_");
    proof {
        assert(text::texts(kept@) =~= Seq::<Seq<char>>::empty());
    }
    if mono.is_some() {
        let n: usize = exports.len();
        for i in 0..n
            invariant
                n == exports@.len(),
                all == text::texts(exports@),
                prefix@ == "mono_"@,
                count <= i,
                count == mono_names(all, i as int).len(),
                text::texts(kept@) == sample(mono_names(all, i as int)),
        {
            let ghost before = mono_names(all, i as int);
            let ghost earlier = kept@;
            assert(all[i as int] == exports@[i as int]@);
            if text::starts_with(&text::chars_of(exports[i].as_str()), &prefix) {
                count = count + 1;
                assert(text::texts(kept@).len() == kept@.len());
                if kept.len() < SAMPLE_LIMIT {
                    let name: String = exports[i].clone();
                    kept.push(name);
                    proof {
                        assert(text::texts(kept@) =~= text::texts(earlier).push(name@));
                        assert(sample(before.push(name@)) =~= before.push(name@));
                    }
                } else {
                    proof {
                        assert(sample(before.push(all[i as int])) =~= sample(before));
                    }
                }
            }
        }
        assert(all.len() == exports@.len());
    }
    UnityInfo {
        engine,
        mono_module: copy_at(modules, mono),
        game_assembly: copy_at(modules, assembly),
        unity_player: copy_at(modules, player),
        mono_export_count: count,
        mono_exports: kept,
    }
}

/// Mono decides over IL2CPP, and both over the player alone; without any of the
/// three modules a process is not Unity.
pub proof fn lemma_engine(modules: Seq<ModuleInfo>, exports: Seq<Seq<char>>)
    ensures
        ({
            let m = analysis(modules, exports);
            &&& m.engine == Engine::Mono <==> m.mono_module is Some
            &&& m.engine == Engine::Il2Cpp <==> m.mono_module is None && m.game_assembly is Some
            &&& m.engine == Engine::NotUnity <==> m.mono_module is None && m.game_assembly is None
                && m.unity_player is None
            &&& m.mono_module is None ==> m.mono_export_count == 0
            &&& m.mono_exports.len() <= SAMPLE_LIMIT
            &&& m.mono_exports.len() <= m.mono_export_count
        }),
{
}

// ---------------------------------------------------------------------------
// Exports in memory
// ---------------------------------------------------------------------------
/// What is being read of a module in memory.
#[derive(Clone, Copy, Debug, PartialEq, Eq, Structural)]
pub enum Part {
    /// The first header.
    Dos,
    /// The second header, at an offset.
    Nt(u32),
    /// The kind of the optional header at an address.
    Magic(u64),
    /// The entry for exports.
    Directory,
    /// The export directory.
    Exports,
    /// The list of the addresses of names.
    Names,
    /// The name with an index in that list.
    Name(usize),
    /// Nothing more.
    Over,
}

/// What is to be read next.
#[derive(Debug)]
pub enum Read {
    /// Bytes at an address.
    Bytes { addr: u64, len: usize },
    /// All is read: the names.
    Done(Vec<String>),
}

/// The value of a `Read`.
pub enum ReadModel {
    Bytes { addr: u64, len: int },
    Done(Seq<Seq<char>>),
}

impl Read {
    /// The value of what is to be read.
    pub open spec fn model(self) -> ReadModel {
        match self {
            Read::Bytes { addr, len } => ReadModel::Bytes { addr, len: len as int },
            Read::Done(names) => ReadModel::Done(text::texts(names@)),
        }
    }
}

/// A reader of the names that a module in memory exports.
#[derive(Debug)]
pub struct ExportReader {
    pub base: u64,
    pub part: Part,
    /// The addresses of the names.
    pub rvas: Vec<u32>,
    pub names: Vec<String>,
}

/// The value of an `ExportReader`.
#[verifier::ext_equal]
pub struct ReaderModel {
    pub base: u64,
    pub part: Part,
    pub rvas: Seq<u32>,
    pub names: Seq<Seq<char>>,
}

/// An address and an offset, modulo 2^64.
pub open spec fn at(base: u64, off: int) -> u64 {
    ((base + off) % 0x1_0000_0000_0000_0000) as u64
}

/// Computes `at`.
fn address(base: u64, off: u64) -> (r: u64)
    ensures
        r == at(base, off as int),
{
    base.wrapping_add(off)
}

/// The reader at its end.
pub open spec fn ended(r: ReaderModel) -> (ReaderModel, ReadModel) {
    (
        ReaderModel { part: Part::Over, names: Seq::empty(), ..r },
        ReadModel::Done(r.names),
    )
}

/// The reader at a part that it asks for.
pub open spec fn asking(r: ReaderModel, part: Part, addr: u64, len: int) -> (
    ReaderModel,
    ReadModel,
) {
    (ReaderModel { part, ..r }, ReadModel::Bytes { addr, len })
}

/// The reader at the next name from an index on; an address of zero is none.
pub open spec fn next_name(r: ReaderModel, i: int) -> (ReaderModel, ReadModel)
    decreases r.rvas.len() - i,
{
    if i < 0 || i >= r.rvas.len() {
        ended(r)
    } else if r.rvas[i] == 0 {
        next_name(r, i + 1)
    } else {
        asking(r, Part::Name(i as usize), at(r.base, r.rvas[i] as int), 128)
    }
}

/// The numbers of four bytes each, as many as are whole.
pub open spec fn words(b: Seq<u8>) -> Seq<u32>
    decreases b.len(),
{
    if b.len() < 4 {
        Seq::empty()
    } else {
        seq![bytes::le_value(b.take(4)) as u32] + words(b.skip(4))
    }
}

/// A number of `k` bytes in what was read.
pub open spec fn field(b: Seq<u8>, off: int, k: int) -> int {
    bytes::le_value(b.subrange(off, off + k))
}

/// The reader after some bytes were read. What was not read, or not whole,
/// ends it, but a name or a list of names may be cut short.
pub open spec fn took(r: ReaderModel, b: Option<Seq<u8>>) -> (ReaderModel, ReadModel) {
    let got = match b {
        Some(x) => x,
        None => Seq::empty(),
    };
    match r.part {
        Part::Dos => if got.len() < 0x40 || got[0] != 0x4D || got[1] != 0x5A {
            ended(r)
        } else {
            let off = field(got, 0x3C, 4);
            asking(r, Part::Nt(off as u32), at(r.base, off), 0x18)
        },
        Part::Nt(off) => if got.len() < 0x18 || field(got, 0, 4) != 0x4550 {
            ended(r)
        } else {
            let opt = at(r.base, off + 24);
            asking(r, Part::Magic(opt), opt, 2)
        },
        Part::Magic(opt) => if got.len() < 2 {
            ended(r)
        } else {
            let off = if field(got, 0, 2) == 0x20B {
                112
            } else {
                96
            };
            asking(r, Part::Directory, at(opt, off), 8)
        },
        Part::Directory => if got.len() < 4 || field(got, 0, 4) == 0 {
            ended(r)
        } else {
            asking(r, Part::Exports, at(r.base, field(got, 0, 4)), 40)
        },
        Part::Exports => if got.len() < 0x24 || field(got, 0x18, 4) == 0 || field(got, 0x20, 4)
            == 0 {
            ended(r)
        } else {
            let n = field(got, 0x18, 4);
            let count = if n > 20000 {
                20000
            } else {
                n
            };
            asking(r, Part::Names, at(r.base, field(got, 0x20, 4)), count * 4)
        },
        Part::Names => next_name(ReaderModel { rvas: words(got), ..r }, 0),
        Part::Name(i) => {
            let text = pe::before_zero(got);
            let names = if text.len() == 0 {
                r.names
            } else {
                r.names.push(bytes::utf8_text(text))
            };
            next_name(ReaderModel { names, ..r }, i + 1)
        },
        Part::Over => ended(r),
    }
}

/// Reads a number of `k` bytes in what was read.
fn number_at(b: &[u8], off: usize, k: usize) -> (r: u64)
    requires
        off + k <= b@.len(),
        k <= 4,
    ensures
        r == field(b@, off as int, k as int),
        r <= u32::MAX,
        k == 2 ==> r <= u16::MAX,
{
    let n: usize = b.len();
    assert(off + k <= n);
    let part: &[u8] = vstd::slice::slice_subrange(b, off, off + k);
    proof {
        bytes::lemma_le_value_bound(part@);
        bytes::lemma_256_to_8();
        vstd::arithmetic::power::lemma_pow_increases(256, k as nat, 4);
    }
    bytes::read_le(part)
}

/// Reads the numbers of four bytes each.
fn read_words(b: &[u8]) -> (r: Vec<u32>)
    ensures
        r@ == words(b@),
{
    let n: usize = b.len();
    let mut out: Vec<u32> = Vec::new();
    let mut i: usize = 0;
    proof {
        assert(b@.skip(0) =~= b@);
        assert(out@ + words(b@.skip(0)) =~= words(b@));
    }
    while n - i >= 4
        invariant
            n == b@.len(),
            i <= n,
            out@ + words(b@.skip(i as int)) == words(b@),
        decreases n - i,
    {
        let v: u64 = number_at(b, i, 4);
        let ghost before = out@;
        let ghost rest = b@.skip(i as int);
        out.push(v as u32);
        proof {
            assert(rest.take(4) =~= b@.subrange(i as int, i + 4));
            assert(rest.skip(4) =~= b@.skip(i + 4));
            assert(out@ + words(b@.skip(i + 4)) =~= before + words(rest));
        }
        i = i + 4;
    }
    proof {
        assert(words(b@.skip(i as int)) =~= Seq::<u32>::empty());
        assert(out@ + Seq::<u32>::empty() =~= out@);
    }
    out
}

impl ExportReader {
    /// The value of the reader.
    pub open spec fn model(self) -> ReaderModel {
        ReaderModel {
            base: self.base,
            part: self.part,
            rvas: self.rvas@,
            names: text::texts(self.names@),
        }
    }

    /// A reader of the module at an address, and what it asks for first.
    pub fn begin(base: u64) -> (r: (ExportReader, Read))
        ensures
            (r.0.model(), r.1.model()) == asking(
                ReaderModel {
                    base,
                    part: Part::Over,
                    rvas: Seq::empty(),
                    names: Seq::empty(),
                },
                Part::Dos,
                base,
                0x40,
            ),
    {
        let r: ExportReader = ExportReader {
            base,
            part: Part::Dos,
            rvas: Vec::new(),
            names: Vec::new(),
        };
        proof {
            assert(r.model().names =~= Seq::<Seq<char>>::empty());
        }
        (r, Read::Bytes { addr: base, len: 0x40 })
    }

    /// Ends the reading.
    fn finish(&mut self) -> (a: Read)
        ensures
            (final(self).model(), a.model()) == ended(old(self).model()),
    {
        let mut names: Vec<String> = Vec::new();
        std::mem::swap(&mut names, &mut self.names);
        self.part = Part::Over;
        proof {
            assert(self.model().names =~= Seq::<Seq<char>>::empty());
        }
        Read::Done(names)
    }

    /// Asks for the next name.
    fn next(&mut self, from: usize) -> (a: Read)
        ensures
            (final(self).model(), a.model()) == next_name(old(self).model(), from as int),
    {
        let ghost start = self.model();
        let n: usize = self.rvas.len();
        let mut i: usize = from;
        while i < n
            invariant
                n == self.rvas@.len(),
                self.model() == start,
                start == old(self).model(),
                next_name(start, i as int) == next_name(start, from as int),
            decreases n - i,
        {
            let rva: u32 = self.rvas[i];
            if rva != 0 {
                self.part = Part::Name(i);
                return Read::Bytes { addr: address(self.base, rva as u64), len: 128 };
            }
            i = i + 1;
        }
        self.finish()
    }

    /// Takes in what was read, and says what to read next.
    pub fn take(&mut self, read: Option<Vec<u8>>) -> (a: Read)
        ensures
            (final(self).model(), a.model()) == took(
                old(self).model(),
                match read {
                    Some(b) => Some(b@),
                    None => None,
                },
            ),
    {
        let got: Vec<u8> = match read {
            Some(b) => b,
            None => Vec::new(),
        };
        match self.part {
            Part::Dos => {
                if got.len() < 0x40 || got[0] != 0x4D || got[1] != 0x5A {
                    return self.finish();
                }
                let off: u32 = number_at(&got, 0x3C, 4) as u32;
                self.part = Part::Nt(off);
                Read::Bytes { addr: address(self.base, off as u64), len: 0x18 }
            },
            Part::Nt(off) => {
                if got.len() < 0x18 || number_at(&got, 0, 4) != 0x4550 {
                    return self.finish();
                }
                let opt: u64 = address(self.base, off as u64 + 24);
                self.part = Part::Magic(opt);
                Read::Bytes { addr: opt, len: 2 }
            },
            Part::Magic(opt) => {
                if got.len() < 2 {
                    return self.finish();
                }
                let off: u64 = if number_at(&got, 0, 2) == 0x20B {
                    112
                } else {
                    96
                };
                self.part = Part::Directory;
                Read::Bytes { addr: address(opt, off), len: 8 }
            },
            Part::Directory => {
                if got.len() < 4 || number_at(&got, 0, 4) == 0 {
                    return self.finish();
                }
                let rva: u64 = number_at(&got, 0, 4);
                self.part = Part::Exports;
                Read::Bytes { addr: address(self.base, rva), len: 40 }
            },
            Part::Exports => {
                if got.len() < 0x24 || number_at(&got, 0x18, 4) == 0 || number_at(&got, 0x20, 4)
                    == 0 {
                    return self.finish();
                }
                let n: u64 = number_at(&got, 0x18, 4);
                let count: usize = if n > 20000 {
                    20000
                } else {
                    n as usize
                };
                let rva: u64 = number_at(&got, 0x20, 4);
                self.part = Part::Names;
                Read::Bytes { addr: address(self.base, rva), len: count * 4 }
            },
            Part::Names => {
                self.rvas = read_words(&got);
                self.next(0)
            },
            Part::Name(i) => {
                let n: usize = pe::until_zero(&got);
                let head: &[u8] = vstd::slice::slice_subrange(&got, 0, n);
                proof {
                    assert(head@ =~= got@.take(n as int));
                }
                if n > 0 {
                    let name: String = bytes::utf8_string(head);
                    proof {
                        assert(text::texts(self.names@.push(name)) =~= text::texts(self.names@).push(
                            name@,
                        ));
                    }
                    self.names.push(name);
                }
                let from: usize = if i < self.rvas.len() {
                    i + 1
                } else {
                    i
                };
                self.next(from)
            },
            Part::Over => self.finish(),
        }
    }
}

/// How far a reading has come.
pub open spec fn progress(p: Part) -> int {
    match p {
        Part::Dos => 0,
        Part::Nt(_) => 1,
        Part::Magic(_) => 2,
        Part::Directory => 3,
        Part::Exports => 4,
        Part::Names => 5,
        Part::Name(i) => 6 + i,
        Part::Over => -1,
    }
}

/// A reading comes further with every answer, so that it ends: after what lies
/// before the names it asks once for each of them at most.
pub proof fn lemma_reading_ends(r: ReaderModel, read: Option<Seq<u8>>)
    requires
        r.rvas.len() <= usize::MAX,
        read matches Some(b) ==> b.len() <= usize::MAX,
    ensures
        match took(r, read).1 {
            ReadModel::Done(_) => took(r, read).0.part == Part::Over,
            ReadModel::Bytes { .. } => {
                &&& progress(took(r, read).0.part) > progress(r.part)
                &&& took(r, read).0.part matches Part::Name(i) ==> i < took(r, read).0.rvas.len()
            },
        },
{
    let got = match read {
        Some(b) => b,
        None => Seq::empty(),
    };
    match r.part {
        Part::Names => {
            lemma_words_len(got);
            lemma_next_name(ReaderModel { rvas: words(got), ..r }, 0);
        },
        Part::Name(i) => {
            let text = pe::before_zero(got);
            let names = if text.len() == 0 {
                r.names
            } else {
                r.names.push(bytes::utf8_text(text))
            };
            lemma_next_name(ReaderModel { names, ..r }, i + 1);
        },
        _ => {},
    }
}

proof fn lemma_words_len(b: Seq<u8>)
    ensures
        words(b).len() <= b.len(),
    decreases b.len(),
{
    if b.len() >= 4 {
        lemma_words_len(b.skip(4));
    }
}

proof fn lemma_next_name(r: ReaderModel, i: int)
    requires
        0 <= i,
        r.rvas.len() <= usize::MAX,
    ensures
        match next_name(r, i).1 {
            ReadModel::Done(_) => next_name(r, i).0.part == Part::Over,
            ReadModel::Bytes { .. } => next_name(r, i).0.rvas == r.rvas && (next_name(
                r,
                i,
            ).0.part matches Part::Name(j) && i <= j < r.rvas.len()),
        },
    decreases r.rvas.len() - i,
{
    if 0 <= i < r.rvas.len() && r.rvas[i] == 0 {
        lemma_next_name(r, i + 1);
    }
}

} // verus!
