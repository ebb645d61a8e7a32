//! Games: what protects them and what they are made with.
use crate::anticheat;
use crate::anticheat::ProtectionModel;
use crate::bytes;
use crate::laws::plain;
use crate::pe;
use crate::target;
use crate::target::ModuleInfo;
use crate::text;
use crate::unity;
use crate::unity::{Engine, Part, ReadModel, ReaderModel};
use vstd::prelude::*;

verus! {

/// Whether a text stands in another.
pub open spec fn holds(s: Seq<char>, pat: Seq<char>) -> bool {
    exists|i: int| #[trigger] stands_at(s, pat, i)
}

/// Whether a text stands in another at a place.
pub open spec fn stands_at(s: Seq<char>, pat: Seq<char>, i: int) -> bool {
    0 <= i && i + pat.len() <= s.len() && forall|j: int|
        0 <= j < pat.len() ==> s[i + j] == #[trigger] pat[j]
}

/// A text is found in another exactly if it stands there, at the first place.
pub proof fn lemma_position(s: Seq<char>, pat: Seq<char>)
    ensures
        match text::position(s, pat) {
            Some(i) => stands_at(s, pat, i) && forall|j: int| j < i ==> !#[trigger] stands_at(s, pat, j),
            None => !holds(s, pat),
        },
    decreases s.len(),
{
    if pat.len() > s.len() {
    } else if s.take(pat.len() as int) == pat {
        assert forall|j: int| 0 <= j < pat.len() implies s[0 + j] == #[trigger] pat[j] by {
            assert(s.take(pat.len() as int)[j] == pat[j]);
        }
        assert(stands_at(s, pat, 0));
    } else {
        assert(!stands_at(s, pat, 0)) by {
            if stands_at(s, pat, 0) {
                assert forall|j: int| 0 <= j < pat.len() implies s.take(pat.len() as int)[j] == pat[j] by {
                    assert(s[0 + j] == pat[j]);
                }
                assert(s.take(pat.len() as int) =~= pat);
            }
        }
        if s.len() > 0 {
            let t = s.skip(1);
            lemma_position(t, pat);
            assert forall|i: int| stands_at(s, pat, i) && i > 0 implies #[trigger] stands_at(
                t,
                pat,
                i - 1,
            ) by {
                assert forall|j: int| 0 <= j < pat.len() implies t[i - 1 + j] == #[trigger] pat[j] by {
                    assert(s[i + j] == pat[j]);
                }
            }
            if text::position(t, pat) is Some {
                let i = text::position(t, pat)->0;
                assert forall|j: int| 0 <= j < pat.len() implies s[i + 1 + j] == #[trigger] pat[j] by {
                    assert(t[i + j] == pat[j]);
                }
                assert(stands_at(s, pat, i + 1));
                assert forall|j: int| j < i + 1 implies !#[trigger] stands_at(s, pat, j) by {
                    if stands_at(s, pat, j) && j > 0 {
                        assert(stands_at(t, pat, j - 1));
                    }
                }
            } else {
                if holds(s, pat) {
                    let i = choose|i: int| #[trigger] stands_at(s, pat, i);
                    assert(stands_at(t, pat, i - 1));
                }
            }
        }
    }
}

/// The drivers of protections in the kernel.
pub open spec fn driver(k: int) -> (Seq<char>, Seq<char>) {
    if k == 0 {
        ("vgk.sys"@, "Riot Vanguard"@)
    } else if k == 1 {
        ("easyanticheat.sys"@, "Easy Anti-Cheat"@)
    } else if k == 2 {
        ("easyanticheat_eos.sys"@, "Easy Anti-Cheat (EOS)"@)
    } else if k == 3 {
        ("bedaisy.sys"@, "BattlEye"@)
    } else if k == 4 {
        ("faceit.sys"@, "FACEIT AC"@)
    } else if k == 5 {
        ("mhyprot2.sys"@, "miHoYo Protect"@)
    } else if k == 6 {
        ("mhyprot3.sys"@, "miHoYo Protect"@)
    } else if k == 7 {
        ("ntiolib.sys"@, "nProtect GameGuard"@)
    } else {
        ("aksdf.sys"@, "nProtect GameGuard"@)
    }
}

/// Whether none of the drivers before `k` is loaded.
pub open spec fn none_before(drivers: Seq<Seq<char>>, k: int) -> bool {
    forall|j: int| 0 <= j < k ==> !drivers.contains((#[trigger] driver(j)).0)
}

/// A driver of the list that is loaded means protection in the kernel by its product,
/// whatever else there is; the first of the list counts.
pub proof fn lemma_driver(
    exe: Seq<char>,
    modules: Seq<ModuleInfo>,
    drivers: Seq<Seq<char>>,
    k: int,
)
    requires
        0 <= k < 9,
        drivers.contains(driver(k).0),
        none_before(drivers, k),
    ensures
        ({
            let d = anticheat::detected(exe, modules, drivers);
            &&& d.protection == ProtectionModel::KernelAc(driver(k).1)
            &&& d.reasons.len() == 1
            &&& d.reasons[0] == "driver kernel '"@ + driver(k).0 + "' presente"@
        }),
{
    assert(k > 0 ==> !drivers.contains(driver(0).0));
    assert(k > 1 ==> !drivers.contains(driver(1).0));
    assert(k > 2 ==> !drivers.contains(driver(2).0));
    assert(k > 3 ==> !drivers.contains(driver(3).0));
    assert(k > 4 ==> !drivers.contains(driver(4).0));
    assert(k > 5 ==> !drivers.contains(driver(5).0));
    assert(k > 6 ==> !drivers.contains(driver(6).0));
    assert(k > 7 ==> !drivers.contains(driver(7).0));
}

/// The games that come with a protection in the kernel.
pub open spec fn game(k: int) -> (Seq<char>, Seq<char>) {
    if k == 0 {
        ("valorant-win64-shipping.exe"@, "Riot Vanguard"@)
    } else if k == 1 {
        ("league of legends.exe"@, "Riot Vanguard"@)
    } else if k == 2 {
        ("fortniteclient-win64-shipping.exe"@, "Easy Anti-Cheat / BattlEye"@)
    } else if k == 3 {
        ("r5apex.exe"@, "Easy Anti-Cheat"@)
    } else if k == 4 {
        ("rainbowsix.exe"@, "BattlEye"@)
    } else if k == 5 {
        ("destiny2.exe"@, "BattlEye"@)
    } else {
        ("genshinimpact.exe"@, "miHoYo Protect"@)
    }
}

proof fn lemma_games_differ(k: int)
    requires
        0 <= k < 7,
    ensures
        forall|j: int| 0 <= j < 7 && j != k ==> (#[trigger] game(j)).0 != game(k).0,
{
    reveal_strlit("valorant-win64-shipping.exe");
    reveal_strlit("league of legends.exe");
    reveal_strlit("fortniteclient-win64-shipping.exe");
    reveal_strlit("r5apex.exe");
    reveal_strlit("rainbowsix.exe");
    reveal_strlit("destiny2.exe");
    reveal_strlit("genshinimpact.exe");
    assert("valorant-win64-shipping.exe"@[0] == 'v');
    assert("league of legends.exe"@[0] == 'l');
    assert("fortniteclient-win64-shipping.exe"@[0] == 'f');
    assert("r5apex.exe"@[0] == 'r' && "r5apex.exe"@[1] == '5');
    assert("rainbowsix.exe"@[0] == 'r' && "rainbowsix.exe"@[1] == 'a');
    assert("destiny2.exe"@[0] == 'd');
    assert("genshinimpact.exe"@[0] == 'g');
}

/// Without such a driver, a game of the list means its protection, whatever the case of its
/// name and whatever modules it has loaded.
pub proof fn lemma_game(
    exe: Seq<char>,
    modules: Seq<ModuleInfo>,
    drivers: Seq<Seq<char>>,
    k: int,
)
    requires
        0 <= k < 7,
        text::lowered(exe) == game(k).0,
        none_before(drivers, 9),
    ensures
        anticheat::detected(exe, modules, drivers).protection == ProtectionModel::KernelAc(
            game(k).1,
        ),
{
    lemma_no_driver(drivers);
    lemma_games_differ(k);
    assert(k != 0 ==> game(0).0 != game(k).0);
    assert(k != 1 ==> game(1).0 != game(k).0);
    assert(k != 2 ==> game(2).0 != game(k).0);
    assert(k != 3 ==> game(3).0 != game(k).0);
    assert(k != 4 ==> game(4).0 != game(k).0);
    assert(k != 5 ==> game(5).0 != game(k).0);
}

proof fn lemma_no_driver(drivers: Seq<Seq<char>>)
    requires
        none_before(drivers, 9),
    ensures
        anticheat::known_driver(drivers) is None,
{
    assert(!drivers.contains(driver(0).0));
    assert(!drivers.contains(driver(1).0));
    assert(!drivers.contains(driver(2).0));
    assert(!drivers.contains(driver(3).0));
    assert(!drivers.contains(driver(4).0));
    assert(!drivers.contains(driver(5).0));
    assert(!drivers.contains(driver(6).0));
    assert(!drivers.contains(driver(7).0));
    assert(!drivers.contains(driver(8).0));
}

/// The product whose module has a name: the libraries of Easy Anti-Cheat, of BattlEye and
/// of GameGuard.
pub open spec fn product_of(name: Seq<char>) -> Option<Seq<char>> {
    if holds(name, "easyanticheat.dll"@) || holds(name, "easyanticheat_x64.dll"@) {
        Some("Easy Anti-Cheat"@)
    } else if holds(name, "beclient.dll"@) || holds(name, "beclient_x64.dll"@) {
        Some("BattlEye"@)
    } else if holds(name, "gameguard"@) {
        Some("nProtect GameGuard"@)
    } else {
        None
    }
}

proof fn lemma_product(name: Seq<char>)
    ensures
        anticheat::known_module(name) == product_of(name),
{
    lemma_position(name, "easyanticheat.dll"@);
    lemma_position(name, "easyanticheat_x64.dll"@);
    lemma_position(name, "beclient.dll"@);
    lemma_position(name, "beclient_x64.dll"@);
    lemma_position(name, "gameguard"@);
}

/// Without such a driver and such a game, the first module of a product means protection in
/// user mode by it; without any of them there is none.
pub proof fn lemma_module(
    exe: Seq<char>,
    modules: Seq<ModuleInfo>,
    drivers: Seq<Seq<char>>,
    i: int,
)
    requires
        none_before(drivers, 9),
        forall|k: int| 0 <= k < 7 ==> text::lowered(exe) != (#[trigger] game(k)).0,
        0 <= i <= modules.len(),
        forall|j: int| 0 <= j < i ==> product_of(text::lowered((#[trigger] modules[j]).name@)) is None,
        i < modules.len() ==> product_of(text::lowered(modules[i].name@)) is Some,
    ensures
        anticheat::detected(exe, modules, drivers).protection == if i < modules.len() {
            ProtectionModel::UsermodeAc(product_of(text::lowered(modules[i].name@))->0)
        } else {
            ProtectionModel::Unprotected
        },
{
    lemma_no_driver(drivers);
    let low = text::lowered(exe);
    assert(low != game(0).0 && low != game(1).0 && low != game(2).0 && low != game(3).0 && low
        != game(4).0 && low != game(5).0 && low != game(6).0);
    lemma_first_module(modules, i);
}

proof fn lemma_first_module(modules: Seq<ModuleInfo>, i: int)
    requires
        0 <= i <= modules.len(),
        forall|j: int| 0 <= j < i ==> product_of(text::lowered((#[trigger] modules[j]).name@)) is None,
        i < modules.len() ==> product_of(text::lowered(modules[i].name@)) is Some,
    ensures
        anticheat::first_module(modules) == if i < modules.len() {
            Some((modules[i].name@, product_of(text::lowered(modules[i].name@))->0))
        } else {
            None
        },
    decreases i,
{
    if modules.len() > 0 {
        lemma_product(text::lowered(modules[0].name@));
    }
    if i > 0 {
        assert(product_of(text::lowered(modules[0].name@)) is None);
        let t = modules.skip(1);
        assert forall|j: int| 0 <= j < i - 1 implies product_of(
            text::lowered((#[trigger] t[j]).name@),
        ) is None by {
            assert(t[j] == modules[j + 1]);
        }
        lemma_first_module(t, i - 1);
    }
}

/// A library of Mono: `mono.dll`, a name that begins with `mono-2.0`, or one that begins
/// with `mono` and ends with `.dll`, whatever its case.
pub proof fn lemma_mono(name: Seq<char>, rest: Seq<char>)
    ensures
        text::ascii_lowered(name) == "mono.dll"@ ==> unity::is_mono(name),
        text::ascii_lowered(name) == "mono-2.0"@ + rest ==> unity::is_mono(name),
        text::ascii_lowered(name) == "mono"@ + rest + ".dll"@ ==> unity::is_mono(name),
        unity::is_mono(name) ==> stands_at(text::ascii_lowered(name), "mono"@, 0),
{
    reveal_strlit("mono.dll");
    reveal_strlit("mono-2.0");
    reveal_strlit("mono");
    reveal_strlit(".dll");
    let n = text::ascii_lowered(name);
    assert(("mono-2.0"@ + rest).take(8) =~= "mono-2.0"@);
    let m = "mono"@ + rest + ".dll"@;
    assert(m.take(4) =~= "mono"@);
    assert(m.skip(m.len() - 4) =~= ".dll"@);
    if unity::is_mono(name) {
        if n == "mono.dll"@ {
            assert(stands_at(n, "mono"@, 0));
        } else if unity::starts(n, "mono-2.0"@) {
            assert forall|j: int| 0 <= j < 4 implies n[0 + j] == #[trigger] "mono"@[j] by {
                assert(n.take(8)[j] == "mono-2.0"@[j]);
            }
        } else {
            assert forall|j: int| 0 <= j < 4 implies n[0 + j] == #[trigger] "mono"@[j] by {
                assert(n.take(4)[j] == "mono"@[j]);
            }
        }
    }
}

/// The engine follows from the modules: Mono before IL2CPP, which has a game assembly,
/// before Unity with its player alone.
pub proof fn lemma_engines(modules: Seq<ModuleInfo>, exports: Seq<Seq<char>>)
    ensures
        ({
            let e = unity::analysis(modules, exports).engine;
            let mono = exists|i: int| 0 <= i < modules.len() && unity::is_mono((#[trigger] modules[i]).name@);
            let assembly = target::module_index(modules, "GameAssembly.dll"@) is Some;
            let player = target::module_index(modules, "UnityPlayer.dll"@) is Some;
            &&& mono <==> e == Engine::Mono
            &&& !mono && assembly <==> e == Engine::Il2Cpp
            &&& !mono && !assembly && player <==> e == Engine::Unity
            &&& !mono && !assembly && !player <==> e == Engine::NotUnity
        }),
{
    lemma_mono_in(modules);
}

proof fn lemma_mono_in(modules: Seq<ModuleInfo>)
    ensures
        unity::mono_in(modules) is Some <==> exists|i: int|
            0 <= i < modules.len() && unity::is_mono((#[trigger] modules[i]).name@),
    decreases modules.len(),
{
    if modules.len() > 0 {
        let t = modules.skip(1);
        lemma_mono_in(t);
        if exists|i: int| 0 <= i < t.len() && unity::is_mono((#[trigger] t[i]).name@) {
            let i = choose|i: int| 0 <= i < t.len() && unity::is_mono((#[trigger] t[i]).name@);
            assert(modules[i + 1] == t[i]);
        }
        if exists|i: int| 0 <= i < modules.len() && unity::is_mono((#[trigger] modules[i]).name@) {
            let i = choose|i: int|
                0 <= i < modules.len() && unity::is_mono((#[trigger] modules[i]).name@);
            if i > 0 {
                assert(t[i - 1] == modules[i]);
            }
        }
    }
}

/// A module is found by its name, whatever its case; the first counts.
pub proof fn lemma_module_found(modules: Seq<ModuleInfo>, name: Seq<char>)
    ensures
        match target::module_index(modules, name) {
            Some(i) => {
                &&& 0 <= i < modules.len()
                &&& text::ascii_lowered(modules[i].name@) == text::ascii_lowered(name)
                &&& forall|j: int|
                    0 <= j < i ==> text::ascii_lowered((#[trigger] modules[j]).name@)
                        != text::ascii_lowered(name)
            },
            None => forall|j: int|
                0 <= j < modules.len() ==> text::ascii_lowered((#[trigger] modules[j]).name@)
                    != text::ascii_lowered(name),
        },
    decreases modules.len(),
{
    if modules.len() > 0 {
        lemma_module_found(modules.drop_last(), name);
        assert forall|j: int| 0 <= j < modules.len() - 1 implies modules.drop_last()[j]
            == #[trigger] modules[j] by {}
    }
}

/// Where the bytes stand that are read next: behind the base of the image.
pub open spec fn place(base: u64, off: int) -> int {
    (base + off) % 0x1_0000_0000_0000_0000
}

/// Whether the reader asks for bytes at a place.
pub open spec fn asks(r: (ReaderModel, ReadModel), addr: int, len: int) -> bool {
    r.1 matches ReadModel::Bytes { addr: a, len: n } && a == addr && n == len
}

/// The exports of a loaded image are found through its headers: at 0x3C the offset of the
/// second one, 24 bytes behind it the kind, 112 bytes behind that (96 for 32 bits) the
/// address of the export directory, there at 24 how many names there are and at 32 where.
pub proof fn lemma_export_walk(r: ReaderModel, b: Seq<u8>, off: u32, opt: u64)
    ensures
        b.len() >= 64 && b[0] == 0x4D && b[1] == 0x5A ==> asks(
            unity::took(ReaderModel { part: Part::Dos, ..r }, Some(b)),
            place(r.base, plain::four(b, 60)),
            24,
        ),
        b.len() >= 24 && b[0] == 0x50 && b[1] == 0x45 && b[2] == 0 && b[3] == 0 ==> asks(
            unity::took(ReaderModel { part: Part::Nt(off), ..r }, Some(b)),
            place(r.base, off + 24),
            2,
        ),
        b.len() >= 2 ==> asks(
            unity::took(ReaderModel { part: Part::Magic(opt), ..r }, Some(b)),
            place(opt, if b[0] == 0x0B && b[1] == 2 {
                112
            } else {
                96
            }),
            8,
        ),
        b.len() >= 4 && plain::four(b, 0) != 0 ==> asks(
            unity::took(ReaderModel { part: Part::Directory, ..r }, Some(b)),
            place(r.base, plain::four(b, 0)),
            40,
        ),
        b.len() >= 36 && plain::four(b, 24) != 0 && plain::four(b, 32) != 0 ==> asks(
            unity::took(ReaderModel { part: Part::Exports, ..r }, Some(b)),
            place(r.base, plain::four(b, 32)),
            4 * (if plain::four(b, 24) < 20000 {
                plain::four(b, 24)
            } else {
                20000
            }),
        ),
        unity::took(ReaderModel { part: Part::Dos, ..r }, None).1 == ReadModel::Done(r.names),
{
    if b.len() >= 2 {
        plain::lemma_le_value(b.subrange(0, 2));
    }
    if b.len() >= 4 {
        plain::lemma_le_value(b.subrange(0, 4));
    }
    if b.len() >= 36 {
        plain::lemma_le_value(b.subrange(24, 28));
        plain::lemma_le_value(b.subrange(32, 36));
    }
    if b.len() >= 64 {
        plain::lemma_le_value(b.subrange(60, 64));
    }
}

/// A list of addresses has four bytes for each.
pub proof fn lemma_address_list(b: Seq<u8>)
    ensures
        unity::words(b).len() == b.len() / 4,
        forall|i: int|
            0 <= i < b.len() / 4 ==> #[trigger] unity::words(b)[i] == plain::four(b, 4 * i),
    decreases b.len(),
{
    if b.len() >= 4 {
        plain::lemma_le_value(b.take(4));
        let t = b.skip(4);
        lemma_address_list(t);
        assert forall|i: int| 0 <= i < b.len() / 4 implies #[trigger] unity::words(b)[i]
            == plain::four(b, 4 * i) by {
            if i > 0 {
                assert(unity::words(b)[i] == unity::words(t)[i - 1]);
                assert(plain::four(t, 4 * (i - 1)) == plain::four(b, 4 * i));
            }
        }
    }
}

/// Each name is kept if it is not empty, and then the next is read; the last ends it.
pub proof fn lemma_name_read(r: ReaderModel, b: Seq<u8>, n: int)
    requires
        r.part matches Part::Name(i) && i + 1 == r.rvas.len(),
        0 <= n < b.len(),
        b[n] == 0,
        forall|j: int| 0 <= j < n ==> #[trigger] b[j] != 0,
    ensures
        unity::took(r, Some(b)).1 == ReadModel::Done(
            if n == 0 {
                r.names
            } else {
                r.names.push(bytes::utf8_text(b.take(n)))
            },
        ),
    decreases n,
{
    lemma_before_zero(b, n);
}

proof fn lemma_before_zero(s: Seq<u8>, n: int)
    requires
        0 <= n < s.len(),
        s[n] == 0,
        forall|j: int| 0 <= j < n ==> #[trigger] s[j] != 0,
    ensures
        pe::before_zero(s) == s.take(n),
    decreases n,
{
    if n > 0 {
        assert(s[0] != 0);
        let t = s.skip(1);
        assert forall|j: int| 0 <= j < n - 1 implies #[trigger] t[j] != 0 by {
            assert(t[j] == s[j + 1]);
        }
        lemma_before_zero(t, n - 1);
        assert(s.take(n) =~= seq![s[0]] + t.take(n - 1));
    } else {
        assert(s.take(0) =~= Seq::<u8>::empty());
    }
}

/// The functions of Mono are those whose names begin with `mono_`; sixty of them are shown.
pub proof fn lemma_mono_functions(names: Seq<Seq<char>>, n: int, t: Seq<char>)
    requires
        0 <= n <= names.len(),
    ensures
        unity::mono_names(names, n).contains(t) <==> exists|i: int|
            0 <= i < n && #[trigger] names[i] == t && stands_at(names[i], "mono_"@, 0),
        unity::sample(names).len() == if names.len() < 60 {
            names.len()
        } else {
            60
        },
        unity::sample(names) == names.take(unity::sample(names).len() as int),
    decreases n,
{
    assert(unity::sample(names) =~= names.take(unity::sample(names).len() as int));
    if n > 0 {
        lemma_mono_functions(names, n - 1, t);
        let before = unity::mono_names(names, n - 1);
        let all = unity::mono_names(names, n);
        lemma_starts(names[n - 1]);
        if unity::starts(names[n - 1], "mono_"@) {
            assert(all[before.len() as int] == names[n - 1]);
            if before.contains(t) {
                let i = before.index_of(t);
                assert(all[i] == t);
            }
        }
    } else {
        assert(!unity::mono_names(names, n).contains(t));
    }
}

proof fn lemma_starts(s: Seq<char>)
    ensures
        unity::starts(s, "mono_"@) <==> stands_at(s, "mono_"@, 0),
{
    reveal_strlit("mono_");
    if unity::starts(s, "mono_"@) {
        assert forall|j: int| 0 <= j < 5 implies s[0 + j] == #[trigger] "mono_"@[j] by {
            assert(s.take(5)[j] == "mono_"@[j]);
        }
    }
    if stands_at(s, "mono_"@, 0) {
        assert forall|j: int| 0 <= j < 5 implies s.take(5)[j] == "mono_"@[j] by {
            assert(s[0 + j] == "mono_"@[j]);
        }
        assert(s.take(5) =~= "mono_"@);
    }
}

/// The names of the engines.
pub proof fn lemma_engine_names()
    ensures
        unity::label_text(Engine::Mono) == "Unity (Mono)"@,
        unity::label_text(Engine::Il2Cpp) == "Unity (IL2CPP)"@,
        unity::label_text(Engine::Unity) == "Unity (backend desconhecido)"@,
        unity::label_text(Engine::NotUnity) == "Não-Unity"@,
{
}

} // verus!
