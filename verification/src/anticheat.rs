//! Detection of anticheat software from three signs: drivers in the kernel,
//! modules in the process and the name of the executable.
use crate::bytes;
use crate::target::ModuleInfo;
use crate::text;
use vstd::prelude::*;

verus! {

/// How a process is protected.
#[derive(Debug, PartialEq, Eq)]
pub enum Protection {
    /// By an anticheat in the kernel: injection is blocked.
    KernelAc(String),
    /// By an anticheat in user mode: injection needs confirmation.
    UsermodeAc(String),
    /// By nothing known.
    Unprotected,
}

/// The value of a `Protection`.
pub enum ProtectionModel {
    KernelAc(Seq<char>),
    UsermodeAc(Seq<char>),
    Unprotected,
}

impl Protection {
    /// The value of the protection.
    pub open spec fn model(self) -> ProtectionModel {
        match self {
            Protection::KernelAc(n) => ProtectionModel::KernelAc(n@),
            Protection::UsermodeAc(n) => ProtectionModel::UsermodeAc(n@),
            Protection::Unprotected => ProtectionModel::Unprotected,
        }
    }

    /// Whether injection is blocked.
    pub fn blocks_injection(&self) -> (r: bool)
        ensures
            r == (self.model() is KernelAc),
    {
        match self {
            Protection::KernelAc(_) => true,
            _ => false,
        }
    }

    /// The name of the anticheat, if there is one.
    pub fn ac_name(&self) -> (r: Option<&str>)
        ensures
            match self.model() {
                ProtectionModel::KernelAc(n) => r is Some && r->0@ == n,
                ProtectionModel::UsermodeAc(n) => r is Some && r->0@ == n,
                ProtectionModel::Unprotected => r is None,
            },
    {
        match self {
            Protection::KernelAc(n) => Some(n.as_str()),
            Protection::UsermodeAc(n) => Some(n.as_str()),
            Protection::Unprotected => None,
        }
    }
}

/// How a process is protected, and why that is assumed.
#[derive(Debug)]
pub struct Detection {
    pub protection: Protection,
    pub reasons: Vec<String>,
}

/// The value of a `Detection`.
pub struct DetectionModel {
    pub protection: ProtectionModel,
    pub reasons: Seq<Seq<char>>,
}

impl Detection {
    /// The value of the detection.
    pub open spec fn model(self) -> DetectionModel {
        DetectionModel {
            protection: self.protection.model(),
            reasons: text::texts(self.reasons@),
        }
    }
}

/// The first known driver among those in the kernel, and its product.
pub open spec fn known_driver(drivers: Seq<Seq<char>>) -> Option<(Seq<char>, Seq<char>)> {
    if drivers.contains("vgk.sys"@) {
        Some(("vgk.sys"@, "Riot Vanguard"@))
    } else if drivers.contains("easyanticheat.sys"@) {
        Some(("easyanticheat.sys"@, "Easy Anti-Cheat"@))
    } else if drivers.contains("easyanticheat_eos.sys"@) {
        Some(("easyanticheat_eos.sys"@, "Easy Anti-Cheat (EOS)"@))
    } else if drivers.contains("bedaisy.sys"@) {
        Some(("bedaisy.sys"@, "BattlEye"@))
    } else if drivers.contains("faceit.sys"@) {
        Some(("faceit.sys"@, "FACEIT AC"@))
    } else if drivers.contains("mhyprot2.sys"@) {
        Some(("mhyprot2.sys"@, "miHoYo Protect"@))
    } else if drivers.contains("mhyprot3.sys"@) {
        Some(("mhyprot3.sys"@, "miHoYo Protect"@))
    } else if drivers.contains("ntiolib.sys"@) {
        Some(("ntiolib.sys"@, "nProtect GameGuard"@))
    } else if drivers.contains("aksdf.sys"@) {
        Some(("aksdf.sys"@, "nProtect GameGuard"@))
    } else {
        None
    }
}

/// The game that is known to use a kernel anticheat, and its product.
pub open spec fn known_game(exe: Seq<char>) -> Option<(Seq<char>, Seq<char>)> {
    if exe == "valorant-win64-shipping.exe"@ {
        Some(("valorant-win64-shipping.exe"@, "Riot Vanguard"@))
    } else if exe == "league of legends.exe"@ {
        Some(("league of legends.exe"@, "Riot Vanguard"@))
    } else if exe == "fortniteclient-win64-shipping.exe"@ {
        Some(("fortniteclient-win64-shipping.exe"@, "Easy Anti-Cheat / BattlEye"@))
    } else if exe == "r5apex.exe"@ {
        Some(("r5apex.exe"@, "Easy Anti-Cheat"@))
    } else if exe == "rainbowsix.exe"@ {
        Some(("rainbowsix.exe"@, "BattlEye"@))
    } else if exe == "destiny2.exe"@ {
        Some(("destiny2.exe"@, "BattlEye"@))
    } else if exe == "genshinimpact.exe"@ {
        Some(("genshinimpact.exe"@, "miHoYo Protect"@))
    } else {
        None
    }
}

/// The product whose module has a name, in lower case.
pub open spec fn known_module(name: Seq<char>) -> Option<Seq<char>> {
    if text::position(name, "easyanticheat.dll"@) is Some {
        Some("Easy Anti-Cheat"@)
    } else if text::position(name, "easyanticheat_x64.dll"@) is Some {
        Some("Easy Anti-Cheat"@)
    } else if text::position(name, "beclient.dll"@) is Some {
        Some("BattlEye"@)
    } else if text::position(name, "beclient_x64.dll"@) is Some {
        Some("BattlEye"@)
    } else if text::position(name, "gameguard"@) is Some {
        Some("nProtect GameGuard"@)
    } else {
        None
    }
}

/// The first known module of a process, and its product.
pub open spec fn first_module(modules: Seq<ModuleInfo>) -> Option<(Seq<char>, Seq<char>)>
    decreases modules.len(),
{
    if modules.len() == 0 {
        None
    } else {
        match known_module(text::lowered(modules[0].name@)) {
            Some(product) => Some((modules[0].name@, product)),
            None => first_module(modules.skip(1)),
        }
    }
}

/// How a process is protected: a driver in the kernel decides, then the name of
/// the executable, then the modules of the process.
pub open spec fn detected(
    exe: Seq<char>,
    modules: Seq<ModuleInfo>,
    drivers: Seq<Seq<char>>,
) -> DetectionModel {
    match known_driver(drivers) {
        Some((sig, product)) => DetectionModel {
            protection: ProtectionModel::KernelAc(product),
            reasons: seq!["driver kernel '"@ + sig + "' presente"@],
        },
        None => match known_game(text::lowered(exe)) {
            Some((game, product)) => DetectionModel {
                protection: ProtectionModel::KernelAc(product),
                reasons: seq![
                    "executavel '"@ + game
                        + "' usa AC kernel conhecido (driver ainda nao detectado)"@,
                ],
            },
            None => match first_module(modules) {
                Some((name, product)) => DetectionModel {
                    protection: ProtectionModel::UsermodeAc(product),
                    reasons: seq!["modulo '"@ + name + "' carregado no processo"@],
                },
                None => DetectionModel {
                    protection: ProtectionModel::Unprotected,
                    reasons: Seq::empty(),
                },
            },
        },
    }
}

/// Looks for a driver.
fn has_driver(drivers: &Vec<String>, sig: &str) -> (r: bool)
    ensures
        r == text::texts(drivers@).contains(sig@),
{
    for i in 0..drivers.len()
        invariant
            forall|j: int| 0 <= j < i ==> #[trigger] text::texts(drivers@)[j] != sig@,
    {
        assert(text::texts(drivers@)[i as int] == drivers@[i as int]@);
        if text::same_str(drivers[i].as_str(), sig) {
            return true;
        }
    }
    false
}

/// The value of a pair of texts.
pub open spec fn pair_view(p: Option<(&'static str, &'static str)>) -> Option<
    (Seq<char>, Seq<char>),
> {
    match p {
        Some((a, b)) => Some((a@, b@)),
        None => None,
    }
}

/// Finds the first known driver.
fn kernel_driver(drivers: &Vec<String>) -> (r: Option<(&'static str, &'static str)>)
    ensures
        pair_view(r) == known_driver(text::texts(drivers@)),
{
    if has_driver(drivers, "vgk.sys") {
        Some(("vgk.sys", "Riot Vanguard"))
    } else if has_driver(drivers, "easyanticheat.sys") {
        Some(("easyanticheat.sys", "Easy Anti-Cheat"))
    } else if has_driver(drivers, "easyanticheat_eos.sys") {
        Some(("easyanticheat_eos.sys", "Easy Anti-Cheat (EOS)"))
    } else if has_driver(drivers, "bedaisy.sys") {
        Some(("bedaisy.sys", "BattlEye"))
    } else if has_driver(drivers, "faceit.sys") {
        Some(("faceit.sys", "FACEIT AC"))
    } else if has_driver(drivers, "mhyprot2.sys") {
        Some(("mhyprot2.sys", "miHoYo Protect"))
    } else if has_driver(drivers, "mhyprot3.sys") {
        Some(("mhyprot3.sys", "miHoYo Protect"))
    } else if has_driver(drivers, "ntiolib.sys") {
        Some(("ntiolib.sys", "nProtect GameGuard"))
    } else if has_driver(drivers, "aksdf.sys") {
        Some(("aksdf.sys", "nProtect GameGuard"))
    } else {
        None
    }
}

/// Finds the game that an executable is.
fn game(exe: &[char]) -> (r: Option<(&'static str, &'static str)>)
    ensures
        pair_view(r) == known_game(exe@),
{
    if text::is_text(exe, "valorant-win64-shipping.exe") {
        Some(("valorant-win64-shipping.exe", "Riot Vanguard"))
    } else if text::is_text(exe, "league of legends.exe") {
        Some(("league of legends.exe", "Riot Vanguard"))
    } else if text::is_text(exe, "fortniteclient-win64-shipping.exe") {
        Some(("fortniteclient-win64-shipping.exe", "Easy Anti-Cheat / BattlEye"))
    } else if text::is_text(exe, "r5apex.exe") {
        Some(("r5apex.exe", "Easy Anti-Cheat"))
    } else if text::is_text(exe, "rainbowsix.exe") {
        Some(("rainbowsix.exe", "BattlEye"))
    } else if text::is_text(exe, "destiny2.exe") {
        Some(("destiny2.exe", "BattlEye"))
    } else if text::is_text(exe, "genshinimpact.exe") {
        Some(("genshinimpact.exe", "miHoYo Protect"))
    } else {
        None
    }
}

/// Looks for a text in another one.
fn has(name: &[char], sig: &str) -> (r: bool)
    ensures
        r == (text::position(name@, sig@) is Some),
{
    text::find_text(name, &text::chars_of(sig)).is_some()
}

/// Finds the product of a module.
fn module_product(name: &[char]) -> (r: Option<&'static str>)
    ensures
        match r {
            Some(p) => known_module(name@) == Some(p@),
            None => known_module(name@) is None,
        },
{
    if has(name, "easyanticheat.dll") {
        Some("Easy Anti-Cheat")
    } else if has(name, "easyanticheat_x64.dll") {
        Some("Easy Anti-Cheat")
    } else if has(name, "beclient.dll") {
        Some("BattlEye")
    } else if has(name, "beclient_x64.dll") {
        Some("BattlEye")
    } else if has(name, "gameguard") {
        Some("nProtect GameGuard")
    } else {
        None
    }
}

/// Finds the first known module.
fn usermode_module(modules: &Vec<ModuleInfo>) -> (r: Option<(usize, &'static str)>)
    ensures
        match r {
            Some((i, p)) => i < modules@.len() && first_module(modules@) == Some(
                (modules@[i as int].name@, p@),
            ),
            None => first_module(modules@) is None,
        },
{
    let n: usize = modules.len();
    let mut i: usize = 0;
    proof {
        assert(modules@.skip(0) =~= modules@);
    }
    while i < n
        invariant
            n == modules@.len(),
            i <= n,
            first_module(modules@.skip(i as int)) == first_module(modules@),
        decreases n - i,
    {
        proof {
            assert(modules@.skip(i as int).skip(1) =~= modules@.skip(i + 1));
        }
        let low: Vec<char> = text::lowercase(&text::chars_of(modules[i].name.as_str()));
        match module_product(&low) {
            Some(p) => {
                return Some((i, p));
            },
            None => {},
        }
        i = i + 1;
    }
    None
}

/// Makes a detection with one reason.
fn conclude(protection: Protection, head: &str, name: &str, tail: &str) -> (r: Detection)
    ensures
        r.model().protection == protection.model(),
        r.model().reasons == seq![head@ + name@ + tail@],
{
    let mut reason: String = head.to_owned();
    reason.append(name);
    reason.append(tail);
    let mut reasons: Vec<String> = Vec::new();
    reasons.push(reason);
    proof {
        assert(text::texts(reasons@) =~= seq![head@ + name@ + tail@]);
    }
    Detection { protection, reasons }
}

/// Says how a process is protected, given the name of its executable, its
/// modules and the names of the drivers in the kernel, in lower case.
pub fn detect(exe_name: &str, modules: &Vec<ModuleInfo>, drivers: &Vec<String>) -> (r: Detection)
    ensures
        r.model() == detected(exe_name@, modules@, text::texts(drivers@)),
{
    match kernel_driver(drivers) {
        Some((sig, product)) => {
            return conclude(
                Protection::KernelAc(product.to_owned()),
                "driver kernel '",
                sig,
                "' presente",
            );
        },
        None => {},
    }
    let exe: Vec<char> = text::lowercase(&text::chars_of(exe_name));
    match game(&exe) {
        Some((name, product)) => {
            return conclude(
                Protection::KernelAc(product.to_owned()),
                "executavel '",
                name,
                "' usa AC kernel conhecido (driver ainda nao detectado)",
            );
        },
        None => {},
    }
    match usermode_module(modules) {
        Some((i, product)) => conclude(
            Protection::UsermodeAc(product.to_owned()),
            "modulo '",
            modules[i].name.as_str(),
            "' carregado no processo",
        ),
        None => {
            let r: Detection = Detection {
                protection: Protection::Unprotected,
                reasons: Vec::new(),
            };
            proof {
                assert(r.model().reasons =~= Seq::<Seq<char>>::empty());
            }
            r
        },
    }
}

/// Decodes the name of a driver, in lower case.
pub fn driver_name(units: &[u16]) -> (r: String)
    ensures
        r@ == text::lowered(bytes::utf16_text(units@)),
{
    let name: String = bytes::utf16_string(units);
    text::string_of(&text::lowercase(&text::chars_of(name.as_str())))
}

/// Injection is blocked exactly where a known driver is in the kernel or the
/// executable is known to use one, whatever the modules are.
pub proof fn lemma_blocked(exe: Seq<char>, modules: Seq<ModuleInfo>, drivers: Seq<Seq<char>>)
    ensures
        detected(exe, modules, drivers).protection is KernelAc <==> (known_driver(drivers) is Some
            || known_game(text::lowered(exe)) is Some),
{
}

/// A process counts as unprotected exactly where none of the three signs is
/// there; every other detection gives one reason.
pub proof fn lemma_unprotected(exe: Seq<char>, modules: Seq<ModuleInfo>, drivers: Seq<Seq<char>>)
    ensures
        detected(exe, modules, drivers).protection is Unprotected <==> known_driver(drivers) is None
            && known_game(text::lowered(exe)) is None && first_module(modules) is None,
        detected(exe, modules, drivers).reasons.len() == (if detected(
            exe,
            modules,
            drivers,
        ).protection is Unprotected {
            0int
        } else {
            1
        }),
{
}

/// The driver of Vanguard is decisive: while it is in the kernel, no other sign
/// changes the result.
pub proof fn lemma_vanguard_first(
    exe: Seq<char>,
    modules: Seq<ModuleInfo>,
    drivers: Seq<Seq<char>>,
)
    requires
        drivers.contains("vgk.sys"@),
    ensures
        detected(exe, modules, drivers).protection == ProtectionModel::KernelAc(
            "Riot Vanguard"@,
        ),
{
}

} // verus!
