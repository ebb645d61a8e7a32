//! What is known of a target process: its modules and its memory regions.
use crate::text;
use vstd::prelude::*;

verus! {

/// A loaded module.
#[derive(Debug)]
pub struct ModuleInfo {
    pub name: String,
    pub base: u64,
    pub size: u32,
}

/// The value of a `ModuleInfo`.
#[verifier::ext_equal]
pub struct ModuleModel {
    pub name: Seq<char>,
    pub base: u64,
    pub size: u32,
}

impl ModuleInfo {
    /// The value of the module.
    pub open spec fn model(self) -> ModuleModel {
        ModuleModel { name: self.name@, base: self.base, size: self.size }
    }

    /// A copy of the module.
    pub fn copy(&self) -> (r: ModuleInfo)
        ensures
            r.model() == self.model(),
    {
        ModuleInfo { name: self.name.clone(), base: self.base, size: self.size }
    }
}

/// A committed memory region.
#[derive(Clone, Copy, Debug)]
pub struct Region {
    pub base: u64,
    pub size: u64,
}

/// The index of the first module with a name, up to ASCII case.
pub open spec fn module_index(modules: Seq<ModuleInfo>, name: Seq<char>) -> Option<int>
    decreases modules.len(),
{
    if modules.len() == 0 {
        None
    } else {
        match module_index(modules.drop_last(), name) {
            Some(i) => Some(i),
            None => if text::same_ignoring_case(modules.last().name@, name) {
                Some(modules.len() - 1)
            } else {
                None
            },
        }
    }
}

/// The address behind a module.
pub open spec fn module_end(m: ModuleInfo) -> u64 {
    ((m.base + m.size) % 0x1_0000_0000_0000_0000) as u64
}

/// Computes `module_end`.
pub fn end_of(m: &ModuleInfo) -> (r: u64)
    ensures
        r == module_end(*m),
{
    m.base.wrapping_add(m.size as u64)
}

/// Finds the first module with a name, up to ASCII case.
pub fn find_module(modules: &Vec<ModuleInfo>, name: &str) -> (r: Option<usize>)
    ensures
        match r {
            Some(i) => module_index(modules@, name@) == Some(i as int) && i < modules@.len(),
            None => module_index(modules@, name@) is None,
        },
{
    proof {
        assert(modules@.take(modules@.len() as int) =~= modules@);
    }
    for i in 0..modules.len()
        invariant
            module_index(modules@.take(i as int), name@) is None,
    {
        proof {
            assert(modules@.take(i + 1).drop_last() =~= modules@.take(i as int));
        }
        if text::same_str_any_case(modules[i].name.as_str(), name) {
            proof {
                lemma_module_index(modules@, i + 1, name@);
            }
            return Some(i);
        }
    }
    None
}

/// A module found among the first ones is the one found among all.
proof fn lemma_module_index(modules: Seq<ModuleInfo>, n: int, name: Seq<char>)
    requires
        0 <= n <= modules.len(),
        module_index(modules.take(n), name) is Some,
    ensures
        module_index(modules, name) == module_index(modules.take(n), name),
    decreases modules.len() - n,
{
    if n < modules.len() {
        assert(modules.take(n + 1).drop_last() =~= modules.take(n));
        lemma_module_index(modules, n + 1, name);
    } else {
        assert(modules.take(n) =~= modules);
    }
}

/// The regions that start within a range.
pub open spec fn starting_in(regions: Seq<Region>, base: u64, end: u64) -> Seq<Region> {
    regions.filter(|r: Region| base <= r.base < end)
}

/// Picks the regions that start within a range.
pub fn regions_in(regions: &Vec<Region>, base: u64, end: u64) -> (r: Vec<Region>)
    ensures
        r@ == starting_in(regions@, base, end),
{
    let mut out: Vec<Region> = Vec::new();
    reveal(Seq::filter);
    for i in 0..regions.len()
        invariant
            out@ == starting_in(regions@.take(i as int), base, end),
    {
        reveal(Seq::filter);
        proof {
            assert(regions@.take(i + 1).drop_last() =~= regions@.take(i as int));
        }
        if base <= regions[i].base && regions[i].base < end {
            out.push(regions[i]);
        }
    }
    proof {
        assert(regions@.take(regions@.len() as int) =~= regions@);
    }
    out
}

} // verus!
