//! The processes of the system.
use crate::bytes;
use crate::order;
use crate::text;
use vstd::prelude::*;

verus! {

/// A process.
#[derive(Debug)]
pub struct ProcessInfo {
    pub pid: u32,
    pub name: String,
}

/// The value of a `ProcessInfo`.
#[verifier::ext_equal]
pub struct ProcessModel {
    pub pid: u32,
    pub name: Seq<char>,
}

impl ProcessInfo {
    /// The value of the process.
    pub open spec fn model(self) -> ProcessModel {
        ProcessModel { pid: self.pid, name: self.name@ }
    }
}

/// The values of processes.
pub open spec fn process_models(v: Seq<ProcessInfo>) -> Seq<ProcessModel> {
    v.map_values(|p: ProcessInfo| p.model())
}

/// The code units before the first zero.
pub open spec fn units_before_zero(u: Seq<u16>) -> Seq<u16>
    decreases u.len(),
{
    if u.len() == 0 || u[0] == 0 {
        Seq::empty()
    } else {
        seq![u[0]] + units_before_zero(u.skip(1))
    }
}

/// Decodes a name that a zero ends.
pub fn name_of(units: &[u16]) -> (r: String)
    ensures
        r@ == bytes::utf16_text(units_before_zero(units@)),
{
    let n: usize = units.len();
    let mut i: usize = 0;
    proof {
        assert(units@.skip(0) =~= units@);
        assert(units@.take(0) + units_before_zero(units@.skip(0)) =~= units_before_zero(units@));
    }
    while i < n && units[i] != 0
        invariant
            n == units@.len(),
            i <= n,
            units@.take(i as int) + units_before_zero(units@.skip(i as int)) == units_before_zero(
                units@,
            ),
        decreases n - i,
    {
        proof {
            assert(units@.skip(i as int).skip(1) =~= units@.skip(i + 1));
            assert(units@.take(i + 1) + units_before_zero(units@.skip(i + 1)) =~= units@.take(
                i as int,
            ) + units_before_zero(units@.skip(i as int)));
        }
        i = i + 1;
    }
    let head: &[u16] = vstd::slice::slice_subrange(units, 0, i);
    proof {
        assert(units_before_zero(units@.skip(i as int)) =~= Seq::<u16>::empty());
        assert(head@ =~= units_before_zero(units@));
    }
    bytes::utf16_string(head)
}

/// Whether a process comes before another one: by name in lower case.
pub open spec fn listed_before(a: ProcessModel, b: ProcessModel) -> bool {
    text::comes_before(text::lowered(a.name), text::lowered(b.name))
}

/// The order of processes.
pub open spec fn by_name() -> spec_fn(ProcessModel, ProcessModel) -> bool {
    |a: ProcessModel, b: ProcessModel| listed_before(a, b)
}

/// The processes in order; those with the same name stay as they were.
pub open spec fn in_order(s: Seq<ProcessModel>) -> Seq<ProcessModel> {
    order::in_order(s, by_name())
}

/// Where a process is put in.
fn place(keys: &Vec<Vec<char>>, key: &[char]) -> (r: usize)
    ensures
        r <= keys@.len(),
        r > 0 ==> !text::comes_before(key@, keys@[r - 1]@),
        forall|i: int| r <= i < keys@.len() ==> text::comes_before(key@, #[trigger] keys@[i]@),
{
    let mut i: usize = keys.len();
    while i > 0
        invariant
            i <= keys@.len(),
            forall|j: int| i <= j < keys@.len() ==> text::comes_before(key@, #[trigger] keys@[j]@),
        decreases i,
    {
        if !text::before(key, &keys[i - 1]) {
            return i;
        }
        i = i - 1;
    }
    0
}

/// Puts processes in order.
pub fn sort_processes(v: Vec<ProcessInfo>) -> (r: Vec<ProcessInfo>)
    ensures
        process_models(r@) == in_order(process_models(v@)),
{
    let ghost all = process_models(v@);
    let mut rest: Vec<ProcessInfo> = v;
    let mut out: Vec<ProcessInfo> = Vec::new();
    let mut keys: Vec<Vec<char>> = Vec::new();
    let ghost mut done: int = 0;
    proof {
        assert(all.take(0) =~= Seq::<ProcessModel>::empty());
        assert(process_models(out@) =~= Seq::<ProcessModel>::empty());
        assert(all.skip(0) =~= all);
    }
    while rest.len() > 0
        invariant
            0 <= done <= all.len(),
            process_models(rest@) == all.skip(done),
            process_models(out@) == in_order(all.take(done)),
            keys@.len() == out@.len(),
            forall|i: int|
                0 <= i < keys@.len() ==> (#[trigger] keys@[i])@ == text::lowered(
                    out@[i].name@,
                ),
        decreases rest@.len(),
    {
        let ghost before = rest@;
        let p: ProcessInfo = rest.remove(0);
        let key: Vec<char> = text::lowercase(&text::chars_of(p.name.as_str()));
        let k: usize = place(&keys, &key);
        let ghost earlier = out@;
        let ghost models = process_models(out@);
        proof {
            assert(process_models(before).len() == before.len());
            assert(all.skip(done).len() == all.len() - done);
            assert(process_models(before)[0] == p.model());
            assert(all[done] == all.skip(done)[0]);
            assert(all.take(done + 1).drop_last() =~= all.take(done));
            assert(all.take(done + 1).last() == p.model());
            assert forall|i: int| 0 <= i < models.len() implies (#[trigger] models[i]).name
                == out@[i].name@ by {}
            assert forall|i: int| k <= i < models.len() implies listed_before(
                p.model(),
                #[trigger] models[i],
            ) by {
                assert(keys@[i]@ == text::lowered(out@[i].name@));
            }
            if k > 0 {
                assert(keys@[k - 1]@ == text::lowered(out@[k - 1].name@));
                assert(models[k - 1].name == out@[k - 1].name@);
            }
            order::lemma_inserted_at(models, p.model(), by_name(), k as int);
        }
        out.insert(k, p);
        keys.insert(k, key);
        proof {
            assert(process_models(out@) =~= models.insert(k as int, p.model()));
            assert(process_models(rest@) =~= process_models(before).skip(1));
            assert(all.skip(done).skip(1) =~= all.skip(done + 1));
            done = done + 1;
        }
    }
    proof {
        assert(all.take(all.len() as int) =~= all);
        assert(rest@.len() == process_models(rest@).len());
    }
    out
}

proof fn lemma_by_name()
    ensures
        order::is_order(by_name()),
{
    let lt = by_name();
    assert forall|a: ProcessModel, b: ProcessModel| !(#[trigger] lt(a, b) && lt(b, a)) by {
        text::lemma_order_total(
            text::lowered(a.name),
            text::lowered(b.name),
        );
    }
    assert forall|a: ProcessModel, b: ProcessModel, c: ProcessModel|
        #![trigger lt(a, b), lt(b, c)]
        !lt(a, b) && !lt(b, c) implies !lt(a, c) by {
        text::lemma_order_negative(
            text::lowered(a.name),
            text::lowered(b.name),
            text::lowered(c.name),
        );
    }
}

/// The list of processes is in order, and it holds the same processes.
pub proof fn lemma_in_order(s: Seq<ProcessModel>)
    ensures
        in_order(s).to_multiset() == s.to_multiset(),
        forall|i: int, j: int|
            0 <= i < j < in_order(s).len() ==> !listed_before(
                #[trigger] in_order(s)[j],
                #[trigger] in_order(s)[i],
            ),
{
    lemma_by_name();
    order::lemma_in_order_same(s, by_name());
    assert forall|i: int, j: int| 0 <= i < j < in_order(s).len() implies !listed_before(
        #[trigger] in_order(s)[j],
        #[trigger] in_order(s)[i],
    ) by {
        order::lemma_in_order_sorted(s, by_name(), i, j);
    }
}

/// The index of the first process with a name, up to ASCII case.
pub open spec fn process_index(s: Seq<ProcessModel>, exe: Seq<char>) -> Option<int>
    decreases s.len(),
{
    if s.len() == 0 {
        None
    } else if text::same_ignoring_case(s[0].name, exe) {
        Some(0)
    } else {
        match process_index(s.skip(1), exe) {
            Some(i) => Some(i + 1),
            None => None,
        }
    }
}

/// The number of the first process with a name, up to ASCII case.
pub open spec fn pid_of(s: Seq<ProcessModel>, exe: Seq<char>) -> Option<u32> {
    match process_index(s, exe) {
        Some(i) => Some(s[i].pid),
        None => None,
    }
}

/// Finds the number of the first process with a name.
pub fn find_pid(procs: &Vec<ProcessInfo>, exe: &str) -> (r: Option<u32>)
    ensures
        r == pid_of(process_models(procs@), exe@),
{
    let ghost all = process_models(procs@);
    let n: usize = procs.len();
    let mut i: usize = 0;
    proof {
        assert(all.skip(0) =~= all);
    }
    while i < n
        invariant
            n == procs@.len(),
            i <= n,
            all == process_models(procs@),
            match process_index(all.skip(i as int), exe@) {
                Some(j) => process_index(all, exe@) == Some(j + i),
                None => process_index(all, exe@) is None,
            },
        decreases n - i,
    {
        proof {
            assert(all[i as int] == procs@[i as int].model());
            assert(all.skip(i as int).skip(1) =~= all.skip(i + 1));
        }
        if text::same_str_any_case(procs[i].name.as_str(), exe) {
            return Some(procs[i].pid);
        }
        i = i + 1;
    }
    None
}

} // verus!
