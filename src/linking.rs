//! Resolution of data aliases: the local table from data-section keys to
//! fully qualified contract paths, and the rewrite of alias operands.

use vstd::prelude::*;
use vstd::string::*;
use crate::assembly::{content_hash, opt_view, Assembly, Data, DataEntry, Instruction};
use crate::path_map::{lookup_pairs, PathMap};

verus! {

/// The width of a data index in hexadecimal digits.
pub const INDEX_WIDTH: usize = 64;

/// A data-section key padded with leading zeros to the width of an index.
pub open spec fn extend_index(k: Seq<char>) -> Seq<char> {
    if k.len() < INDEX_WIDTH {
        Seq::new((INDEX_WIDTH - k.len()) as nat, |_i: int| '0') + k
    } else {
        k
    }
}

/// Whether an opcode name is one whose operand denotes a data-section entry.
pub open spec fn is_data_alias(name: Seq<char>) -> bool {
    name == "PUSH [$]"@ || name == "PUSH #[$]"@
}

/// The operand after the rewrite: an alias whose padded operand the local
/// table maps takes the mapped path; every other operand stays.
pub open spec fn rewritten_value(
    name: Seq<char>,
    value: Option<Seq<char>>,
    mapping: Seq<(Seq<char>, Seq<char>)>,
) -> Option<Seq<char>> {
    match value {
        Some(v) => if is_data_alias(name) {
            match lookup_pairs(mapping, extend_index(v)) {
                Some(p) => Some(p),
                None => Some(v),
            }
        } else {
            Some(v)
        },
        None => None,
    }
}

/// `new` is `old` with every alias operand rewritten through `mapping`.
pub open spec fn rewritten(
    old: Seq<Instruction>,
    new: Seq<Instruction>,
    mapping: Seq<(Seq<char>, Seq<char>)>,
) -> bool {
    &&& new.len() == old.len()
    &&& forall|j: int|
        0 <= j < old.len() ==> {
            &&& (#[trigger] new[j]).name@ == old[j].name@
            &&& opt_view(new[j].value) == rewritten_value(
                old[j].name@,
                opt_view(old[j].value),
                mapping,
            )
        }
}

/// Optional code, rewritten through `mapping` where it is present.
pub open spec fn code_rewritten(
    old: Option<Vec<Instruction>>,
    new: Option<Vec<Instruction>>,
    mapping: Seq<(Seq<char>, Seq<char>)>,
) -> bool {
    match (old, new) {
        (Some(o), Some(n)) => rewritten(o@, n@, mapping),
        (None, None) => true,
        _ => false,
    }
}

/// The local table that a dependency pass builds over the first `n` entries
/// of a data section, or the first content hash that `table` does not know.
/// A nested assembly must resolve; a hash entry resolves when `table` knows
/// it and is a plain blob otherwise. With `skip_runtime` the runtime slot is
/// passed over.
pub open spec fn pass_result(
    entries: Seq<DataEntry>,
    n: int,
    skip_runtime: bool,
    table: Seq<(Seq<char>, Seq<char>)>,
) -> Result<Seq<(Seq<char>, Seq<char>)>, Seq<char>>
    decreases n,
{
    if n <= 0 {
        Ok(Seq::empty())
    } else {
        match pass_result(entries, n - 1, skip_runtime, table) {
            Err(h) => Err(h),
            Ok(pairs) => {
                let e = entries[n - 1];
                if skip_runtime && e.key@ == runtime_key() {
                    Ok(pairs)
                } else {
                    match e.data {
                        Data::Assembly(inner) => match lookup_pairs(table, content_hash(inner)) {
                            Some(p) => Ok(pairs.push((extend_index(e.key@), p))),
                            None => Err(content_hash(inner)),
                        },
                        Data::Hash(h) => match lookup_pairs(table, h@) {
                            Some(p) => Ok(pairs.push((extend_index(e.key@), p))),
                            None => Ok(pairs),
                        },
                    }
                }
            },
        }
    }
}

/// The key of the runtime slot.
pub open spec fn runtime_key() -> Seq<char> {
    seq!['0']
}

/// The result of a dependency pass over a whole optional data section.
pub open spec fn section_pass(
    data: Option<Vec<DataEntry>>,
    skip_runtime: bool,
    table: Seq<(Seq<char>, Seq<char>)>,
) -> Result<Seq<(Seq<char>, Seq<char>)>, Seq<char>> {
    match data {
        Some(d) => pass_result(d@, d@.len() as int, skip_runtime, table),
        None => Ok(Seq::empty()),
    }
}

/// The index of the first entry with key `k` among the first `n`, if any.
pub open spec fn find_key(entries: Seq<DataEntry>, k: Seq<char>, n: int) -> Option<int>
    decreases n,
{
    if n <= 0 {
        None
    } else {
        match find_key(entries, k, n - 1) {
            Some(i) => Some(i),
            None => if entries[n - 1].key@ == k {
                Some(n - 1)
            } else {
                None
            },
        }
    }
}

/// The index of the runtime slot, where it holds a nested assembly.
pub open spec fn runtime_index(a: Assembly) -> Option<int> {
    match a.data {
        Some(d) => match find_key(d@, runtime_key(), d@.len() as int) {
            Some(i) => match d@[i].data {
                Data::Assembly(_) => Some(i),
                Data::Hash(_) => None,
            },
            None => None,
        },
        None => None,
    }
}

/// The runtime sub-assembly, if any.
pub open spec fn runtime_of(a: Assembly) -> Option<Assembly> {
    match runtime_index(a) {
        Some(i) => Some(a.data->Some_0@[i].data->Assembly_0),
        None => None,
    }
}

/// The result of the deploy pass of `a`.
pub open spec fn deploy_pass(a: Assembly, table: Seq<(Seq<char>, Seq<char>)>) -> Result<
    Seq<(Seq<char>, Seq<char>)>,
    Seq<char>,
> {
    section_pass(a.data, true, table)
}

/// The result of the runtime pass of `a`: empty without a runtime slot.
pub open spec fn runtime_pass(a: Assembly, table: Seq<(Seq<char>, Seq<char>)>) -> Result<
    Seq<(Seq<char>, Seq<char>)>,
    Seq<char>,
> {
    match runtime_of(a) {
        Some(r) => section_pass(r.data, false, table),
        None => Ok(Seq::empty()),
    }
}

fn make_string(s: &str) -> (r: String)
    ensures
        r@ == s@,
{
    String::from_str(s)
}

/// Pads a data-section key with leading zeros to the width of an index.
pub fn extend_key(k: &String) -> (r: String)
    ensures
        r@ == extend_index(k@),
{
    let len = k.as_str().unicode_len();
    if len < INDEX_WIDTH {
        let mut r = String::new();
        let zero = make_string("0");
        proof {
            reveal_strlit("0");
        }
        let mut i: usize = 0;
        while i < INDEX_WIDTH - len
            invariant
                len == k@.len(),
                len < INDEX_WIDTH,
                zero@ == seq!['0'],
                i <= INDEX_WIDTH - len,
                r@ == Seq::new(i as nat, |_j: int| '0'),
            decreases INDEX_WIDTH - len - i,
        {
            r.append(zero.as_str());
            proof {
                assert(r@ =~= Seq::new((i + 1) as nat, |_j: int| '0'));
            }
            i = i + 1;
        }
        r.append(k.as_str());
        r
    } else {
        k.clone()
    }
}

fn is_alias_name(name: &String) -> (r: bool)
    ensures
        r == is_data_alias(name@),
{
    let offset = make_string("PUSH [$]");
    let size = make_string("PUSH #[$]");
    *name == offset || *name == size
}

impl Instruction {
    /// Rewrites the operand of every data-alias instruction whose padded
    /// operand `mapping` maps; every other instruction stays as it is.
    pub fn replace_data_aliases(instructions: &mut Vec<Instruction>, mapping: &PathMap)
        ensures
            rewritten(old(instructions)@, final(instructions)@, mapping.pairs()),
    {
        let mut out: Vec<Instruction> = Vec::new();
        let mut i: usize = 0;
        while i < instructions.len()
            invariant
                i <= instructions@.len(),
                instructions@ == old(instructions)@,
                rewritten(instructions@.take(i as int), out@, mapping.pairs()),
            decreases instructions@.len() - i,
        {
            let ins = &instructions[i];
            let value = match &ins.value {
                Some(v) => if is_alias_name(&ins.name) {
                    match mapping.get(&extend_key(v)) {
                        Some(p) => Some(p),
                        None => Some(v.clone()),
                    }
                } else {
                    Some(v.clone())
                },
                None => None,
            };
            out.push(Instruction { name: ins.name.clone(), value });
            i = i + 1;
        }
        proof {
            assert(instructions@.take(instructions@.len() as int) =~= instructions@);
        }
        *instructions = out;
    }
}

/// A data-section entry whose content hash no contract of the compilation
/// unit has.
pub struct UnresolvedDependency {
    /// The content hash that was not found.
    pub hash: String,
    /// The fully qualified path of the contract whose data section holds it.
    pub path: String,
}

/// The local table of a dependency pass over `entries`, or the first
/// content hash that `table` does not know.
fn dependencies_pass(entries: &Vec<DataEntry>, skip_runtime: bool, table: &PathMap) -> (r: Result<
    PathMap,
    String,
>)
    ensures
        match (r, pass_result(entries@, entries@.len() as int, skip_runtime, table.pairs())) {
            (Ok(m), Ok(pairs)) => m.pairs() == pairs,
            (Err(h), Err(hash)) => h@ == hash,
            _ => false,
        },
{
    let mut mapping = PathMap::new();
    let runtime = make_string("0");
    proof {
        reveal_strlit("0");
        assert(runtime@ =~= runtime_key());
    }
    let mut i: usize = 0;
    while i < entries.len()
        invariant
            i <= entries@.len(),
            runtime@ == runtime_key(),
            pass_result(entries@, i as int, skip_runtime, table.pairs()) == Ok::<
                Seq<(Seq<char>, Seq<char>)>,
                Seq<char>,
            >(mapping.pairs()),
        decreases entries@.len() - i,
    {
        let e = &entries[i];
        if skip_runtime && e.key == runtime {
        } else {
            match &e.data {
                Data::Assembly(inner) => {
                    let hash = inner.keccak256();
                    match table.get(&hash) {
                        Some(p) => mapping.insert(extend_key(&e.key), p),
                        None => {
                            proof {
                                let ghost ii = i as int;
                                assert(pass_result(entries@, ii + 1, skip_runtime, table.pairs())
                                    is Err);
                                lemma_pass_err_stays(entries@, ii + 1, entries@.len() as int, skip_runtime, table.pairs());
                            }
                            return Err(hash);
                        },
                    }
                },
                Data::Hash(h) => match table.get(h) {
                    Some(p) => mapping.insert(extend_key(&e.key), p),
                    None => {},
                },
            }
        }
        i = i + 1;
    }
    Ok(mapping)
}

proof fn lemma_pass_err_stays(
    entries: Seq<DataEntry>,
    n: int,
    m: int,
    skip_runtime: bool,
    table: Seq<(Seq<char>, Seq<char>)>,
)
    requires
        n <= m,
        pass_result(entries, n, skip_runtime, table) is Err,
    ensures
        pass_result(entries, m, skip_runtime, table) == pass_result(entries, n, skip_runtime, table),
    decreases m - n,
{
    if n < m {
        lemma_pass_err_stays(entries, n, m - 1, skip_runtime, table);
    }
}

/// The index of the runtime slot of `a`, where it holds a nested assembly.
fn find_runtime(a: &Assembly) -> (r: Option<usize>)
    ensures
        match (r, runtime_index(*a)) {
            (Some(i), Some(j)) => i as int == j,
            (None, None) => true,
            _ => false,
        },
{
    match &a.data {
        Some(d) => {
            let runtime = make_string("0");
            proof {
                reveal_strlit("0");
                assert(runtime@ =~= runtime_key());
            }
            let mut i: usize = 0;
            while i < d.len()
                invariant
                    a.data == Some(*d),
                    i <= d@.len(),
                    runtime@ == runtime_key(),
                    find_key(d@, runtime_key(), i as int) is None,
                decreases d@.len() - i,
            {
                if d[i].key == runtime {
                    proof {
                        assert(find_key(d@, runtime_key(), i + 1) == Some(i as int));
                        lemma_find_stays(d@, runtime_key(), i + 1, d@.len() as int);
                    }
                    return match &d[i].data {
                        Data::Assembly(_) => Some(i),
                        Data::Hash(_) => None,
                    };
                }
                i = i + 1;
            }
            None
        },
        None => None,
    }
}

proof fn lemma_find_stays(entries: Seq<DataEntry>, k: Seq<char>, n: int, m: int)
    requires
        n <= m,
        find_key(entries, k, n) is Some,
    ensures
        find_key(entries, k, m) == find_key(entries, k, n),
    decreases m - n,
{
    if n < m {
        lemma_find_stays(entries, k, n, m - 1);
    }
}

proof fn lemma_find_bounds(entries: Seq<DataEntry>, k: Seq<char>, n: int)
    requires
        n <= entries.len(),
    ensures
        find_key(entries, k, n) matches Some(i) ==> 0 <= i < n && entries[i].key@ == k,
    decreases n,
{
    if n > 0 {
        lemma_find_bounds(entries, k, n - 1);
    }
}

impl Assembly {
    /// The local table of the deploy code: each entry of the data section
    /// but the runtime slot that resolves to a contract path, keyed by its
    /// padded key.
    pub fn deploy_dependencies_pass(&self, full_path: &String, table: &PathMap) -> (r: Result<
        PathMap,
        UnresolvedDependency,
    >)
        ensures
            match (r, deploy_pass(*self, table.pairs())) {
                (Ok(m), Ok(pairs)) => m.pairs() == pairs,
                (Err(e), Err(hash)) => e.hash@ == hash && e.path@ == full_path@,
                _ => false,
            },
    {
        match &self.data {
            Some(d) => match dependencies_pass(d, true, table) {
                Ok(m) => Ok(m),
                Err(hash) => Err(UnresolvedDependency { hash, path: full_path.clone() }),
            },
            None => Ok(PathMap::new()),
        }
    }

    /// The local table of the runtime code: the same over the data section
    /// of the runtime sub-assembly, empty where there is none.
    pub fn runtime_dependencies_pass(&self, full_path: &String, table: &PathMap) -> (r: Result<
        PathMap,
        UnresolvedDependency,
    >)
        ensures
            match (r, runtime_pass(*self, table.pairs())) {
                (Ok(m), Ok(pairs)) => m.pairs() == pairs,
                (Err(e), Err(hash)) => e.hash@ == hash && e.path@ == full_path@,
                _ => false,
            },
    {
        match find_runtime(self) {
            Some(i) => {
                let d = self.data.as_ref().unwrap();
                proof {
                    lemma_find_bounds(d@, runtime_key(), d@.len() as int);
                }
                match &d[i].data {
                    Data::Assembly(runtime) => match &runtime.data {
                        Some(rd) => match dependencies_pass(rd, false, table) {
                            Ok(m) => Ok(m),
                            Err(hash) => Err(UnresolvedDependency { hash, path: full_path.clone() }),
                        },
                        None => Ok(PathMap::new()),
                    },
                    Data::Hash(_) => Ok(PathMap::new()),
                }
            },
            None => Ok(PathMap::new()),
        }
    }
}

/// The two local tables of `a`, deploy and runtime, or the first content
/// hash that `table` does not know.
pub open spec fn level_tables(a: Assembly, table: Seq<(Seq<char>, Seq<char>)>) -> Result<
    (Seq<(Seq<char>, Seq<char>)>, Seq<(Seq<char>, Seq<char>)>),
    Seq<char>,
> {
    match deploy_pass(a, table) {
        Err(h) => Err(h),
        Ok(dp) => match runtime_pass(a, table) {
            Err(h) => Err(h),
            Ok(rp) => Ok((dp, rp)),
        },
    }
}

/// `new` is `old` resolved under the path `path` with the deploy table `dp`
/// and the runtime table `rp`: the path is set, the deploy code and the
/// runtime code are rewritten, and everything else is kept.
pub open spec fn level_resolved(
    old: Assembly,
    new: Assembly,
    path: Seq<char>,
    dp: Seq<(Seq<char>, Seq<char>)>,
    rp: Seq<(Seq<char>, Seq<char>)>,
) -> bool {
    &&& opt_view(new.full_path) == Some(path)
    &&& code_rewritten(old.code, new.code, dp)
    &&& match runtime_index(old) {
        None => new.data == old.data,
        Some(i) => {
            let od = old.data->Some_0@;
            let nd = new.data->Some_0@;
            let ort = od[i].data->Assembly_0;
            &&& new.data is Some
            &&& nd.len() == od.len()
            &&& forall|j: int| 0 <= j < od.len() && j != i ==> #[trigger] nd[j] == od[j]
            &&& nd[i].key == od[i].key
            &&& nd[i].data is Assembly
            &&& nd[i].data->Assembly_0.full_path == ort.full_path
            &&& nd[i].data->Assembly_0.data == ort.data
            &&& code_rewritten(ort.code, nd[i].data->Assembly_0.code, rp)
        },
    }
}

fn rewrite_code(code: &mut Option<Vec<Instruction>>, mapping: &PathMap)
    ensures
        code_rewritten(*old(code), *final(code), mapping.pairs()),
{
    match code.take() {
        Some(mut c) => {
            Instruction::replace_data_aliases(&mut c, mapping);
            *code = Some(c);
        },
        None => {},
    }
}

/// Resolves one contract's assembly: sets its path, then rewrites the deploy
/// code through the deploy table and the runtime code through the runtime
/// table. Where either table cannot be built the assembly is left as it was.
pub fn preprocess_dependency_level(
    full_path: &String,
    assembly: &mut Assembly,
    table: &PathMap,
) -> (r: Result<(), UnresolvedDependency>)
    ensures
        match (r, level_tables(*old(assembly), table.pairs())) {
            (Ok(()), Ok((dp, rp))) => level_resolved(*old(assembly), *final(assembly), full_path@, dp, rp),
            (Err(e), Err(hash)) => e.hash@ == hash && e.path@ == full_path@ && *final(assembly) == *old(assembly),
            _ => false,
        },
{
    let deploy = match assembly.deploy_dependencies_pass(full_path, table) {
        Ok(m) => m,
        Err(e) => return Err(e),
    };
    let runtime = match assembly.runtime_dependencies_pass(full_path, table) {
        Ok(m) => m,
        Err(e) => return Err(e),
    };
    let slot = find_runtime(assembly);
    assembly.set_full_path(full_path.clone());
    rewrite_code(&mut assembly.code, &deploy);
    match slot {
        Some(i) => {
            let mut d = assembly.data.take().unwrap();
            let ghost od = d@;
            proof {
                lemma_find_bounds(d@, runtime_key(), d@.len() as int);
            }
            let entry = d.remove(i);
            let DataEntry { key, data } = entry;
            match data {
                Data::Assembly(mut rt) => {
                    rewrite_code(&mut rt.code, &runtime);
                    d.insert(i, DataEntry { key, data: Data::Assembly(rt) });
                },
                Data::Hash(h) => {
                    d.insert(i, DataEntry { key, data: Data::Hash(h) });
                },
            }
            proof {
                assert forall|j: int| 0 <= j < od.len() && j != i implies #[trigger] d@[j] == od[j] by {
                    if j < i {
                    } else {
                    }
                }
            }
            assembly.data = Some(d);
        },
        None => {},
    }
    Ok(())
}

} // verus!
