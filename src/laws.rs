//! Laws of content hashing and dependency resolution.

use vstd::prelude::*;
use crate::assembly::{
    assembly_bytes, content_hash, data_bytes, data_len, entry_bytes, instructions_bytes,
    opt_view, Assembly, Data, DataEntry, Instruction,
};
use crate::linking::{
    code_rewritten, deploy_pass, level_resolved, pass_result, rewritten, runtime_index,
    runtime_key, runtime_of, runtime_pass,
};
use crate::output::{assembly_of, file_resolved, FileContracts};
use crate::path_map::lookup_pairs;

verus! {

proof fn lemma_data_bytes_step(a: Assembly, n: int)
    requires
        0 < n <= data_len(a),
    ensures
        data_bytes(a, n) == data_bytes(a, n - 1) + entry_bytes(a.data->Some_0@[n - 1]),
{
    let e = a.data->Some_0@[n - 1];
    let mid = match e.data {
        Data::Assembly(inner) => seq![123u8] + assembly_bytes(inner) + seq![125u8],
        Data::Hash(h) => vstd::utf8::encode_utf8(h@),
    };
    assert(data_bytes(a, n - 1) + vstd::utf8::encode_utf8(e.key@) + seq![58u8] + mid + seq![10u8]
        =~= data_bytes(a, n - 1) + entry_bytes(e));
}

proof fn lemma_data_bytes_eq(a: Assembly, b: Assembly, n: int)
    requires
        0 <= n <= data_len(a),
        data_len(a) == data_len(b),
        forall|j: int|
            0 <= j < n ==> entry_bytes(#[trigger] a.data->Some_0@[j]) == entry_bytes(
                b.data->Some_0@[j],
            ),
    ensures
        data_bytes(a, n) == data_bytes(b, n),
    decreases n,
{
    if n > 0 {
        lemma_data_bytes_eq(a, b, n - 1);
        lemma_data_bytes_step(a, n);
        lemma_data_bytes_step(b, n);
    }
}

/// Hashing depends on the code and the data alone: two assemblies with the
/// same code and the same data have the same content hash, whatever their
/// paths, and hashing one assembly twice gives the same digest.
pub proof fn lemma_content_hash_deterministic(a: Assembly, b: Assembly)
    requires
        a.code == b.code,
        a.data == b.data,
    ensures
        content_hash(a) == content_hash(b),
{
    assert forall|j: int| 0 <= j < data_len(a) implies entry_bytes(#[trigger] a.data->Some_0@[j])
        == entry_bytes(b.data->Some_0@[j]) by {}
    lemma_data_bytes_eq(a, b, data_len(a) as int);
}

proof fn lemma_rewrites_render_alike(
    old: Seq<Instruction>,
    x: Seq<Instruction>,
    y: Seq<Instruction>,
    mapping: Seq<(Seq<char>, Seq<char>)>,
)
    requires
        rewritten(old, x, mapping),
        rewritten(old, y, mapping),
    ensures
        instructions_bytes(x) == instructions_bytes(y),
    decreases old.len(),
{
    if old.len() > 0 {
        let n = old.len() - 1;
        assert(rewritten(old.drop_last(), x.drop_last(), mapping)) by {
            assert forall|j: int| 0 <= j < n implies (#[trigger] x.drop_last()[j]).name@ == old.drop_last()[j].name@ by {
                assert(x[j] == x.drop_last()[j]);
            }
        }
        assert(rewritten(old.drop_last(), y.drop_last(), mapping)) by {
            assert forall|j: int| 0 <= j < n implies (#[trigger] y.drop_last()[j]).name@ == old.drop_last()[j].name@ by {
                assert(y[j] == y.drop_last()[j]);
            }
        }
        lemma_rewrites_render_alike(old.drop_last(), x.drop_last(), y.drop_last(), mapping);
        assert(x[n].name@ == y[n].name@);
        assert(opt_view(x[n].value) == opt_view(y[n].value));
    }
}

proof fn lemma_code_rewrites_render_alike(
    old: Option<Vec<Instruction>>,
    x: Option<Vec<Instruction>>,
    y: Option<Vec<Instruction>>,
    mapping: Seq<(Seq<char>, Seq<char>)>,
)
    requires
        code_rewritten(old, x, mapping),
        code_rewritten(old, y, mapping),
    ensures
        crate::assembly::code_bytes(x) == crate::assembly::code_bytes(y),
{
    match (old, x, y) {
        (Some(o), Some(p), Some(q)) => lemma_rewrites_render_alike(o@, p@, q@, mapping),
        _ => {},
    }
}

/// Resolution is deterministic: two resolutions of one assembly under the
/// same path and tables carry the same path and render the same, so they
/// have the same content hash.
pub proof fn lemma_resolution_deterministic(
    old: Assembly,
    x: Assembly,
    y: Assembly,
    path: Seq<char>,
    dp: Seq<(Seq<char>, Seq<char>)>,
    rp: Seq<(Seq<char>, Seq<char>)>,
)
    requires
        level_resolved(old, x, path, dp, rp),
        level_resolved(old, y, path, dp, rp),
    ensures
        opt_view(x.full_path) == opt_view(y.full_path),
        assembly_bytes(x) == assembly_bytes(y),
        content_hash(x) == content_hash(y),
{
    lemma_code_rewrites_render_alike(old.code, x.code, y.code, dp);
    match runtime_index(old) {
        None => {
            assert forall|j: int| 0 <= j < data_len(x) implies entry_bytes(#[trigger] x.data->Some_0@[j])
                == entry_bytes(y.data->Some_0@[j]) by {}
            lemma_data_bytes_eq(x, y, data_len(x) as int);
        },
        Some(i) => {
            let xr = x.data->Some_0@[i].data->Assembly_0;
            let yr = y.data->Some_0@[i].data->Assembly_0;
            let ort = old.data->Some_0@[i].data->Assembly_0;
            lemma_code_rewrites_render_alike(ort.code, xr.code, yr.code, rp);
            assert forall|j: int| 0 <= j < data_len(xr) implies entry_bytes(#[trigger] xr.data->Some_0@[j])
                == entry_bytes(yr.data->Some_0@[j]) by {}
            lemma_data_bytes_eq(xr, yr, data_len(xr) as int);
            assert(assembly_bytes(xr) == assembly_bytes(yr));
            assert forall|j: int| 0 <= j < data_len(x) implies entry_bytes(#[trigger] x.data->Some_0@[j])
                == entry_bytes(y.data->Some_0@[j]) by {
                if j != i {
                    assert(x.data->Some_0@[j] == old.data->Some_0@[j]);
                    assert(y.data->Some_0@[j] == old.data->Some_0@[j]);
                }
            }
            lemma_data_bytes_eq(x, y, data_len(x) as int);
        },
    }
}

/// Every entry of a data section, but the runtime slot where it is passed
/// over, is a hash that `table` does not know: no nested assembly and no
/// hash of a known contract.
pub open spec fn no_dependency_entries(
    entries: Seq<DataEntry>,
    skip_runtime: bool,
    table: Seq<(Seq<char>, Seq<char>)>,
) -> bool {
    forall|j: int|
        0 <= j < entries.len() ==> (skip_runtime && (#[trigger] entries[j]).key@ == runtime_key())
            || match entries[j].data {
            Data::Hash(h) => lookup_pairs(table, h@) is None,
            Data::Assembly(_) => false,
        }
}

/// The same of an optional data section.
pub open spec fn section_without_dependencies(
    data: Option<Vec<DataEntry>>,
    skip_runtime: bool,
    table: Seq<(Seq<char>, Seq<char>)>,
) -> bool {
    match data {
        Some(d) => no_dependency_entries(d@, skip_runtime, table),
        None => true,
    }
}

/// `new` holds the same instructions as `old`.
pub open spec fn code_unchanged(old: Option<Vec<Instruction>>, new: Option<Vec<Instruction>>) -> bool {
    match (old, new) {
        (Some(o), Some(n)) => o@.len() == n@.len() && forall|j: int|
            0 <= j < o@.len() ==> (#[trigger] n@[j]).name@ == o@[j].name@ && opt_view(n@[j].value)
                == opt_view(o@[j].value),
        (None, None) => true,
        _ => false,
    }
}

proof fn lemma_pass_empty(
    entries: Seq<DataEntry>,
    n: int,
    skip_runtime: bool,
    table: Seq<(Seq<char>, Seq<char>)>,
)
    requires
        0 <= n <= entries.len(),
        no_dependency_entries(entries, skip_runtime, table),
    ensures
        pass_result(entries, n, skip_runtime, table) == Ok::<
            Seq<(Seq<char>, Seq<char>)>,
            Seq<char>,
        >(Seq::empty()),
    decreases n,
{
    if n > 0 {
        lemma_pass_empty(entries, n - 1, skip_runtime, table);
    }
}

proof fn lemma_empty_rewrite_keeps(
    old: Option<Vec<Instruction>>,
    new: Option<Vec<Instruction>>,
)
    requires
        code_rewritten(old, new, Seq::empty()),
    ensures
        code_unchanged(old, new),
{
    match (old, new) {
        (Some(o), Some(n)) => {
            assert forall|j: int| 0 <= j < o@.len() implies (#[trigger] n@[j]).name@ == o@[j].name@
                && opt_view(n@[j].value) == opt_view(o@[j].value) by {
                match opt_view(o@[j].value) {
                    Some(v) => {
                        assert(lookup_pairs(
                            Seq::<(Seq<char>, Seq<char>)>::empty(),
                            crate::linking::extend_index(v),
                        ) is None);
                    },
                    None => {},
                }
            }
        },
        _ => {},
    }
}

/// Where no entry of the data section, nor of the runtime sub-assembly's,
/// is a nested assembly or a known hash, both dependency passes give an
/// empty table, and a resolution with those tables keeps every instruction
/// of the deploy code and of the runtime code.
pub proof fn lemma_no_dependencies(
    a: Assembly,
    new: Assembly,
    path: Seq<char>,
    table: Seq<(Seq<char>, Seq<char>)>,
)
    requires
        section_without_dependencies(a.data, true, table),
        match runtime_of(a) {
            Some(r) => section_without_dependencies(r.data, false, table),
            None => true,
        },
    ensures
        deploy_pass(a, table) == Ok::<Seq<(Seq<char>, Seq<char>)>, Seq<char>>(Seq::empty()),
        runtime_pass(a, table) == Ok::<Seq<(Seq<char>, Seq<char>)>, Seq<char>>(Seq::empty()),
        level_resolved(a, new, path, Seq::empty(), Seq::empty()) ==> {
            &&& code_unchanged(a.code, new.code)
            &&& match runtime_index(a) {
                Some(i) => code_unchanged(
                    a.data->Some_0@[i].data->Assembly_0.code,
                    new.data->Some_0@[i].data->Assembly_0.code,
                ),
                None => true,
            }
        },
{
    match a.data {
        Some(d) => lemma_pass_empty(d@, d@.len() as int, true, table),
        None => {},
    }
    match runtime_of(a) {
        Some(r) => match r.data {
            Some(d) => lemma_pass_empty(d@, d@.len() as int, false, table),
            None => {},
        },
        None => {},
    }
    if level_resolved(a, new, path, Seq::empty(), Seq::empty()) {
        lemma_empty_rewrite_keeps(a.code, new.code);
        match runtime_index(a) {
            Some(i) => lemma_empty_rewrite_keeps(
                a.data->Some_0@[i].data->Assembly_0.code,
                new.data->Some_0@[i].data->Assembly_0.code,
            ),
            None => {},
        }
    }
}

/// Resolving one report twice gives the same assemblies: where two
/// resolutions of the same files both succeed against the same table, each
/// contract's resolved assembly carries the same path and renders the same
/// in both.
pub proof fn lemma_report_resolution_deterministic(
    old: Seq<(String, FileContracts)>,
    x: Seq<(String, FileContracts)>,
    y: Seq<(String, FileContracts)>,
    table: Seq<(Seq<char>, Seq<char>)>,
    i: int,
    j: int,
)
    requires
        x.len() == old.len(),
        y.len() == old.len(),
        forall|k: int| 0 <= k < old.len() ==> file_resolved(#[trigger] old[k], x[k], table),
        forall|k: int| 0 <= k < old.len() ==> file_resolved(#[trigger] old[k], y[k], table),
        0 <= i < old.len(),
        0 <= j < old[i].1@.len(),
        assembly_of(old[i].1@[j].1) is Some,
    ensures
        assembly_of(x[i].1@[j].1) is Some,
        assembly_of(y[i].1@[j].1) is Some,
        opt_view(assembly_of(x[i].1@[j].1)->Some_0.full_path) == opt_view(
            assembly_of(y[i].1@[j].1)->Some_0.full_path,
        ),
        assembly_bytes(assembly_of(x[i].1@[j].1)->Some_0) == assembly_bytes(
            assembly_of(y[i].1@[j].1)->Some_0,
        ),
{
    assert(file_resolved(old[i], x[i], table));
    assert(file_resolved(old[i], y[i], table));
    let c = old[i].1@[j].1;
    let path = crate::output::full_path_of(old[i].0@, old[i].1@[j].0@);
    assert(crate::output::contract_resolved(c, x[i].1@[j].1, path, table));
    assert(crate::output::contract_resolved(c, y[i].1@[j].1, path, table));
    let a = assembly_of(c)->Some_0;
    let (dp, rp) = crate::linking::level_tables(a, table)->Ok_0;
    lemma_resolution_deterministic(
        a,
        assembly_of(x[i].1@[j].1)->Some_0,
        assembly_of(y[i].1@[j].1)->Some_0,
        path,
        dp,
        rp,
    );
}

} // verus!
