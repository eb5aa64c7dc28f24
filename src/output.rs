//! The `solc --standard-json` output and its dependency-resolution pass.

use vstd::prelude::*;
use vstd::string::*;
use crate::assembly::Assembly;
use crate::linking::{level_resolved, level_tables, preprocess_dependency_level, UnresolvedDependency};
use crate::path_map::PathMap;

verus! {

/// Declares serde_json::Value, which the library carries through without
/// looking inside: an AST, an ABI, a storage layout.
#[verifier::external_type_specification]
#[verifier::external_body]
pub struct ExJsonValue(serde_json::Value);

/// The EVM part of a compiled contract.
pub struct Evm {
    /// The legacy assembly tree.
    pub assembly: Option<Assembly>,
}

/// One compiled contract of the output.
pub struct Contract {
    /// The optimized Yul text.
    pub ir_optimized: Option<String>,
    /// The EVM data.
    pub evm: Option<Evm>,
    /// The ABI, passed through as it came.
    pub abi: Option<serde_json::Value>,
    /// The storage layout, passed through as it came.
    pub storage_layout: Option<serde_json::Value>,
}

/// A compiler error or warning.
pub struct Diagnostic {
    pub severity: String,
    pub message: String,
    pub formatted_message: String,
}

/// The source code data of one file.
pub struct Source {
    /// The file's index in the compilation unit.
    pub id: usize,
    /// The file's AST.
    pub ast: Option<serde_json::Value>,
}

/// The contracts of one file, by name.
pub type FileContracts = Vec<(String, Contract)>;

/// The `solc --standard-json` output.
pub struct Output {
    /// The contracts, by file path and then by name.
    pub contracts: Option<Vec<(String, FileContracts)>>,
    /// The source code data, by file path.
    pub sources: Option<Vec<(String, Source)>>,
    /// The compilation errors and warnings.
    pub errors: Option<Vec<Diagnostic>>,
    /// The `solc` version.
    pub version: Option<String>,
    /// The `solc` long version.
    pub long_version: Option<String>,
    /// The `zksolc` version.
    pub zk_version: Option<String>,
}

/// The fully qualified path `file:name`.
pub open spec fn full_path_of(file: Seq<char>, name: Seq<char>) -> Seq<char> {
    file + seq![':'] + name
}

/// The assembly of a contract, if it has one.
pub open spec fn assembly_of(c: Contract) -> Option<Assembly> {
    match c.evm {
        Some(e) => e.assembly,
        None => None,
    }
}

/// The content-hash table entries of the first `m` contracts of a file.
pub open spec fn file_table(file: Seq<char>, cs: Seq<(String, Contract)>, m: int) -> Seq<
    (Seq<char>, Seq<char>),
>
    decreases m,
{
    if m <= 0 {
        Seq::empty()
    } else {
        let prev = file_table(file, cs, m - 1);
        match assembly_of(cs[m - 1].1) {
            Some(a) => prev.push(
                (crate::assembly::content_hash(a), full_path_of(file, cs[m - 1].0@)),
            ),
            None => prev,
        }
    }
}

/// The content-hash table entries of the first `n` files.
pub open spec fn files_table(files: Seq<(String, FileContracts)>, n: int) -> Seq<
    (Seq<char>, Seq<char>),
>
    decreases n,
{
    if n <= 0 {
        Seq::empty()
    } else {
        files_table(files, n - 1) + file_table(
            files[n - 1].0@,
            files[n - 1].1@,
            files[n - 1].1@.len() as int,
        )
    }
}

/// The table from content hash to fully qualified path, in file and
/// contract order: each contract with an assembly contributes one entry.
pub open spec fn hash_table(o: Output) -> Seq<(Seq<char>, Seq<char>)> {
    match o.contracts {
        Some(f) => files_table(f@, f@.len() as int),
        None => Seq::empty(),
    }
}

/// `new` is the contract `old` after resolution under `path`.
pub open spec fn contract_resolved(
    old: Contract,
    new: Contract,
    path: Seq<char>,
    table: Seq<(Seq<char>, Seq<char>)>,
) -> bool {
    &&& new.ir_optimized == old.ir_optimized
    &&& new.abi == old.abi
    &&& new.storage_layout == old.storage_layout
    &&& match assembly_of(old) {
        None => new.evm == old.evm,
        Some(a) => match (assembly_of(new), level_tables(a, table)) {
            (Some(na), Ok((dp, rp))) => new.evm is Some && level_resolved(a, na, path, dp, rp),
            _ => false,
        },
    }
}

/// `new` is the file `old` with each contract resolved.
pub open spec fn file_resolved(
    old: (String, FileContracts),
    new: (String, FileContracts),
    table: Seq<(Seq<char>, Seq<char>)>,
) -> bool {
    &&& new.0 == old.0
    &&& new.1@.len() == old.1@.len()
    &&& forall|j: int|
        0 <= j < old.1@.len() ==> {
            &&& (#[trigger] new.1@[j]).0 == old.1@[j].0
            &&& contract_resolved(
                old.1@[j].1,
                new.1@[j].1,
                full_path_of(old.0@, old.1@[j].0@),
                table,
            )
        }
}

/// `e` names a contract of `files` whose tables cannot be built.
pub open spec fn names_failure(
    files: Seq<(String, FileContracts)>,
    e: UnresolvedDependency,
    table: Seq<(Seq<char>, Seq<char>)>,
) -> bool {
    exists|i: int, j: int|
        0 <= i < files.len() && 0 <= j < files[i].1@.len() && {
            let (name, c) = #[trigger] files[i].1@[j];
            &&& e.path@ == full_path_of(files[i].0@, name@)
            &&& fails_with(c, e, table)
        }
}

/// The tables of `c`'s assembly cannot be built, for the hash that `e` names.
pub open spec fn fails_with(
    c: Contract,
    e: UnresolvedDependency,
    table: Seq<(Seq<char>, Seq<char>)>,
) -> bool {
    match assembly_of(c) {
        Some(a) => level_tables(a, table) == Err::<
            (Seq<(Seq<char>, Seq<char>)>, Seq<(Seq<char>, Seq<char>)>),
            Seq<char>,
        >(e.hash@),
        None => false,
    }
}

/// Builds `file:name`.
pub fn make_full_path(file: &String, name: &String) -> (r: String)
    ensures
        r@ == full_path_of(file@, name@),
{
    let mut r = file.clone();
    let colon = String::from_str(":");
    proof {
        reveal_strlit(":");
    }
    r.append(colon.as_str());
    r.append(name.as_str());
    proof {
        assert(r@ =~= full_path_of(file@, name@));
    }
    r
}

fn resolve_contract(path: &String, c: &mut Contract, table: &PathMap) -> (r: Result<
    (),
    UnresolvedDependency,
>)
    ensures
        match r {
            Ok(()) => contract_resolved(*old(c), *final(c), path@, table.pairs()),
            Err(e) => e.path@ == path@ && fails_with(*old(c), e, table.pairs()),
        },
{
    match c.evm.take() {
        Some(mut evm) => {
            let r = match evm.assembly.take() {
                Some(mut a) => {
                    let r = preprocess_dependency_level(path, &mut a, table);
                    evm.assembly = Some(a);
                    r
                },
                None => Ok(()),
            };
            c.evm = Some(evm);
            r
        },
        None => Ok(()),
    }
}

fn resolve_file(path: &String, cs: &mut FileContracts, table: &PathMap) -> (r: Result<
    (),
    UnresolvedDependency,
>)
    ensures
        final(cs)@.len() == old(cs)@.len(),
        r is Ok ==> file_resolved((*path, *old(cs)), (*path, *final(cs)), table.pairs()),
        r matches Err(e) ==> names_failure(seq![(*path, *old(cs))], e, table.pairs()),
{
    let ghost ocs = cs@;
    let mut j: usize = 0;
    while j < cs.len()
        invariant
            j <= cs@.len(),
            ocs == old(cs)@,
            cs@.len() == ocs.len(),
            forall|k: int| j <= k < ocs.len() ==> #[trigger] cs@[k] == ocs[k],
            forall|k: int|
                0 <= k < j ==> {
                    &&& (#[trigger] cs@[k]).0 == ocs[k].0
                    &&& contract_resolved(
                        ocs[k].1,
                        cs@[k].1,
                        full_path_of(path@, ocs[k].0@),
                        table.pairs(),
                    )
                },
        decreases cs@.len() - j,
    {
        let (name, mut c) = cs.remove(j);
        let full_path = make_full_path(path, &name);
        let res = resolve_contract(&full_path, &mut c, table);
        cs.insert(j, (name, c));
        match res {
            Err(e) => {
                proof {
                    let files = seq![(*path, *old(cs))];
                    assert(files[0].1@[j as int] == ocs[j as int]);
                }
                return Err(e);
            },
            Ok(()) => {},
        }
        j = j + 1;
    }
    Ok(())
}

impl Output {
    /// Collects the table from content hash to fully qualified path.
    pub fn collect_hashes(&self) -> (r: PathMap)
        ensures
            r.pairs() == hash_table(*self),
    {
        let mut table = PathMap::new();
        match &self.contracts {
            Some(files) => {
                let mut i: usize = 0;
                while i < files.len()
                    invariant
                        i <= files@.len(),
                        table.pairs() == files_table(files@, i as int),
                    decreases files@.len() - i,
                {
                    let (path, cs) = &files[i];
                    let ghost before = table.pairs();
                    let mut j: usize = 0;
                    while j < cs.len()
                        invariant
                            j <= cs@.len(),
                            table.pairs() == before + file_table(path@, cs@, j as int),
                        decreases cs@.len() - j,
                    {
                        let (name, c) = &cs[j];
                        match &c.evm {
                            Some(evm) => match &evm.assembly {
                                Some(a) => {
                                    let hash = a.keccak256();
                                    table.insert(hash, make_full_path(path, name));
                                },
                                None => {},
                            },
                            None => {},
                        }
                        proof {
                            assert(table.pairs() =~= before + file_table(path@, cs@, j + 1));
                        }
                        j = j + 1;
                    }
                    i = i + 1;
                }
            },
            None => {},
        }
        table
    }

    /// Resolves the data aliases of every contract's assembly to fully
    /// qualified contract paths, against the content hashes of all the
    /// contracts. Fails on the first data-section entry whose hash no
    /// contract has.
    pub fn preprocess_dependencies(&mut self) -> (r: Result<(), UnresolvedDependency>)
        ensures
            final(self).sources == old(self).sources,
            final(self).errors == old(self).errors,
            final(self).version == old(self).version,
            final(self).long_version == old(self).long_version,
            final(self).zk_version == old(self).zk_version,
            match old(self).contracts {
                None => r is Ok && final(self).contracts is None,
                Some(of) => final(self).contracts matches Some(nf) && nf@.len() == of@.len()
                    && match r {
                    Ok(()) => forall|i: int|
                        0 <= i < of@.len() ==> file_resolved(
                            #[trigger] of@[i],
                            nf@[i],
                            hash_table(*old(self)),
                        ),
                    Err(e) => names_failure(of@, e, hash_table(*old(self))),
                },
            },
    {
        let table = self.collect_hashes();
        let mut files = match self.contracts.take() {
            Some(f) => f,
            None => return Ok(()),
        };
        let ghost of = files@;
        let mut i: usize = 0;
        while i < files.len()
            invariant
                i <= files@.len(),
                files@.len() == of.len(),
                self.contracts is None,
                table.pairs() == hash_table(*old(self)),
                old(self).contracts matches Some(v) && v@ == of,
                self.sources == old(self).sources,
                self.errors == old(self).errors,
                self.version == old(self).version,
                self.long_version == old(self).long_version,
                self.zk_version == old(self).zk_version,
                forall|k: int| i <= k < of.len() ==> #[trigger] files@[k] == of[k],
                forall|k: int| 0 <= k < i ==> file_resolved(#[trigger] of[k], files@[k], table.pairs()),
            decreases files@.len() - i,
        {
            let (path, mut cs) = files.remove(i);
            let res = resolve_file(&path, &mut cs, &table);
            files.insert(i, (path, cs));
            match res {
                Err(e) => {
                    self.contracts = Some(files);
                    return Err(e);
                },
                Ok(()) => {},
            }
            i = i + 1;
        }
        self.contracts = Some(files);
        Ok(())
    }
}

/// The severity, message and formatted message of a diagnostic.
pub open spec fn diag_view(d: Diagnostic) -> (Seq<char>, Seq<char>, Seq<char>) {
    (d.severity@, d.message@, d.formatted_message@)
}

/// A diagnostic's view with the path of its file appended to the formatted
/// message, on a line of its own after `--> `.
pub open spec fn tagged_view(d: Diagnostic, path: Seq<char>) -> (Seq<char>, Seq<char>, Seq<char>) {
    (
        d.severity@,
        d.message@,
        d.formatted_message@ + seq!['\n', '-', '-', '>', ' '] + path + seq!['\n'],
    )
}

/// The messages found in the first `n` sources, each tagged with its path;
/// `found[k]` is what the analysis returned for source `k`, where it has an AST.
pub open spec fn tagged_messages(
    sources: Seq<(String, Source)>,
    found: Seq<Vec<Diagnostic>>,
    n: int,
) -> Seq<(Seq<char>, Seq<char>, Seq<char>)>
    decreases n,
{
    if n <= 0 {
        Seq::empty()
    } else {
        let prev = tagged_messages(sources, found, n - 1);
        match sources[n - 1].1.ast {
            Some(_) => prev + found[n - 1]@.map_values(
                |d: Diagnostic| tagged_view(d, sources[n - 1].0@),
            ),
            None => prev,
        }
    }
}

/// The views of an optional list of diagnostics; an absent one is empty.
pub open spec fn errors_view(e: Option<Vec<Diagnostic>>) -> Seq<(Seq<char>, Seq<char>, Seq<char>)> {
    match e {
        Some(v) => v@.map_values(|d: Diagnostic| diag_view(d)),
        None => Seq::empty(),
    }
}

/// Where `src` has an AST, `analyze` may return `r` for it.
pub open spec fn analysis_returned<F: Fn(&serde_json::Value) -> Result<Vec<Diagnostic>, String>>(
    analyze: F,
    src: Source,
    r: Result<Vec<Diagnostic>, String>,
) -> bool {
    match src.ast {
        Some(a) => analyze.ensures((&a,), r),
        None => true,
    }
}

impl Diagnostic {
    /// Appends the path of the file that the diagnostic is about to its
    /// formatted message.
    pub fn push_contract_path(&mut self, path: &String)
        ensures
            diag_view(*final(self)) == tagged_view(*old(self), path@),
    {
        let arrow = String::from_str("\n--> ");
        let newline = String::from_str("\n");
        proof {
            reveal_strlit("\n--> ");
            reveal_strlit("\n");
        }
        self.formatted_message.append(arrow.as_str());
        self.formatted_message.append(path.as_str());
        self.formatted_message.append(newline.as_str());
        proof {
            assert(diag_view(*self) =~= tagged_view(*old(self), path@));
        }
    }
}

impl Output {
    /// Runs `get_messages` on the AST of every source that has one, tags
    /// each message with the source's path, and appends them all, in source
    /// order, to the errors and warnings. Without sources nothing changes;
    /// where an analysis fails nothing changes and its error is returned.
    pub fn preprocess_ast<F: Fn(&serde_json::Value) -> Result<Vec<Diagnostic>, String>>(
        &mut self,
        get_messages: &F,
    ) -> (r: Result<(), String>)
        requires
            forall|a: &serde_json::Value| get_messages.requires((a,)),
        ensures
            final(self).contracts == old(self).contracts,
            final(self).sources == old(self).sources,
            final(self).version == old(self).version,
            final(self).long_version == old(self).long_version,
            final(self).zk_version == old(self).zk_version,
            match old(self).sources {
                None => r is Ok && final(self).errors == old(self).errors,
                Some(srcs) => match r {
                    Ok(()) => exists|found: Seq<Vec<Diagnostic>>|
                        {
                            &&& found.len() == srcs@.len()
                            &&& forall|k: int|
                                0 <= k < srcs@.len() ==> analysis_returned(
                                    *get_messages,
                                    #[trigger] srcs@[k].1,
                                    Ok(found[k]),
                                )
                            &&& final(self).errors is Some
                            &&& errors_view(final(self).errors) == errors_view(old(self).errors)
                                + tagged_messages(srcs@, found, srcs@.len() as int)
                        },
                    Err(e) => *final(self) == *old(self) && exists|k: int|
                        0 <= k < srcs@.len() && srcs@[k].1.ast is Some && analysis_returned(
                            *get_messages,
                            #[trigger] srcs@[k].1,
                            Err(e),
                        ),
                },
            },
    {
        let sources = match &self.sources {
            Some(s) => s,
            None => return Ok(()),
        };
        let mut messages: Vec<Diagnostic> = Vec::new();
        let ghost mut found: Seq<Vec<Diagnostic>> = Seq::empty();
        let mut k: usize = 0;
        while k < sources.len()
            invariant
                *self == *old(self),
                self.sources == Some(*sources),
                k <= sources@.len(),
                found.len() == k,
                forall|a: &serde_json::Value| get_messages.requires((a,)),
                forall|l: int|
                    0 <= l < k ==> analysis_returned(
                        *get_messages,
                        #[trigger] sources@[l].1,
                        Ok(found[l]),
                    ),
                messages@.map_values(|d: Diagnostic| diag_view(d)) == tagged_messages(
                    sources@,
                    found,
                    k as int,
                ),
            decreases sources@.len() - k,
        {
            let (path, source) = &sources[k];
            match &source.ast {
                Some(ast) => {
                    let found_here = match get_messages(ast) {
                        Ok(v) => v,
                        Err(e) => {
                            proof {
                                assert(analysis_returned(*get_messages, sources@[k as int].1, Err(e)));
                                let srcs = old(self).sources->Some_0;
                                assert(srcs@[k as int].1.ast is Some);
                                assert(analysis_returned(*get_messages, srcs@[k as int].1, Err(e)));
                            }
                            return Err(e);
                        },
                    };
                    let ghost base = messages@.map_values(|d: Diagnostic| diag_view(d));
                    let ghost old_found = found;
                    let mut m: usize = 0;
                    while m < found_here.len()
                        invariant
                            m <= found_here@.len(),
                            messages@.map_values(|d: Diagnostic| diag_view(d)) == base
                                + found_here@.take(m as int).map_values(
                                |d: Diagnostic| tagged_view(d, path@),
                            ),
                        decreases found_here@.len() - m,
                    {
                        let d = &found_here[m];
                        let mut tagged = Diagnostic {
                            severity: d.severity.clone(),
                            message: d.message.clone(),
                            formatted_message: d.formatted_message.clone(),
                        };
                        tagged.push_contract_path(path);
                        let ghost before_push = messages@;
                        let ghost tv = diag_view(tagged);
                        assert(tv == tagged_view(found_here@[m as int], path@));
                        messages.push(tagged);
                        proof {
                            assert(messages@.map_values(|d: Diagnostic| diag_view(d)) =~= before_push.map_values(
                                |d: Diagnostic| diag_view(d),
                            ).push(tv));
                            assert(found_here@.take(m + 1) =~= found_here@.take(m as int).push(
                                found_here@[m as int],
                            ));
                            assert(messages@.map_values(|d: Diagnostic| diag_view(d)) =~= base
                                + found_here@.take(m + 1).map_values(
                                |d: Diagnostic| tagged_view(d, path@),
                            ));
                        }
                        m = m + 1;
                    }
                    proof {
                        assert(found_here@.take(found_here@.len() as int) =~= found_here@);
                        found = found.push(found_here);
                        assert(found.drop_last() =~= old_found);
                        assert(base == tagged_messages(sources@, old_found, k as int));
                        assert(sources@[k as int].1.ast is Some);
                        assert(messages@.map_values(|d: Diagnostic| diag_view(d)) =~= base
                            + found_here@.map_values(|d: Diagnostic| tagged_view(d, path@)));
                        assert(tagged_messages(sources@, found, k as int) == tagged_messages(
                            sources@,
                            found.drop_last(),
                            k as int,
                        )) by {
                            lemma_tagged_stable(sources@, found.drop_last(), found, k as int);
                        }
                        assert(found[k as int] == found_here);
                        assert(*path == sources@[k as int].0);
                        assert(found_here@.map_values(|d: Diagnostic| tagged_view(d, path@))
                            =~= found_here@.map_values(
                            |d: Diagnostic| tagged_view(d, sources@[k as int].0@),
                        ));
                        assert(messages@.map_values(|d: Diagnostic| diag_view(d)) =~= tagged_messages(
                            sources@,
                            found,
                            k + 1,
                        ));
                    }
                },
                None => {
                    proof {
                        let ghost prev = found;
                        found = found.push(vstd::pervasive::arbitrary());
                        lemma_tagged_stable(sources@, prev, found, k as int);
                    }
                },
            }
            k = k + 1;
        }
        let ghost old_view = errors_view(self.errors);
        let mut errors = match self.errors.take() {
            Some(e) => e,
            None => Vec::new(),
        };
        proof {
            assert(errors@.map_values(|d: Diagnostic| diag_view(d)) =~= old_view);
        }
        errors.append(&mut messages);
        proof {
            assert(errors@.map_values(|d: Diagnostic| diag_view(d)) =~= old_view + tagged_messages(
                sources@,
                found,
                sources@.len() as int,
            ));
        }
        self.errors = Some(errors);
        Ok(())
    }
}

proof fn lemma_tagged_stable(
    sources: Seq<(String, Source)>,
    a: Seq<Vec<Diagnostic>>,
    b: Seq<Vec<Diagnostic>>,
    n: int,
)
    requires
        n <= a.len(),
        n <= b.len(),
        forall|l: int| 0 <= l < n ==> a[l] == b[l],
    ensures
        tagged_messages(sources, a, n) == tagged_messages(sources, b, n),
    decreases n,
{
    if n > 0 {
        lemma_tagged_stable(sources, a, b, n - 1);
    }
}

} // verus!
