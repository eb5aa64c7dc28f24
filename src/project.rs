//! The project that the code generator consumes, and its assembly from the
//! `solc --standard-json` output.

use std::collections::BTreeMap;
use vstd::prelude::*;
use crate::assembly::Assembly;
use crate::linking::{level_resolved, level_tables, UnresolvedDependency};
use crate::output::{
    assembly_of, file_resolved, full_path_of, hash_table, make_full_path, names_failure,
    Contract, Diagnostic, FileContracts, Output,
};

verus! {

/// Declares semver::Version, which the library carries into the project.
#[verifier::external_type_specification]
#[verifier::external_body]
pub struct ExVersion(semver::Version);

/// Relies on semver::Version's derived Clone: the copy equals the original.
#[verifier::external_body]
fn clone_version(v: &semver::Version) -> (r: semver::Version)
    ensures
        r == *v,
{
    v.clone()
}

/// The compiler pipeline that produced the output.
pub enum Pipeline {
    /// Through the Yul intermediate representation.
    Yul,
    /// Through the legacy EVM assembly.
    EVMLA,
}

/// The source of a project contract, by pipeline.
pub enum ProjectContractSource<O> {
    /// The Yul text and the object parsed from it.
    Yul { source: String, object: O },
    /// The dependency-resolved assembly.
    EVMLA { assembly: Assembly },
}

/// A contract of the project.
pub struct ProjectContract<O> {
    /// The fully qualified path.
    pub path: String,
    pub source: ProjectContractSource<O>,
    /// The ABI, as the output had it.
    pub abi: Option<serde_json::Value>,
    /// The storage layout, as the output had it.
    pub storage_layout: Option<serde_json::Value>,
}

/// The project: the compiler version, the contracts in the order they were
/// added, a later one with a path shadowing an earlier one, and the library
/// linking table.
pub struct Project<O> {
    pub version: semver::Version,
    pub contracts: Vec<ProjectContract<O>>,
    pub libraries: BTreeMap<String, BTreeMap<String, String>>,
}

/// Why a project could not be assembled.
pub enum ProjectError {
    /// The output holds no contracts; its diagnostics, if any, explain why.
    MissingContracts { errors: Option<Vec<Diagnostic>> },
    /// A data-section entry's content hash matches no contract.
    UnresolvedDependency(UnresolvedDependency),
    /// A contract's Yul text did not parse.
    Parse { path: String, details: String },
}

/// Whether a contract yields a project contract under `pipeline`: an
/// assembly for the legacy pipeline, a non-empty Yul text for Yul.
pub open spec fn yields_source(c: Contract, pipeline: Pipeline) -> bool {
    match pipeline {
        Pipeline::EVMLA => assembly_of(c) is Some,
        Pipeline::Yul => c.ir_optimized matches Some(ir) && ir@.len() > 0,
    }
}

/// The contracts among the first `m` of a file that yield a project
/// contract, each with its fully qualified path.
pub open spec fn file_extracted(
    file: Seq<char>,
    cs: Seq<(String, Contract)>,
    m: int,
    pipeline: Pipeline,
) -> Seq<(Seq<char>, Contract)>
    decreases m,
{
    if m <= 0 {
        Seq::empty()
    } else {
        let prev = file_extracted(file, cs, m - 1, pipeline);
        if yields_source(cs[m - 1].1, pipeline) {
            prev.push((full_path_of(file, cs[m - 1].0@), cs[m - 1].1))
        } else {
            prev
        }
    }
}

/// The same over the first `n` files.
pub open spec fn files_extracted(
    files: Seq<(String, FileContracts)>,
    n: int,
    pipeline: Pipeline,
) -> Seq<(Seq<char>, Contract)>
    decreases n,
{
    if n <= 0 {
        Seq::empty()
    } else {
        files_extracted(files, n - 1, pipeline) + file_extracted(
            files[n - 1].0@,
            files[n - 1].1@,
            files[n - 1].1@.len() as int,
            pipeline,
        )
    }
}

/// The contracts of an output that yield a project contract, in order.
pub open spec fn extracted(o: Output, pipeline: Pipeline) -> Seq<(Seq<char>, Contract)> {
    match o.contracts {
        Some(f) => files_extracted(f@, f@.len() as int, pipeline),
        None => Seq::empty(),
    }
}

/// `pc` is what the output contract `c` at `path` yields under `pipeline`:
/// the resolved assembly against `table`, or the Yul text with an object
/// that `parse` returned for it.
pub open spec fn yielded<O, P: Fn(&String) -> Result<O, String>>(
    pc: ProjectContract<O>,
    path: Seq<char>,
    c: Contract,
    pipeline: Pipeline,
    table: Seq<(Seq<char>, Seq<char>)>,
    parse: P,
) -> bool {
    &&& pc.path@ == path
    &&& pc.abi == c.abi
    &&& pc.storage_layout == c.storage_layout
    &&& match (pipeline, pc.source) {
        (Pipeline::EVMLA, ProjectContractSource::EVMLA { assembly }) => match (
            assembly_of(c),
            level_tables(assembly_of(c)->Some_0, table),
        ) {
            (Some(a), Ok((dp, rp))) => level_resolved(a, assembly, path, dp, rp),
            _ => false,
        },
        (Pipeline::Yul, ProjectContractSource::Yul { source, object }) => {
            &&& c.ir_optimized == Some(source)
            &&& parse.ensures((&source,), Ok::<O, String>(object))
        },
        _ => false,
    }
}

fn clone_diagnostics(v: &Vec<Diagnostic>) -> (r: Vec<Diagnostic>)
    ensures
        r@ == v@,
{
    let mut r: Vec<Diagnostic> = Vec::new();
    let mut i: usize = 0;
    while i < v.len()
        invariant
            i <= v@.len(),
            r@ == v@.take(i as int),
        decreases v@.len() - i,
    {
        let d = &v[i];
        r.push(
            Diagnostic {
                severity: d.severity.clone(),
                message: d.message.clone(),
                formatted_message: d.formatted_message.clone(),
            },
        );
        proof {
            assert(r@ =~= v@.take(i + 1));
        }
        i = i + 1;
    }
    proof {
        assert(v@.take(v@.len() as int) =~= v@);
    }
    r
}

impl<O> Project<O> {
    /// The contract at `path`: the last one added with it.
    pub fn get(&self, path: &String) -> (r: Option<&ProjectContract<O>>)
        ensures
            match r {
                Some(pc) => exists|k: int|
                    0 <= k < self.contracts@.len() && self.contracts@[k] == *pc && pc.path@ == path@
                        && forall|l: int| k < l < self.contracts@.len() ==> (
                        #[trigger] self.contracts@[l]).path@ != path@,
                None => forall|k: int|
                    0 <= k < self.contracts@.len() ==> (#[trigger] self.contracts@[k]).path@
                        != path@,
            },
    {
        let mut i: usize = self.contracts.len();
        while i > 0
            invariant
                i <= self.contracts@.len(),
                forall|l: int| i <= l < self.contracts@.len() ==> (
                #[trigger] self.contracts@[l]).path@ != path@,
            decreases i,
        {
            if self.contracts[i - 1].path == *path {
                return Some(&self.contracts[i - 1]);
            }
            i = i - 1;
        }
        None
    }
}

/// The two copies of the diagnostics agree.
pub open spec fn same_errors(a: Option<Vec<Diagnostic>>, b: Option<Vec<Diagnostic>>) -> bool {
    match (a, b) {
        (Some(x), Some(y)) => x@ == y@,
        (None, None) => true,
        _ => false,
    }
}

/// The contracts of the first `i` files and the first `j` of file `i` that
/// yield a project contract.
pub open spec fn extracted_upto(
    files: Seq<(String, FileContracts)>,
    i: int,
    j: int,
    pipeline: Pipeline,
) -> Seq<(Seq<char>, Contract)> {
    files_extracted(files, i, pipeline) + file_extracted(files[i].0@, files[i].1@, j, pipeline)
}

impl Output {
    /// Assembles the project: under the legacy pipeline resolves the
    /// dependencies first; then each contract that has an assembly (legacy)
    /// or a non-empty Yul text (Yul) becomes a project contract at its fully
    /// qualified path, in file and contract order. The Yul text and the
    /// assembly move out of the output into the project; the Yul text is
    /// parsed with `parse`.
    pub fn try_to_project<O, P: Fn(&String) -> Result<O, String>>(
        &mut self,
        libraries: BTreeMap<String, BTreeMap<String, String>>,
        pipeline: Pipeline,
        version: &semver::Version,
        parse: &P,
    ) -> (r: Result<Project<O>, ProjectError>)
        requires
            forall|s: &String| parse.requires((s,)),
        ensures
            match old(self).contracts {
                None => r matches Err(ProjectError::MissingContracts { errors }) && same_errors(
                    errors,
                    old(self).errors,
                ),
                Some(of) => match r {
                    Ok(p) => {
                        let ex = extracted(*old(self), pipeline);
                        &&& p.version == *version
                        &&& p.libraries == libraries
                        &&& p.contracts@.len() == ex.len()
                        &&& forall|k: int|
                            0 <= k < ex.len() ==> yielded(
                                #[trigger] p.contracts@[k],
                                ex[k].0,
                                ex[k].1,
                                pipeline,
                                hash_table(*old(self)),
                                *parse,
                            )
                    },
                    Err(ProjectError::UnresolvedDependency(e)) => pipeline is EVMLA && names_failure(
                        of@,
                        e,
                        hash_table(*old(self)),
                    ),
                    Err(ProjectError::Parse { path, details }) => {
                        let ex = extracted(*old(self), pipeline);
                        &&& pipeline is Yul
                        &&& exists|k: int|
                            0 <= k < ex.len() && (#[trigger] ex[k]).0 == path@
                                && parse.ensures(
                                (&ex[k].1.ir_optimized->Some_0,),
                                Err::<O, String>(details),
                            )
                    },
                    _ => false,
                },
            },
    {
        let ghost table = hash_table(*self);
        let ghost before = *self;
        match pipeline {
            Pipeline::EVMLA => match self.preprocess_dependencies() {
                Err(e) => return Err(ProjectError::UnresolvedDependency(e)),
                Ok(()) => {},
            },
            Pipeline::Yul => {},
        }
        let mut files = match self.contracts.take() {
            Some(f) => f,
            None => {
                let errors = match &self.errors {
                    Some(e) => Some(clone_diagnostics(e)),
                    None => None,
                };
                return Err(ProjectError::MissingContracts { errors });
            },
        };
        let ghost of = before.contracts->Some_0@;
        let ghost mid = files@;
        proof {
            if pipeline is Yul {
                assert(mid == of);
            }
        }
        let mut contracts: Vec<ProjectContract<O>> = Vec::new();
        let mut i: usize = 0;
        while i < files.len()
            invariant
                i <= files@.len(),
                files@.len() == mid.len(),
                mid.len() == of.len(),
                before == *old(self),
                before.contracts == Some(before.contracts->Some_0),
                of == before.contracts->Some_0@,
                table == hash_table(before),
                forall|s: &String| parse.requires((s,)),
                pipeline is Yul ==> mid == of,
                pipeline is EVMLA ==> forall|k: int|
                    0 <= k < of.len() ==> file_resolved(#[trigger] of[k], mid[k], table),
                forall|k: int| i <= k < mid.len() ==> #[trigger] files@[k] == mid[k],
                contracts@.len() == files_extracted(of, i as int, pipeline).len(),
                forall|k: int|
                    0 <= k < contracts@.len() ==> yielded(
                        #[trigger] contracts@[k],
                        files_extracted(of, i as int, pipeline)[k].0,
                        files_extracted(of, i as int, pipeline)[k].1,
                        pipeline,
                        table,
                        *parse,
                    ),
            decreases files@.len() - i,
        {
            let ghost old_files = files@;
            let (path, mut cs) = files.remove(i);
            proof {
                assert forall|k: int| i <= k < files@.len() implies #[trigger] files@[k] == mid[k + 1] by {
                    assert(files@[k] == old_files[k + 1]);
                }
            }
            let ghost ocs = of[i as int].1@;
            let ghost mcs = mid[i as int].1@;
            proof {
                assert(path == of[i as int].0);
            }
            let mut j: usize = 0;
            while j < cs.len()
                invariant
                    i < mid.len(),
                    before == *old(self),
                before.contracts == Some(before.contracts->Some_0),
                    of == before.contracts->Some_0@,
                    files@.len() + 1 == mid.len(),
                    forall|k: int| i <= k < files@.len() ==> #[trigger] files@[k] == mid[k + 1],
                    j <= cs@.len(),
                    cs@.len() == mcs.len(),
                    mcs.len() == ocs.len(),
                    ocs == of[i as int].1@,
                    mcs == mid[i as int].1@,
                    path == of[i as int].0,
                    mid.len() == of.len(),
                    table == hash_table(before),
                    forall|s: &String| parse.requires((s,)),
                    pipeline is Yul ==> mcs == ocs,
                    pipeline is EVMLA ==> file_resolved(of[i as int], mid[i as int], table),
                    forall|l: int| j <= l < mcs.len() ==> #[trigger] cs@[l] == mcs[l],
                    contracts@.len() == extracted_upto(of, i as int, j as int, pipeline).len(),
                    forall|k: int|
                        0 <= k < contracts@.len() ==> yielded(
                            #[trigger] contracts@[k],
                            extracted_upto(of, i as int, j as int, pipeline)[k].0,
                            extracted_upto(of, i as int, j as int, pipeline)[k].1,
                            pipeline,
                            table,
                            *parse,
                        ),
                decreases cs@.len() - j,
            {
                let ghost done = extracted_upto(of, i as int, j as int, pipeline);
                let ghost next = extracted_upto(of, i as int, j + 1, pipeline);
                let (name, mut c) = cs.remove(j);
                proof {
                    assert(name == ocs[j as int].0);
                }
                let full_path = make_full_path(&path, &name);
                let mut produced = false;
                match pipeline {
                    Pipeline::Yul => match c.ir_optimized.take() {
                        Some(ir) => {
                            if ir.as_str().is_empty() {
                            } else {
                                match parse(&ir) {
                                    Ok(object) => {
                                        let abi = c.abi.take();
                                        let storage_layout = c.storage_layout.take();
                                        contracts.push(
                                            ProjectContract {
                                                path: full_path,
                                                source: ProjectContractSource::Yul {
                                                    source: ir,
                                                    object,
                                                },
                                                abi,
                                                storage_layout,
                                            },
                                        );
                                        produced = true;
                                    },
                                    Err(details) => {
                                        proof {
                                            lemma_extracted_prefix(of, i as int, j + 1, pipeline);
                                            lemma_extracted_step(of, i as int, j as int, pipeline);
                                            assert(ocs[j as int].1.ir_optimized == Some(ir));
                                            assert(yields_source(ocs[j as int].1, pipeline));
                                            assert(next[done.len() as int].0 == full_path@);
                                            assert(files_extracted(of, of.len() as int, pipeline)[done.len() as int] == next[done.len() as int]);
                                        }
                                        cs.insert(j, (name, c));
                                        files.insert(i, (path, cs));
                                        self.contracts = Some(files);
                                        proof {
                                            let ex = extracted(before, pipeline);
                                            let k = done.len() as int;
                                            assert(ex[k].0 == full_path@);
                                            assert(ex[k].1.ir_optimized->Some_0 == ir);
                                        }
                                        return Err(ProjectError::Parse { path: full_path, details });
                                    },
                                }
                            }
                        },
                        None => {},
                    },
                    Pipeline::EVMLA => match c.evm.take() {
                        Some(mut evm) => {
                            match evm.assembly.take() {
                                Some(assembly) => {
                                    let abi = c.abi.take();
                                    let storage_layout = c.storage_layout.take();
                                    contracts.push(
                                        ProjectContract {
                                            path: full_path,
                                            source: ProjectContractSource::EVMLA { assembly },
                                            abi,
                                            storage_layout,
                                        },
                                    );
                                    produced = true;
                                },
                                None => {},
                            }
                            c.evm = Some(evm);
                        },
                        None => {},
                    },
                }
                proof {
                    lemma_extracted_step(of, i as int, j as int, pipeline);
                    if produced {
                        assert(next == done.push((full_path@, ocs[j as int].1)));
                    } else {
                        assert(next == done);
                    }
                    assert forall|k: int| 0 <= k < contracts@.len() implies yielded(
                        #[trigger] contracts@[k],
                        next[k].0,
                        next[k].1,
                        pipeline,
                        table,
                        *parse,
                    ) by {
                        if k < done.len() {
                            assert(next[k] == done[k]);
                        }
                    }
                }
                cs.insert(j, (name, c));
                j = j + 1;
            }
            proof {
                lemma_extracted_file_done(of, i as int, pipeline);
            }
            files.insert(i, (path, cs));
            i = i + 1;
        }
        self.contracts = Some(files);
        Ok(Project { version: clone_version(version), contracts, libraries })
    }
}

proof fn lemma_extracted_step(
    files: Seq<(String, FileContracts)>,
    i: int,
    j: int,
    pipeline: Pipeline,
)
    requires
        0 <= i < files.len(),
        0 <= j < files[i].1@.len(),
    ensures
        extracted_upto(files, i, j + 1, pipeline) == if yields_source(files[i].1@[j].1, pipeline) {
            extracted_upto(files, i, j, pipeline).push(
                (full_path_of(files[i].0@, files[i].1@[j].0@), files[i].1@[j].1),
            )
        } else {
            extracted_upto(files, i, j, pipeline)
        },
{
    let a = files_extracted(files, i, pipeline);
    let b = file_extracted(files[i].0@, files[i].1@, j, pipeline);
    let c = (full_path_of(files[i].0@, files[i].1@[j].0@), files[i].1@[j].1);
    assert((a + b).push(c) =~= a + b.push(c));
}

spec fn is_prefix<A>(a: Seq<A>, b: Seq<A>) -> bool {
    a.len() <= b.len() && forall|k: int| 0 <= k < a.len() ==> #[trigger] b[k] == a[k]
}

proof fn lemma_file_prefix(
    file: Seq<char>,
    cs: Seq<(String, Contract)>,
    j: int,
    m: int,
    pipeline: Pipeline,
)
    requires
        0 <= j <= m,
    ensures
        is_prefix(file_extracted(file, cs, j, pipeline), file_extracted(file, cs, m, pipeline)),
    decreases m - j,
{
    if j < m {
        lemma_file_prefix(file, cs, j, m - 1, pipeline);
    }
}

proof fn lemma_files_prefix(files: Seq<(String, FileContracts)>, i: int, n: int, pipeline: Pipeline)
    requires
        0 <= i <= n,
    ensures
        is_prefix(files_extracted(files, i, pipeline), files_extracted(files, n, pipeline)),
    decreases n - i,
{
    if i < n {
        lemma_files_prefix(files, i, n - 1, pipeline);
    }
}

proof fn lemma_extracted_prefix(
    files: Seq<(String, FileContracts)>,
    i: int,
    j: int,
    pipeline: Pipeline,
)
    requires
        0 <= i < files.len(),
        0 <= j <= files[i].1@.len(),
    ensures
        is_prefix(
            extracted_upto(files, i, j, pipeline),
            files_extracted(files, files.len() as int, pipeline),
        ),
{
    let len = files[i].1@.len() as int;
    lemma_file_prefix(files[i].0@, files[i].1@, j, len, pipeline);
    lemma_files_prefix(files, i + 1, files.len() as int, pipeline);
    let a = files_extracted(files, i, pipeline);
    let up = extracted_upto(files, i, j, pipeline);
    let whole = files_extracted(files, i + 1, pipeline);
    assert forall|k: int| 0 <= k < up.len() implies #[trigger] whole[k] == up[k] by {
        if k >= a.len() {
        }
    }
}

proof fn lemma_extracted_file_done(files: Seq<(String, FileContracts)>, i: int, pipeline: Pipeline)
    requires
        0 <= i < files.len(),
    ensures
        extracted_upto(files, i, files[i].1@.len() as int, pipeline) == files_extracted(files, i + 1, pipeline),
{
}

} // verus!
