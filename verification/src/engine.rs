//! The detection engine: wires the scanner, the import extractor, the
//! candidate evaluator and the package resolver together.  Scanning and
//! reading are driven from outside; the engine turns source texts and
//! local-package names into the evaluated candidate set, and its
//! resolver turns fetched index pages into pinned specifiers.
use vstd::prelude::*;

use crate::dependency::{str_view, DepModel, Dependency};
use crate::evaluator::{dep_view, eval_spec, DependencyEvaluator, EvalModel};
use crate::finder::{local_package_names, PythonFileFinder};
use crate::irregulars::{builtin_irregulars, pair_view};
use crate::resolver::PackageResolver;
use crate::stdlib::stdlib_names;
use crate::strutil::{dedup, dedup_strings, find_from};

verus! {

/// What a detection run can fail with.
#[derive(Debug, PartialEq)]
pub enum DetectEngineError {
    Evaluation,
    FileFinding,
    FileReading,
    Parsing,
    Resolver,
}

impl DetectEngineError {
    /// A short description of the failure.
    pub fn message(&self) -> (r: String)
        ensures
            r@ == match self {
                DetectEngineError::Evaluation => "problem evaluating imports"@,
                DetectEngineError::FileFinding => "problem reading packages"@,
                DetectEngineError::FileReading => "problem reading python file"@,
                DetectEngineError::Parsing => "problem parsing python code"@,
                DetectEngineError::Resolver => "problem resolving packages on package index"@,
            },
    {
        match self {
            DetectEngineError::Evaluation => String::from_str("problem evaluating imports"),
            DetectEngineError::FileFinding => String::from_str("problem reading packages"),
            DetectEngineError::FileReading => String::from_str("problem reading python file"),
            DetectEngineError::Parsing => String::from_str("problem parsing python code"),
            DetectEngineError::Resolver => String::from_str(
                "problem resolving packages on package index",
            ),
        }
    }
}

/// The caller-supplied options of an engine: extra exclusions, extra
/// indexes, an optional preferred index, remap overrides.
#[derive(Debug, PartialEq)]
pub struct EngineOptions {
    pub exclude_dirs: Vec<String>,
    pub extra_indexes: Vec<String>,
    pub preferred_index: Option<String>,
    pub extras_to_remap: Vec<(String, String)>,
}

/// The first dot-separated segment of an import name: only top-level
/// names matter for dependency detection.
pub open spec fn top_level_name(name: Seq<char>) -> Seq<char> {
    name.take(find_from(name, 0, '.'))
}

/// Top-level truncation, as a function value.
pub open spec fn top_fn() -> spec_fn(Seq<char>) -> Seq<char> {
    |n: Seq<char>| top_level_name(n)
}

/// Whether every source text parses as Python.
pub open spec fn all_parse(sources: Seq<Seq<char>>) -> bool {
    forall|i: int|
        0 <= i < sources.len() ==> crate::parser::imports_of(#[trigger] sources[i]) is Some
}

/// The candidate names a list of source texts contributes, before
/// deduplication: every import's top-level name, in document order,
/// sources in order.  A source that does not parse contributes
/// nothing here; `all_parse` is accounted separately.
pub open spec fn raw_candidates(sources: Seq<Seq<char>>) -> Seq<Seq<char>>
    decreases sources.len(),
{
    if sources.len() == 0 {
        Seq::empty()
    } else {
        raw_candidates(sources.drop_last()) + (match crate::parser::imports_of(sources.last()) {
            Some(ns) => ns.map_values(top_fn()),
            None => Seq::empty(),
        })
    }
}

/// The engine: the already-declared dependencies, the scanner, the
/// evaluator and the resolver.
pub struct DetectEngine {
    existing_deps: Vec<Dependency>,
    finder: PythonFileFinder,
    evaluator: DependencyEvaluator,
    resolver: PackageResolver,
}

/// The mathematical state of an engine.
#[verifier::ext_equal]
pub struct EngineModel {
    pub existing: Seq<DepModel>,
    pub excluded: Seq<Seq<char>>,
    pub eval: EvalModel,
    pub indexes: Seq<Seq<char>>,
}

impl View for DetectEngine {
    type V = EngineModel;

    closed spec fn view(&self) -> EngineModel {
        EngineModel {
            existing: self.existing_deps@.map_values(dep_view()),
            excluded: self.finder@,
            eval: self.evaluator@,
            indexes: self.resolver@,
        }
    }
}

impl DetectEngine {
    /// Builds an engine.  The scanner starts from its defaults and adds
    /// the built-in project exclusions, then the caller's; the resolver
    /// and the evaluator are built from the options.
    pub fn new(existing_deps: Vec<Dependency>, options: EngineOptions) -> (r: Self)
        ensures
            r@.existing == existing_deps@.map_values(dep_view()),
            r@.excluded == seq!["venv"@, ".git"@, ".venv"@, ".git"@, "target"@]
                + options.exclude_dirs@.map_values(str_view()),
            r@.eval.stdlib == stdlib_names(),
            r@.eval.remap == options.extras_to_remap@.map_values(pair_view())
                + builtin_irregulars(),
            r@.indexes == (match options.preferred_index {
                Some(p) => seq![p@],
                None => Seq::<Seq<char>>::empty(),
            }) + seq!["https://pypi.org/simple"@] + options.extra_indexes@.map_values(str_view()),
    {
        let ghost opts = options;
        let EngineOptions { exclude_dirs, extra_indexes, preferred_index, extras_to_remap } =
            options;
        let mut excluded: Vec<String> = Vec::new();
        excluded.push(String::from_str(".venv"));
        excluded.push(String::from_str(".git"));
        excluded.push(String::from_str("target"));
        let mut more = exclude_dirs;
        excluded.append(&mut more);
        let finder = PythonFileFinder::new().exclude_dirs(excluded);
        let resolver = PackageResolver::new(extra_indexes, preferred_index);
        let evaluator = DependencyEvaluator::new(extras_to_remap);
        let r = DetectEngine { existing_deps, finder, evaluator, resolver };
        proof {
            assert(r@.excluded =~= seq!["venv"@, ".git"@, ".venv"@, ".git"@, "target"@]
                + opts.exclude_dirs@.map_values(str_view()));
            assert(r@.indexes =~= (match opts.preferred_index {
                Some(p) => seq![p@],
                None => Seq::<Seq<char>>::empty(),
            }) + seq!["https://pypi.org/simple"@] + opts.extra_indexes@.map_values(str_view()));
        }
        r
    }

    /// The resolver, for driving the per-candidate resolution loop.
    /// It is well formed whenever the engine's index list is non-empty,
    /// which `new` always ensures.
    pub fn resolver(&self) -> (r: &PackageResolver)
        ensures
            r@ == self@.indexes,
    {
        &self.resolver
    }

    /// Finds the Python source files under `path`; every returned path
    /// carries the `py` extension.  Nothing comes back when traversal
    /// fails.
    pub fn find_files(&self, path: &str) -> (r: Option<Vec<String>>)
        ensures
            match r {
                Some(files) => forall|i: int|
                    0 <= i < files@.len() ==> crate::finder::file_ext((#[trigger] files@[i])@)
                        == Some("py"@),
                None => true,
            },
    {
        self.finder.find_files(path)
    }

    /// The local package names under `path`: the stem of every kept
    /// entry of the tree, files and directories alike.  Nothing comes
    /// back when traversal fails.
    pub fn get_local_packages(&self, path: &str) -> (r: Option<Vec<String>>) {
        match self.finder.find_local_packages(path) {
            Some(paths) => Some(local_package_names(&paths)),
            None => None,
        }
    }

    /// Turns source texts into the evaluated candidate set: every
    /// import's top-level name, deduplicated, filtered and remapped by
    /// the evaluator against the already-declared dependencies and
    /// `local_packages`.  The first source that is not valid Python
    /// aborts the run with a parse error.
    pub fn evaluate_sources(&self, sources: &Vec<String>, local_packages: &Vec<String>) -> (r:
        Result<Vec<Dependency>, DetectEngineError>)
        ensures
            ({
                let sv = sources@.map_values(str_view());
                match r {
                    Ok(deps) => all_parse(sv) && deps@.map_values(dep_view()) == eval_spec(
                        self@.eval,
                        dedup(raw_candidates(sv)),
                        self@.existing,
                        local_packages@.map_values(str_view()),
                    ),
                    Err(e) => e == DetectEngineError::Parsing && !all_parse(sv),
                }
            }),
    {
        let ghost sv = sources@.map_values(str_view());
        let mut raw: Vec<String> = Vec::new();
        proof {
            assert(sv.take(0) =~= Seq::<Seq<char>>::empty());
        }
        let mut i: usize = 0;
        while i < sources.len()
            invariant
                sv == sources@.map_values(str_view()),
                0 <= i <= sources.len(),
                raw@.map_values(str_view()) == raw_candidates(sv.take(i as int)),
                forall|j: int|
                    0 <= j < i ==> crate::parser::imports_of(#[trigger] sv[j]) is Some,
            decreases sources.len() - i,
        {
            proof {
                assert(sv.take(i + 1).drop_last() =~= sv.take(i as int));
                assert(sv.take(i + 1).last() == sv[i as int]);
                assert(sv[i as int] == sources@[i as int]@);
            }
            match crate::parser::extract_dependencies(sources[i].as_str()) {
                Ok(names) => {
                    let ghost nv = names@.map_values(str_view());
                    let ghost before = raw@.map_values(str_view());
                    let mut j: usize = 0;
                    while j < names.len()
                        invariant
                            nv == names@.map_values(str_view()),
                            0 <= j <= names.len(),
                            raw@.map_values(str_view()) == before + nv.map_values(
                                top_fn(),
                            ).take(j as int),
                        decreases names.len() - j,
                    {
                        let ghost prior = raw@.map_values(str_view());
                        let name = &names[j];
                        let n = name.as_str().unicode_len();
                        let mut k: usize = 0;
                        while k < n && name.as_str().get_char(k) != '.'
                            invariant
                                n == name@.len(),
                                0 <= k <= n,
                                forall|t: int| 0 <= t < k ==> name@[t] != '.',
                            decreases n - k,
                        {
                            k += 1;
                        }
                        proof {
                            crate::strutil::lemma_find_from_determined(name@, 0, k as int, '.');
                        }
                        let top = String::from_str(name.as_str().substring_char(0, k));
                        raw.push(top);
                        proof {
                            assert(nv[j as int] == names@[j as int]@);
                            assert(nv.map_values(top_fn())[j as int] == top_level_name(
                                nv[j as int]));
                            assert(raw@.map_values(str_view()) =~= prior.push(
                                top_level_name(nv[j as int])));
                            assert(nv.map_values(top_fn()).take(j + 1) =~= nv.map_values(
                                top_fn(),
                            ).take(j as int).push(nv.map_values(top_fn())[j as int]));
                            assert(raw@.map_values(str_view()) =~= before + nv.map_values(
                                top_fn(),
                            ).take(j + 1));
                        }
                        j += 1;
                    }
                    proof {
                        assert(nv.map_values(top_fn()).take(names.len() as int) =~= nv.map_values(
                            top_fn()));
                        assert(raw@.map_values(str_view()) =~= raw_candidates(sv.take(i + 1)));
                    }
                },
                Err(e) => {
                    proof {
                        assert(crate::parser::imports_of(sv[i as int]) is None);
                        assert(!all_parse(sv));
                    }
                    return Err(e);
                },
            }
            i += 1;
        }
        proof {
            assert(sv.take(sources.len() as int) =~= sv);
        }
        let candidates = dedup_strings(&raw);
        let existing = self.existing_deps.clone();
        proof {
            assert(existing@.map_values(dep_view()) =~= self.existing_deps@.map_values(
                dep_view())) by {
                assert forall|t: int| 0 <= t < existing@.len() implies existing@.map_values(
                    dep_view(),
                )[t] == self.existing_deps@.map_values(dep_view())[t] by {
                    assert(vstd::pervasive::cloned::<Dependency>(
                        self.existing_deps@[t],
                        existing@[t],
                    ));
                }
            }
        }
        let locals = local_packages.clone();
        proof {
            assert(locals@.map_values(str_view()) =~= local_packages@.map_values(str_view()))
                by {
                assert forall|t: int| 0 <= t < locals@.len() implies locals@.map_values(
                    str_view(),
                )[t] == local_packages@.map_values(str_view())[t] by {
                    assert(vstd::pervasive::cloned::<String>(local_packages@[t], locals@[t]));
                }
            }
        }
        Ok(self.evaluator.evaluate(candidates, existing, locals))
    }
}

} // verus!
