//! Candidate evaluation: filters extracted import names against the
//! standard-library set, the local-package set and the already-declared
//! dependencies, remapping irregular names in between.  The order is
//! fixed: the standard-library and local exclusions test the name as
//! imported, remapping comes next, and the already-declared filter runs
//! last, on the remapped name.
use vstd::prelude::*;
use vstd::std_specs::cmp::PartialEqSpec;

use crate::dependency::{parse_spec, str_view, DepModel, Dependency};
use crate::irregulars::{builtin_irregulars, pair_view, python_irregulars};
use crate::stdlib::{python_stdlib_modules, stdlib_names};
use crate::strutil::contains_str;

verus! {

/// The view of a dependency, as a function value.
pub open spec fn dep_view() -> spec_fn(Dependency) -> DepModel {
    |d: Dependency| d@
}

/// The mathematical state of an evaluator: the standard-library set and
/// the remap table, in which the earliest entry for a key wins.
#[verifier::ext_equal]
pub struct EvalModel {
    pub stdlib: Seq<Seq<char>>,
    pub remap: Seq<(Seq<char>, Seq<char>)>,
}

/// First-match lookup in a remap table.
pub open spec fn table_lookup(table: Seq<(Seq<char>, Seq<char>)>, key: Seq<char>) -> Option<
    Seq<char>,
>
    decreases table.len(),
{
    if table.len() == 0 {
        None
    } else if table[0].0 == key {
        Some(table[0].1)
    } else {
        table_lookup(table.drop_first(), key)
    }
}

/// A first occurrence of `key` at row `i` (or nowhere) determines the
/// lookup.
pub proof fn lemma_table_lookup_determined(
    table: Seq<(Seq<char>, Seq<char>)>,
    key: Seq<char>,
    i: int,
)
    requires
        0 <= i <= table.len(),
        forall|j: int| 0 <= j < i ==> (#[trigger] table[j]).0 != key,
        i < table.len() ==> table[i].0 == key,
    ensures
        table_lookup(table, key) == if i < table.len() {
            Some(table[i].1)
        } else {
            None
        },
    decreases table.len(),
{
    if table.len() > 0 && table[0].0 != key {
        assert(i > 0);
        lemma_table_lookup_determined(table.drop_first(), key, i - 1);
    }
}

/// The name a candidate goes forward under: its remapping if the table
/// has one, else the candidate itself.
pub open spec fn remap_of(m: EvalModel, c: Seq<char>) -> Seq<char> {
    match table_lookup(m.remap, c) {
        Some(v) => v,
        None => c,
    }
}

/// Whether some dependency of `ds` has identity key `k`.
pub open spec fn has_key(ds: Seq<DepModel>, k: Seq<char>) -> bool {
    exists|i: int| 0 <= i < ds.len() && (#[trigger] ds[i]).key() == k
}

/// A candidate survives evaluation when it is neither a
/// standard-library module nor a local package, its remapped name
/// parses as a specifier, and no already-declared dependency shares
/// that specifier's identity.
pub open spec fn accepted(
    m: EvalModel,
    existing: Seq<DepModel>,
    locals: Seq<Seq<char>>,
    c: Seq<char>,
) -> bool {
    &&& !m.stdlib.contains(c)
    &&& !locals.contains(c)
    &&& parse_spec(remap_of(m, c)) is Some
    &&& !has_key(existing, parse_spec(remap_of(m, c))->Some_0.key())
}

/// The evaluation result: one freshly parsed specifier per surviving
/// candidate, in order of first appearance, deduplicated by identity.
pub open spec fn eval_spec(
    m: EvalModel,
    candidates: Seq<Seq<char>>,
    existing: Seq<DepModel>,
    locals: Seq<Seq<char>>,
) -> Seq<DepModel>
    decreases candidates.len(),
{
    if candidates.len() == 0 {
        Seq::empty()
    } else {
        let prior = eval_spec(m, candidates.drop_last(), existing, locals);
        let c = candidates.last();
        if accepted(m, existing, locals, c) {
            let d = parse_spec(remap_of(m, c))->Some_0;
            if has_key(prior, d.key()) {
                prior
            } else {
                prior.push(d)
            }
        } else {
            prior
        }
    }
}

/// A candidate found in the standard-library set contributes nothing,
/// whatever the remap table says of it: the exclusion tests the name as
/// imported, before remapping could reintroduce it.
pub proof fn lemma_stdlib_candidate_excluded(
    m: EvalModel,
    candidates: Seq<Seq<char>>,
    existing: Seq<DepModel>,
    locals: Seq<Seq<char>>,
    c: Seq<char>,
)
    requires
        m.stdlib.contains(c),
    ensures
        eval_spec(m, candidates.push(c), existing, locals) == eval_spec(
            m,
            candidates,
            existing,
            locals,
        ),
{
    assert(candidates.push(c).drop_last() =~= candidates);
    assert(candidates.push(c).last() == c);
    assert(!accepted(m, existing, locals, c));
}

/// The already-declared filter runs last, on the remapped name: a
/// candidate whose remapped name shares its identity with a declared
/// dependency contributes nothing, even when the name as imported
/// matches no declared dependency.
pub proof fn lemma_existing_filter_sees_remapped_name(
    m: EvalModel,
    candidates: Seq<Seq<char>>,
    existing: Seq<DepModel>,
    locals: Seq<Seq<char>>,
    c: Seq<char>,
)
    requires
        parse_spec(remap_of(m, c)) is Some,
        has_key(existing, parse_spec(remap_of(m, c))->Some_0.key()),
    ensures
        eval_spec(m, candidates.push(c), existing, locals) == eval_spec(
            m,
            candidates,
            existing,
            locals,
        ),
{
    assert(candidates.push(c).drop_last() =~= candidates);
    assert(candidates.push(c).last() == c);
    assert(!accepted(m, existing, locals, c));
}

/// The evaluator: the built-in standard-library table, and the remap
/// table with caller-supplied overrides placed ahead of the built-in
/// irregulars, so that overrides win on key collision.
pub struct DependencyEvaluator {
    stdlib_packages: Vec<String>,
    irregulars_to_remap: Vec<(String, String)>,
}

impl View for DependencyEvaluator {
    type V = EvalModel;

    closed spec fn view(&self) -> EvalModel {
        EvalModel {
            stdlib: self.stdlib_packages@.map_values(str_view()),
            remap: self.irregulars_to_remap@.map_values(pair_view()),
        }
    }
}

impl DependencyEvaluator {
    /// Builds an evaluator from caller-supplied remap overrides.
    pub fn new(extras_to_remap: Vec<(String, String)>) -> (r: Self)
        ensures
            r@.stdlib == stdlib_names(),
            r@.remap == extras_to_remap@.map_values(pair_view()) + builtin_irregulars(),
    {
        let ghost overrides = extras_to_remap@;
        let mut table = extras_to_remap;
        let mut builtin = python_irregulars();
        let ghost builtin_snap = builtin@;
        table.append(&mut builtin);
        proof {
            assert(table@.map_values(pair_view()) =~= overrides.map_values(pair_view())
                + builtin_snap.map_values(pair_view()));
        }
        DependencyEvaluator {
            stdlib_packages: python_stdlib_modules(),
            irregulars_to_remap: table,
        }
    }

    /// Looks a candidate up in the remap table; misses pass through.
    fn remap_candidate(&self, c: &String) -> (r: String)
        ensures
            r@ == remap_of(self@, c@),
    {
        let n = self.irregulars_to_remap.len();
        let mut i: usize = 0;
        while i < n
            invariant
                n == self.irregulars_to_remap.len(),
                0 <= i <= n,
                forall|j: int|
                    0 <= j < i ==> (#[trigger] self.irregulars_to_remap@.map_values(
                        pair_view(),
                    )[j]).0 != c@,
            decreases n - i,
        {
            if crate::strutil::str_eq(self.irregulars_to_remap[i].0.as_str(), c.as_str()) {
                proof {
                    lemma_table_lookup_determined(
                        self.irregulars_to_remap@.map_values(pair_view()),
                        c@,
                        i as int,
                    );
                }
                return self.irregulars_to_remap[i].1.clone();
            }
            i += 1;
        }
        proof {
            lemma_table_lookup_determined(
                self.irregulars_to_remap@.map_values(pair_view()),
                c@,
                n as int,
            );
        }
        c.clone()
    }

    /// Evaluates the candidate set.  A surviving candidate whose
    /// remapped name cannot be parsed as a specifier is dropped: no
    /// specifier can be made of it.
    pub fn evaluate(
        &self,
        candidates: Vec<String>,
        existing_deps: Vec<Dependency>,
        local_packages: Vec<String>,
    ) -> (r: Vec<Dependency>)
        ensures
            r@.map_values(dep_view()) == eval_spec(
                self@,
                candidates@.map_values(str_view()),
                existing_deps@.map_values(dep_view()),
                local_packages@.map_values(str_view()),
            ),
    {
        let ghost cs = candidates@.map_values(str_view());
        let ghost ex = existing_deps@.map_values(dep_view());
        let ghost loc = local_packages@.map_values(str_view());
        let mut out: Vec<Dependency> = Vec::new();
        proof {
            assert(cs.take(0) =~= Seq::<Seq<char>>::empty());
        }
        let mut i: usize = 0;
        while i < candidates.len()
            invariant
                0 <= i <= candidates.len(),
                cs == candidates@.map_values(str_view()),
                ex == existing_deps@.map_values(dep_view()),
                loc == local_packages@.map_values(str_view()),
                out@.map_values(dep_view()) == eval_spec(self@, cs.take(i as int), ex, loc),
            decreases candidates.len() - i,
        {
            let ghost prior = out@.map_values(dep_view());
            proof {
                assert(cs.take(i + 1).drop_last() =~= cs.take(i as int));
                assert(cs.take(i + 1).last() == cs[i as int]);
            }
            let c = &candidates[i];
            let in_stdlib = contains_str(&self.stdlib_packages, c.as_str());
            let in_locals = contains_str(&local_packages, c.as_str());
            if !in_stdlib && !in_locals {
                let name = self.remap_candidate(c);
                match Dependency::parse(name.as_str()) {
                    Some(d) => {
                        let mut dup_existing = false;
                        let mut j: usize = 0;
                        while j < existing_deps.len()
                            invariant
                                0 <= j <= existing_deps.len(),
                                ex == existing_deps@.map_values(dep_view()),
                                dup_existing == exists|k: int|
                                    0 <= k < j && (#[trigger] ex[k]).key() == d@.key(),
                            decreases existing_deps.len() - j,
                        {
                            let hit = existing_deps[j] == d;
                            proof {
                                assert(ex[j as int] == existing_deps@[j as int]@);
                                assert(hit == (ex[j as int].key() == d@.key()));
                            }
                            if hit {
                                dup_existing = true;
                            }
                            j += 1;
                        }
                        if !dup_existing {
                            assert(!has_key(ex, d@.key()));
                            assert(accepted(self@, ex, loc, cs[i as int]));
                            let mut dup_out = false;
                            let mut k: usize = 0;
                            while k < out.len()
                                invariant
                                    0 <= k <= out.len(),
                                    prior == out@.map_values(dep_view()),
                                    prior.len() == out.len(),
                                    dup_out == exists|t: int|
                                        0 <= t < k && (#[trigger] prior[t]).key() == d@.key(),
                                decreases out.len() - k,
                            {
                                let hit = out[k] == d;
                                proof {
                                    assert(prior[k as int] == out@[k as int]@);
                                    assert(hit == (prior[k as int].key() == d@.key()));
                                }
                                if hit {
                                    dup_out = true;
                                }
                                k += 1;
                            }
                            if !dup_out {
                                assert(!has_key(prior, d@.key()));
                                out.push(d);
                                proof {
                                    assert(out@.map_values(dep_view()) =~= prior.push(
                                        eval_spec(self@, cs.take(i + 1), ex, loc).last()));
                                    assert(out@.map_values(dep_view()) =~= eval_spec(
                                        self@,
                                        cs.take(i + 1),
                                        ex,
                                        loc,
                                    ));
                                }
                            } else {
                                proof {
                                    assert(has_key(prior, d@.key()));
                                }
                            }
                        } else {
                            assert(has_key(ex, d@.key()));
                            assert(!accepted(self@, ex, loc, cs[i as int]));
                        }
                    },
                    None => {
                        assert(!accepted(self@, ex, loc, cs[i as int]));
                    },
                }
            } else {
                proof {
                    assert(cs[i as int] == c@);
                    assert(!accepted(self@, ex, loc, cs[i as int]));
                }
            }
            i += 1;
        }
        proof {
            assert(cs.take(candidates.len() as int) =~= cs);
        }
        out
    }
}

} // verus!
