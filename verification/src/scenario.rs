//! Benchmark scenario generation: expanding a base parameter table of
//! [`BASE_ROWS`] rows into [`SCENARIO_TARGET`] deterministic scenarios by
//! cyclic row reuse.
//!
//! The substance-to-column mapping is captured exactly once, from the
//! order of the substance entries in the input document, and reused
//! identically for every generated scenario: scenario `i` takes its
//! temperature delta and its per-substance fractions from base row
//! `i % BASE_ROWS`, column `j` always belonging to substance `j` of the
//! captured enumeration.

use vstd::prelude::*;
use crate::group::{FunctionalGroupSpec, GroupFormatError};
use crate::mixture::{
    decode_substance, decoded_substance_matches, group_matches_token, raw_substance_ok,
    RawSubstance, Substance,
};
use crate::numeric::{is_real_text, is_real_token};

verus! {

/// Number of rows of the base parameter table.
pub const BASE_ROWS: usize = 1000;

/// Number of scenarios generated from the base table.
pub const SCENARIO_TARGET: usize = 10000;

/// The benchmark input document: a mixture description plus the base
/// parameter table.
#[derive(Debug)]
pub struct BenchInputDoc {
    /// Base temperature in Kelvin, as numeric text.
    pub temperature: String,
    /// Substance entries, in captured enumeration order.
    pub substances: Vec<RawSubstance>,
    /// Per-row temperature deltas, as numeric text.
    pub difftemp: Vec<String>,
    /// Per-row fraction columns, one column per substance of the captured
    /// enumeration.
    pub fractions: Vec<Vec<String>>,
}

/// One generated scenario: the substances with the row's fractions, and
/// the row's temperature delta. The scenario's effective temperature is
/// the base temperature plus this delta.
#[derive(Debug)]
pub struct BenchmarkScenario {
    /// Temperature delta of the base row the scenario was built from.
    pub temperature_delta: String,
    /// Substances with the row's fractions, in captured order.
    pub substances: Vec<Substance>,
}

/// A malformed base row: its delta does not read as a real number, or its
/// fraction column list is shorter than the substance count.
#[derive(Debug)]
pub struct BenchmarkInputError {
    /// Index of the offending row.
    pub row: usize,
}

/// Why scenario generation failed.
#[derive(Debug)]
pub enum ScenarioError {
    /// A substance's group token was malformed.
    Group(GroupFormatError),
    /// A base row was malformed.
    Input(BenchmarkInputError),
}

/// Base row `r` is usable: its delta is a real token and it carries a
/// fraction for every substance.
pub open spec fn row_ok(doc: BenchInputDoc, r: int) -> bool {
    is_real_text(doc.difftemp@[r]@) && doc.fractions@[r]@.len() >= doc.substances@.len()
}

/// The whole benchmark document is usable.
pub open spec fn bench_doc_ok(doc: BenchInputDoc) -> bool {
    &&& forall|i: int|
        0 <= i < doc.substances@.len() ==> raw_substance_ok(#[trigger] doc.substances@[i])
    &&& forall|r: int| 0 <= r < BASE_ROWS ==> row_ok(doc, r)
}

/// Scenario `i` carries exactly what base row `i % BASE_ROWS` says: the
/// row's delta, and for the substance of every captured column the row's
/// fraction in that column.
pub open spec fn scenario_matches(sc: BenchmarkScenario, doc: BenchInputDoc, i: int) -> bool {
    let b = i % (BASE_ROWS as int);
    &&& sc.temperature_delta@ == doc.difftemp@[b]@
    &&& sc.substances@.len() == doc.substances@.len()
    &&& forall|j: int|
        0 <= j < doc.substances@.len() ==> {
            let s = #[trigger] sc.substances@[j];
            let raw = doc.substances@[j];
            &&& s.name@ == raw.name@
            &&& s.fraction@ == doc.fractions@[b]@[j]@
            &&& s.gamma is None
            &&& s.groups@.len() == raw.groups@.len()
            &&& forall|k: int|
                0 <= k < raw.groups@.len() ==> group_matches_token(
                    #[trigger] s.groups@[k],
                    raw.groups@[k]@,
                )
        }
}

/// Copy a group list; the copy carries the same ids and count texts.
fn clone_groups(groups: &Vec<FunctionalGroupSpec>) -> (r: Vec<FunctionalGroupSpec>)
    ensures
        r@.len() == groups@.len(),
        forall|k: int|
            0 <= k < groups@.len() ==> (#[trigger] r@[k]).id == groups@[k].id && r@[k].count@
                == groups@[k].count@,
{
    let n = groups.len();
    let mut r: Vec<FunctionalGroupSpec> = Vec::new();
    let mut k: usize = 0;
    while k < n
        invariant
            k <= n,
            n == groups@.len(),
            r@.len() == k,
            forall|t: int|
                0 <= t < k ==> (#[trigger] r@[t]).id == groups@[t].id && r@[t].count@
                    == groups@[t].count@,
        decreases n - k,
    {
        let g = &groups[k];
        r.push(FunctionalGroupSpec { id: g.id, count: g.count.clone() });
        k += 1;
    }
    r
}

/// Expand the base table into the full deterministic workload.
///
/// Yields exactly [`SCENARIO_TARGET`] scenarios, scenario `i` built from
/// base row `i % BASE_ROWS`. Fails fast: with a group error on the first
/// substance whose token list is malformed, else with an input error
/// naming the first unusable base row.
pub fn generate_scenarios(doc: &BenchInputDoc) -> (r: Result<Vec<BenchmarkScenario>, ScenarioError>)
    requires
        doc.difftemp@.len() >= BASE_ROWS,
        doc.fractions@.len() >= BASE_ROWS,
    ensures
        r is Ok <==> bench_doc_ok(*doc),
        r is Ok ==> r.unwrap()@.len() == SCENARIO_TARGET && forall|i: int|
            0 <= i < SCENARIO_TARGET ==> scenario_matches(#[trigger] r.unwrap()@[i], *doc, i),
        r matches Err(ScenarioError::Group(e)) ==> exists|i: int|
            0 <= i < doc.substances@.len() && !raw_substance_ok(#[trigger] doc.substances@[i]) && (
            forall|k: int| 0 <= k < i ==> raw_substance_ok(#[trigger] doc.substances@[k]))
                && e.substance@ == doc.substances@[i].name@,
        r matches Err(ScenarioError::Input(e)) ==> (forall|i: int|
            0 <= i < doc.substances@.len() ==> raw_substance_ok(#[trigger] doc.substances@[i]))
            && 0 <= e.row < BASE_ROWS && !row_ok(*doc, e.row as int) && forall|t: int|
            0 <= t < e.row ==> row_ok(*doc, t),
{
    let sub_count = doc.substances.len();
    // capture the substance-to-column mapping once: decode each substance
    // entry, in document order
    let mut templates: Vec<Substance> = Vec::new();
    let mut i: usize = 0;
    while i < sub_count
        invariant
            i <= sub_count,
            sub_count == doc.substances@.len(),
            templates@.len() == i,
            forall|k: int| 0 <= k < i ==> raw_substance_ok(#[trigger] doc.substances@[k]),
            forall|k: int|
                0 <= k < i ==> decoded_substance_matches(
                    #[trigger] templates@[k],
                    doc.substances@[k],
                ),
        decreases sub_count - i,
    {
        match decode_substance(&doc.substances[i]) {
            Ok(s) => {
                templates.push(s);
            },
            Err(e) => {
                return Err(ScenarioError::Group(e));
            },
        }
        i += 1;
    }
    // validate every base row before building anything
    let mut row: usize = 0;
    while row < BASE_ROWS
        invariant
            row <= BASE_ROWS,
            sub_count == doc.substances@.len(),
            doc.difftemp@.len() >= BASE_ROWS,
            doc.fractions@.len() >= BASE_ROWS,
            forall|k: int| 0 <= k < sub_count ==> raw_substance_ok(#[trigger] doc.substances@[k]),
            forall|t: int| 0 <= t < row ==> row_ok(*doc, t),
        decreases BASE_ROWS - row,
    {
        if !is_real_token(doc.difftemp[row].as_str()) {
            proof {
                assert(!row_ok(*doc, row as int));
                assert(!bench_doc_ok(*doc));
            }
            return Err(ScenarioError::Input(BenchmarkInputError { row }));
        }
        if doc.fractions[row].len() < sub_count {
            proof {
                assert(!row_ok(*doc, row as int));
                assert(!bench_doc_ok(*doc));
            }
            return Err(ScenarioError::Input(BenchmarkInputError { row }));
        }
        row += 1;
    }
    // build the workload: scenario i reuses base row i % BASE_ROWS
    let mut scenarios: Vec<BenchmarkScenario> = Vec::new();
    let mut i: usize = 0;
    while i < SCENARIO_TARGET
        invariant
            i <= SCENARIO_TARGET,
            sub_count == doc.substances@.len(),
            doc.difftemp@.len() >= BASE_ROWS,
            doc.fractions@.len() >= BASE_ROWS,
            templates@.len() == sub_count,
            forall|k: int|
                0 <= k < sub_count ==> decoded_substance_matches(
                    #[trigger] templates@[k],
                    doc.substances@[k],
                ),
            forall|t: int| 0 <= t < BASE_ROWS ==> row_ok(*doc, t),
            scenarios@.len() == i,
            forall|t: int| 0 <= t < i ==> scenario_matches(#[trigger] scenarios@[t], *doc, t),
        decreases SCENARIO_TARGET - i,
    {
        let b = i % BASE_ROWS;
        let fr_row = &doc.fractions[b];
        proof {
            assert(row_ok(*doc, b as int));
            assert(fr_row@ == doc.fractions@[b as int]@);
        }
        let mut substances: Vec<Substance> = Vec::new();
        let mut j: usize = 0;
        while j < sub_count
            invariant
                j <= sub_count,
                sub_count == doc.substances@.len(),
                0 <= b < BASE_ROWS,
                doc.fractions@.len() >= BASE_ROWS,
                fr_row@ == doc.fractions@[b as int]@,
                fr_row@.len() >= sub_count,
                templates@.len() == sub_count,
                forall|k: int|
                    0 <= k < sub_count ==> decoded_substance_matches(
                        #[trigger] templates@[k],
                        doc.substances@[k],
                    ),
                substances@.len() == j,
                forall|k: int|
                    0 <= k < j ==> {
                        let s = #[trigger] substances@[k];
                        let raw = doc.substances@[k];
                        &&& s.name@ == raw.name@
                        &&& s.fraction@ == doc.fractions@[b as int]@[k]@
                        &&& s.gamma is None
                        &&& s.groups@.len() == raw.groups@.len()
                        &&& forall|t: int|
                            0 <= t < raw.groups@.len() ==> group_matches_token(
                                #[trigger] s.groups@[t],
                                raw.groups@[t]@,
                            )
                    },
            decreases sub_count - j,
        {
            let tmpl = &templates[j];
            let s = Substance::new(tmpl.name.clone(), fr_row[j].clone(), clone_groups(&tmpl.groups));
            substances.push(s);
            j += 1;
        }
        let delta = doc.difftemp[b].clone();
        scenarios.push(BenchmarkScenario { temperature_delta: delta, substances });
        proof {
            assert(i as int % (BASE_ROWS as int) == b as int);
        }
        i += 1;
    }
    Ok(scenarios)
}

/// Cyclic reuse law: among the scenarios generated from one document,
/// scenario `i` equals scenario `i % BASE_ROWS` in its temperature delta
/// and in every substance's fraction.
pub proof fn lemma_scenario_cyclic(scenarios: Seq<BenchmarkScenario>, doc: BenchInputDoc)
    requires
        scenarios.len() == SCENARIO_TARGET,
        forall|i: int|
            0 <= i < scenarios.len() ==> scenario_matches(#[trigger] scenarios[i], doc, i),
    ensures
        forall|i: int|
            0 <= i < scenarios.len() ==> {
                let sc = #[trigger] scenarios[i];
                let sb = scenarios[i % (BASE_ROWS as int)];
                &&& sc.temperature_delta@ == sb.temperature_delta@
                &&& sc.substances@.len() == sb.substances@.len()
                &&& forall|j: int|
                    0 <= j < sc.substances@.len() ==> (#[trigger] sc.substances@[j]).fraction@
                        == sb.substances@[j].fraction@
            },
{
    assert forall|i: int| 0 <= i < scenarios.len() implies {
        let sc = #[trigger] scenarios[i];
        let sb = scenarios[i % (BASE_ROWS as int)];
        &&& sc.temperature_delta@ == sb.temperature_delta@
        &&& sc.substances@.len() == sb.substances@.len()
        &&& forall|j: int|
            0 <= j < sc.substances@.len() ==> (#[trigger] sc.substances@[j]).fraction@
                == sb.substances@[j].fraction@
    } by {
        let b = i % (BASE_ROWS as int);
        assert(0 <= b < BASE_ROWS);
        assert(b % (BASE_ROWS as int) == b);
        assert(scenario_matches(scenarios[i], doc, i));
        assert(scenario_matches(scenarios[b], doc, b));
    }
}

} // verus!
