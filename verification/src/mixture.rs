//! The mixture model and its translation: decoding a raw document
//! (temperature plus named substance entries with raw group token lists)
//! into a [`Mixture`], and encoding a calculated mixture back into an
//! output document.
//!
//! Decoding is all-or-nothing: the first malformed group token anywhere
//! aborts the whole decode. Encoding refuses a mixture on which the engine
//! has not populated every activity coefficient.

use vstd::prelude::*;
use crate::group::{
    parse_group_token, encode_group_token, encoded_token, token_ok, token_id, token_count,
    FunctionalGroupSpec, GroupFormatError, lemma_token_round_trip,
};
use crate::numeric::is_real_text;

verus! {

/// A substance entry as it stands in the input document: a name, a textual
/// fraction, and the raw group tokens.
#[derive(Debug)]
pub struct RawSubstance {
    /// Unique name of the substance within the document.
    pub name: String,
    /// Molar fraction, as numeric text.
    pub fraction: String,
    /// Raw `"ID:COUNT"` group tokens.
    pub groups: Vec<String>,
}

/// A raw input document: a temperature and the substance entries, in the
/// enumeration order captured once when the document was read.
#[derive(Debug)]
pub struct RawMixtureDoc {
    /// Temperature in Kelvin, as numeric text.
    pub temperature: String,
    /// Substance entries, in captured enumeration order.
    pub substances: Vec<RawSubstance>,
}

/// A substance of a mixture: its parsed groups and, once the engine has
/// run, its activity coefficient.
#[derive(Debug)]
pub struct Substance {
    /// Unique name of the substance within its mixture.
    pub name: String,
    /// Molar fraction, as numeric text.
    pub fraction: String,
    /// Parsed functional groups, in token order.
    pub groups: Vec<FunctionalGroupSpec>,
    /// Activity coefficient; absent until the engine computes it.
    pub gamma: Option<String>,
}

impl Substance {
    /// Every group record of the substance is well formed.
    pub open spec fn wf(self) -> bool {
        forall|j: int| 0 <= j < self.groups@.len() ==> (#[trigger] self.groups@[j]).wf()
    }

    /// Combine a name, fraction and parsed group list into a substance.
    /// The activity coefficient starts out absent.
    pub fn new(name: String, fraction: String, groups: Vec<FunctionalGroupSpec>) -> (s: Substance)
        ensures
            s.name@ == name@,
            s.fraction@ == fraction@,
            s.groups == groups,
            s.gamma is None,
    {
        Substance { name, fraction, groups, gamma: None }
    }
}

/// A mixture: a temperature and its substances, in captured order.
#[derive(Debug)]
pub struct Mixture {
    /// Temperature in Kelvin, as numeric text.
    pub temperature: String,
    /// Substances, in the enumeration order captured at decode time.
    pub substances: Vec<Substance>,
}

impl Mixture {
    /// Every substance of the mixture is well formed.
    pub open spec fn wf(self) -> bool {
        forall|i: int| 0 <= i < self.substances@.len() ==> (#[trigger] self.substances@[i]).wf()
    }
}

/// The engine did not populate an activity coefficient; names the first
/// substance that lacks one.
#[derive(Debug)]
pub struct IncompleteResultError {
    /// Name of the first substance without a coefficient.
    pub substance: String,
}

/// A substance entry of the output document: the fraction, the regenerated
/// group tokens, and the computed activity coefficient.
#[derive(Debug)]
pub struct OutSubstance {
    /// Name of the substance.
    pub name: String,
    /// Molar fraction, as numeric text.
    pub fraction: String,
    /// Regenerated `"ID:COUNT"` group tokens.
    pub groups: Vec<String>,
    /// Activity coefficient, as numeric text.
    pub gamma: String,
}

/// The output document of a single-shot run.
#[derive(Debug)]
pub struct OutMixtureDoc {
    /// Temperature in Kelvin, as numeric text.
    pub temperature: String,
    /// Substance entries, in the mixture's order.
    pub substances: Vec<OutSubstance>,
}

/// Every group token of the raw substance is well formed.
pub open spec fn raw_substance_ok(r: RawSubstance) -> bool {
    forall|j: int| 0 <= j < r.groups@.len() ==> token_ok((#[trigger] r.groups@[j])@)
}

/// Every group token of the whole document is well formed.
pub open spec fn raw_doc_ok(doc: RawMixtureDoc) -> bool {
    forall|i: int|
        0 <= i < doc.substances@.len() ==> raw_substance_ok(#[trigger] doc.substances@[i])
}

/// The group record carries what the token says.
pub open spec fn group_matches_token(g: FunctionalGroupSpec, t: Seq<char>) -> bool {
    g.id as nat == token_id(t) && g.count@ == token_count(t)
}

/// The decoded substance carries the raw entry's name, fraction and
/// groups, and no activity coefficient yet.
pub open spec fn decoded_substance_matches(d: Substance, r: RawSubstance) -> bool {
    &&& d.name@ == r.name@
    &&& d.fraction@ == r.fraction@
    &&& d.gamma is None
    &&& d.groups@.len() == r.groups@.len()
    &&& forall|j: int|
        0 <= j < r.groups@.len() ==> group_matches_token(
            #[trigger] d.groups@[j],
            r.groups@[j]@,
        )
}

/// The decoded mixture carries the document's temperature and substances.
pub open spec fn decoded_mixture_matches(m: Mixture, doc: RawMixtureDoc) -> bool {
    &&& m.temperature@ == doc.temperature@
    &&& m.substances@.len() == doc.substances@.len()
    &&& forall|i: int|
        0 <= i < doc.substances@.len() ==> decoded_substance_matches(
            #[trigger] m.substances@[i],
            doc.substances@[i],
        )
}

/// Decode one raw substance entry, parsing each of its group tokens.
pub fn decode_substance(raw: &RawSubstance) -> (r: Result<Substance, GroupFormatError>)
    ensures
        r is Ok <==> raw_substance_ok(*raw),
        r is Ok ==> decoded_substance_matches(r.unwrap(), *raw) && r.unwrap().wf(),
        r is Err ==> r.unwrap_err().substance@ == raw.name@,
{
    let n = raw.groups.len();
    let mut groups: Vec<FunctionalGroupSpec> = Vec::new();
    let mut j: usize = 0;
    while j < n
        invariant
            j <= n,
            n == raw.groups@.len(),
            groups@.len() == j,
            forall|k: int| 0 <= k < j ==> token_ok((#[trigger] raw.groups@[k])@),
            forall|k: int|
                0 <= k < j ==> group_matches_token(#[trigger] groups@[k], raw.groups@[k]@)
                    && groups@[k].wf(),
        decreases n - j,
    {
        match parse_group_token(raw.groups[j].as_str(), raw.name.as_str()) {
            Ok(g) => {
                groups.push(g);
            },
            Err(e) => {
                proof {
                    assert(!token_ok(raw.groups@[j as int]@));
                }
                return Err(e);
            },
        }
        j += 1;
    }
    let name = raw.name.clone();
    let fraction = raw.fraction.clone();
    Ok(Substance::new(name, fraction, groups))
}

/// Decode a raw document into a mixture.
///
/// All-or-nothing: succeeds exactly when every group token of every
/// substance is well formed; the first failure anywhere aborts the decode,
/// naming the owning substance of the first malformed token.
pub fn decode_mixture(doc: &RawMixtureDoc) -> (r: Result<Mixture, GroupFormatError>)
    ensures
        r is Ok <==> raw_doc_ok(*doc),
        r is Ok ==> decoded_mixture_matches(r.unwrap(), *doc) && r.unwrap().wf(),
        r is Err ==> exists|i: int|
            0 <= i < doc.substances@.len() && !raw_substance_ok(#[trigger] doc.substances@[i])
                && (forall|k: int| 0 <= k < i ==> raw_substance_ok(#[trigger] doc.substances@[k]))
                && r.unwrap_err().substance@ == doc.substances@[i].name@,
{
    let n = doc.substances.len();
    let mut substances: Vec<Substance> = Vec::new();
    let mut i: usize = 0;
    while i < n
        invariant
            i <= n,
            n == doc.substances@.len(),
            substances@.len() == i,
            forall|k: int| 0 <= k < i ==> raw_substance_ok(#[trigger] doc.substances@[k]),
            forall|k: int|
                0 <= k < i ==> decoded_substance_matches(
                    #[trigger] substances@[k],
                    doc.substances@[k],
                ) && substances@[k].wf(),
        decreases n - i,
    {
        match decode_substance(&doc.substances[i]) {
            Ok(s) => {
                substances.push(s);
            },
            Err(e) => {
                return Err(e);
            },
        }
        i += 1;
    }
    let temperature = doc.temperature.clone();
    Ok(Mixture { temperature, substances })
}

/// Every substance of the mixture carries an activity coefficient.
pub open spec fn mixture_complete(m: Mixture) -> bool {
    forall|i: int| 0 <= i < m.substances@.len() ==> (#[trigger] m.substances@[i]).gamma is Some
}

/// The output entry carries the substance's fraction, regenerated tokens
/// and coefficient.
pub open spec fn encoded_substance_matches(o: OutSubstance, s: Substance) -> bool {
    &&& o.name@ == s.name@
    &&& o.fraction@ == s.fraction@
    &&& s.gamma is Some && o.gamma@ == s.gamma.unwrap()@
    &&& o.groups@.len() == s.groups@.len()
    &&& forall|j: int|
        0 <= j < s.groups@.len() ==> (#[trigger] o.groups@[j])@ == encoded_token(
            s.groups@[j].id as nat,
            s.groups@[j].count@,
        )
}

/// The output document carries the mixture's temperature and substances.
pub open spec fn encoded_mixture_matches(d: OutMixtureDoc, m: Mixture) -> bool {
    &&& d.temperature@ == m.temperature@
    &&& d.substances@.len() == m.substances@.len()
    &&& forall|i: int|
        0 <= i < m.substances@.len() ==> encoded_substance_matches(
            #[trigger] d.substances@[i],
            m.substances@[i],
        )
}

/// Encode a calculated mixture into an output document.
///
/// Succeeds exactly when the engine populated every substance's activity
/// coefficient; otherwise no document is produced and the error names the
/// first substance that lacks one.
pub fn encode_mixture(m: &Mixture) -> (r: Result<OutMixtureDoc, IncompleteResultError>)
    ensures
        r is Ok <==> mixture_complete(*m),
        r is Ok ==> encoded_mixture_matches(r.unwrap(), *m),
        r is Err ==> exists|i: int|
            0 <= i < m.substances@.len() && (#[trigger] m.substances@[i]).gamma is None && (
            forall|k: int| 0 <= k < i ==> (#[trigger] m.substances@[k]).gamma is Some)
                && r.unwrap_err().substance@ == m.substances@[i].name@,
{
    let n = m.substances.len();
    let mut out: Vec<OutSubstance> = Vec::new();
    let mut i: usize = 0;
    while i < n
        invariant
            i <= n,
            n == m.substances@.len(),
            out@.len() == i,
            forall|k: int| 0 <= k < i ==> (#[trigger] m.substances@[k]).gamma is Some,
            forall|k: int|
                0 <= k < i ==> encoded_substance_matches(#[trigger] out@[k], m.substances@[k]),
        decreases n - i,
    {
        let s = &m.substances[i];
        let gamma = match &s.gamma {
            Some(g) => g.clone(),
            None => {
                return Err(IncompleteResultError { substance: s.name.clone() });
            },
        };
        let gn = s.groups.len();
        let mut tokens: Vec<String> = Vec::new();
        let mut j: usize = 0;
        while j < gn
            invariant
                j <= gn,
                0 <= i < m.substances@.len(),
                gn == m.substances@[i as int].groups@.len(),
                s == &m.substances@[i as int],
                tokens@.len() == j,
                forall|k: int|
                    0 <= k < j ==> (#[trigger] tokens@[k])@ == encoded_token(
                        s.groups@[k].id as nat,
                        s.groups@[k].count@,
                    ),
            decreases gn - j,
        {
            let t = encode_group_token(&s.groups[j]);
            tokens.push(t);
            j += 1;
        }
        out.push(
            OutSubstance {
                name: s.name.clone(),
                fraction: s.fraction.clone(),
                groups: tokens,
                gamma,
            },
        );
        i += 1;
    }
    let temperature = m.temperature.clone();
    Ok(OutMixtureDoc { temperature, substances: out })
}

/// Round trip: every group token of the document that `encode_mixture`
/// produces from a well-formed mixture is itself well formed and parses
/// back to the very group record it was rendered from. Together with the
/// ensures of `encode_mixture` and `decode_mixture`, which copy names and
/// fractions verbatim, decoding the substances of an encoded document
/// reproduces the original fractions and group compositions exactly,
/// whatever the coefficients were.
pub proof fn lemma_mixture_round_trip(m: Mixture)
    requires
        m.wf(),
    ensures
        forall|i: int, j: int|
            0 <= i < m.substances@.len() && 0 <= j < m.substances@[i].groups@.len() ==> {
                let g = #[trigger] m.substances@[i].groups@[j];
                let t = encoded_token(g.id as nat, g.count@);
                token_ok(t) && token_id(t) == g.id as nat && token_count(t) == g.count@
            },
{
    assert forall|i: int, j: int|
        0 <= i < m.substances@.len() && 0 <= j < m.substances@[i].groups@.len() implies {
        let g = #[trigger] m.substances@[i].groups@[j];
        let t = encoded_token(g.id as nat, g.count@);
        token_ok(t) && token_id(t) == g.id as nat && token_count(t) == g.count@
    } by {
        let g = m.substances@[i].groups@[j];
        assert(m.substances@[i].wf());
        assert(g.wf());
        lemma_token_round_trip(g.id as nat, g.count@);
    }
}

} // verus!
