//! Lookup of genes, diseases and terms by name for the REST API: one name
//! matcher for every match mode, and the request and response records.
use vstd::prelude::*;
use vstd::string::StringSliceAdditionalSpecFns;
use vstd::utf8::{encode_utf8, is_char_boundary};

use crate::common::{IcBasedOn, ScoreCombiner, Version};

verus! {

/// How a name is matched against a pattern.
#[derive(Debug, Clone, Copy, PartialEq, Eq, Structural)]
pub enum Match {
    /// The name equals the pattern.
    Exact,
    /// The name starts with the pattern.
    Prefix,
    /// The name ends with the pattern.
    Suffix,
    /// The name contains the pattern.
    Contains,
}

impl Default for Match {
    fn default() -> (r: Match)
        ensures
            r == Match::Exact,
    {
        Match::Exact
    }
}

/// `p` occurs in `s` at byte offset `i`.
pub open spec fn occurs_at(p: Seq<u8>, s: Seq<u8>, i: int) -> bool {
    0 <= i && i + p.len() <= s.len() && s.subrange(i, i + p.len()) == p
}

/// Whether the name with bytes `s` matches the pattern with bytes `p` in `mode`.
pub open spec fn name_matches_spec(mode: Match, p: Seq<u8>, s: Seq<u8>) -> bool {
    match mode {
        Match::Exact => p == s,
        Match::Prefix => occurs_at(p, s, 0),
        Match::Suffix => occurs_at(p, s, s.len() - p.len()),
        Match::Contains => exists|i: int| #[trigger] occurs_at(p, s, i),
    }
}

/// Positions of the names that match, in order, at most `limit` of them.
pub open spec fn selected(mode: Match, p: Seq<u8>, names: Seq<Seq<char>>, limit: nat) -> Seq<usize>
    decreases names.len(),
{
    if names.len() == 0 {
        Seq::empty()
    } else {
        let prev = selected(mode, p, names.drop_last(), limit);
        if prev.len() < limit && name_matches_spec(mode, p, encode_utf8(names.last())) {
            prev.push((names.len() - 1) as usize)
        } else {
            prev
        }
    }
}

/// Largest number of results in `mode`: a single one for an exact match.
pub open spec fn limit_spec(mode: Match, max_results: nat) -> nat {
    if mode == Match::Exact {
        if max_results == 0 {
            0
        } else {
            1
        }
    } else {
        max_results
    }
}

/// Whether `p` occurs in `s` at byte offset `i`.
fn occurs_at_exec(p: &[u8], s: &[u8], i: usize) -> (r: bool)
    ensures
        r == occurs_at(p@, s@, i as int),
{
    if i > s.len() || p.len() > s.len() - i {
        return false;
    }
    let mut k: usize = 0;
    while k < p.len()
        invariant
            i + p@.len() <= s@.len(),
            s@.len() <= usize::MAX,
            k <= p@.len(),
            forall|q: int| 0 <= q < k ==> s@[i + q] == p@[q],
        decreases p@.len() - k,
    {
        if s[i + k] != p[k] {
            assert(s@.subrange(i as int, i + p@.len())[k as int] != p@[k as int]);
            return false;
        }
        k += 1;
    }
    assert(s@.subrange(i as int, i + p@.len()) =~= p@);
    true
}

/// Whether `name` matches `pattern` in `mode`, compared on their UTF-8 bytes.
pub fn name_matches(mode: Match, pattern: &str, name: &str) -> (r: bool)
    ensures
        r == name_matches_spec(mode, pattern.spec_bytes(), name.spec_bytes()),
{
    let p = pattern.as_bytes();
    let s = name.as_bytes();
    match mode {
        Match::Exact => {
            assert(s@.subrange(0, s@.len() as int) =~= s@);
            p.len() == s.len() && occurs_at_exec(p, s, 0)
        },
        Match::Prefix => occurs_at_exec(p, s, 0),
        Match::Suffix => {
            if p.len() > s.len() {
                false
            } else {
                occurs_at_exec(p, s, s.len() - p.len())
            }
        },
        Match::Contains => {
            if p.len() > s.len() {
                return false;
            }
            if p.len() == 0 {
                assert(s@.subrange(0, 0) =~= p@);
                assert(occurs_at(p@, s@, 0));
                return true;
            }
            let last = s.len() - p.len();
            let mut i: usize = 0;
            while i < last + 1
                invariant
                    mode == Match::Contains,
                    p@ == pattern.spec_bytes(),
                    s@ == name.spec_bytes(),
                    last == s@.len() - p@.len(),
                    last < usize::MAX,
                    i <= last + 1,
                    forall|q: int| 0 <= q < i ==> !occurs_at(p@, s@, q),
                decreases last + 1 - i,
            {
                if occurs_at_exec(p, s, i) {
                    assert(occurs_at(pattern.spec_bytes(), name.spec_bytes(), i as int));
                    assert(name_matches_spec(mode, pattern.spec_bytes(), name.spec_bytes()));
                    return true;
                }
                i += 1;
            }
            assert forall|q: int| !(#[trigger] occurs_at(p@, s@, q)) by {
                if 0 <= q < i {
                }
            }
            false
        },
    }
}

/// Positions of the `names` that match `pattern` in `mode`, in order: at most
/// `max_results` of them, and at most one for an exact match.
pub fn select_matches(mode: Match, pattern: &str, names: &Vec<String>, max_results: usize) -> (r:
    Vec<usize>)
    ensures
        r@ == selected(
            mode,
            pattern.spec_bytes(),
            names@.map_values(|n: String| n@),
            limit_spec(mode, max_results as nat),
        ),
{
    let ghost views = names@.map_values(|n: String| n@);
    let limit: usize = if mode == Match::Exact {
        if max_results == 0 {
            0
        } else {
            1
        }
    } else {
        max_results
    };
    let mut out: Vec<usize> = Vec::new();
    let mut i: usize = 0;
    while i < names.len()
        invariant
            views == names@.map_values(|n: String| n@),
            limit as nat == limit_spec(mode, max_results as nat),
            i <= names@.len(),
            out@ == selected(mode, pattern.spec_bytes(), views.subrange(0, i as int), limit as nat),
            out@.len() <= limit,
        decreases names@.len() - i,
    {
        assert(views.subrange(0, i as int + 1).drop_last() =~= views.subrange(0, i as int));
        if out.len() < limit {
            let n = names[i].as_str();
            if name_matches(mode, pattern, n) {
                out.push(i);
            }
        }
        i += 1;
    }
    assert(views.subrange(0, names@.len() as int) =~= views);
    out
}

/// `c` is `upper` or its ASCII lower-case form `upper + 32`.
pub open spec fn is_ascii_either_case(c: u8, lower: u8) -> bool {
    c == lower || (97 <= lower <= 122 && c == lower - 32)
}

/// `s` starts with `p` when ASCII letters are compared without regard to case.
pub open spec fn has_prefix_ignoring_case(s: Seq<u8>, p: Seq<u8>) -> bool {
    p.len() <= s.len() && forall|k: int| 0 <= k < p.len() ==> is_ascii_either_case(s[k], p[k])
}

/// Whether `s` starts with the lower-case ASCII `p`, ignoring the case of letters.
fn starts_with_ignoring_case(s: &[u8], p: &[u8]) -> (r: bool)
    ensures
        r == has_prefix_ignoring_case(s@, p@),
{
    if p.len() > s.len() {
        return false;
    }
    let mut k: usize = 0;
    while k < p.len()
        invariant
            p@.len() <= s@.len(),
            k <= p@.len(),
            forall|q: int| 0 <= q < k ==> is_ascii_either_case(s@[q], p@[q]),
        decreases p@.len() - k,
    {
        let c = s[k];
        let l = p[k];
        let same = c == l || (97 <= l && l <= 122 && c == l - 32);
        if !same {
            return false;
        }
        k += 1;
    }
    true
}

/// The bytes of `OMIM:`, lower case.
pub open spec fn omim_tag() -> Seq<u8> {
    seq![111u8, 109u8, 105u8, 109u8, 58u8]
}

/// The bytes of `MIM:`, lower case.
pub open spec fn mim_tag() -> Seq<u8> {
    seq![109u8, 105u8, 109u8, 58u8]
}

/// The bytes of an OMIM ID with an `OMIM:` or `MIM:` prefix (any case) removed.
pub open spec fn stripped_spec(b: Seq<u8>) -> Seq<u8> {
    if has_prefix_ignoring_case(b, omim_tag()) && is_char_boundary(b, 5) {
        b.subrange(5, b.len() as int)
    } else if has_prefix_ignoring_case(b, mim_tag()) && is_char_boundary(b, 4) {
        b.subrange(4, b.len() as int)
    } else {
        b
    }
}

/// Remove an `OMIM:` or `MIM:` prefix, in any case, from an OMIM ID.
pub fn strip_omim_prefix(id: &str) -> (r: String)
    ensures
        r@ == vstd::utf8::decode_utf8(stripped_spec(id.spec_bytes())),
{
    let b = id.as_bytes();
    let omim: [u8; 5] = [111u8, 109u8, 105u8, 109u8, 58u8];
    let mim: [u8; 4] = [109u8, 105u8, 109u8, 58u8];
    assert(omim@ == omim_tag());
    assert(mim@ == mim_tag());
    let n: usize = if starts_with_ignoring_case(b, omim.as_slice()) && id.is_char_boundary(5) {
        5
    } else if starts_with_ignoring_case(b, mim.as_slice()) && id.is_char_boundary(4) {
        4
    } else {
        0
    };
    if n == 0 {
        proof {
            vstd::utf8::encode_utf8_decode_utf8(id@);
        }
        return id.to_owned();
    }
    let (_, tail) = id.split_at(n);
    proof {
        vstd::utf8::encode_utf8_decode_utf8(tail@);
    }
    tail.to_owned()
}

/// Parameters of a gene lookup: by ID, or by symbol with a match mode.
#[derive(Debug, Clone)]
pub struct HpoGenesQuery {
    /// The gene ID to search for (NCBI or HGNC).
    pub gene_id: Option<String>,
    /// The gene symbol to search for.
    pub gene_symbol: Option<String>,
    /// The match mode.
    pub match_: Option<Match>,
    /// Maximal number of results to return.
    pub max_results: usize,
    /// Whether to include HPO terms.
    pub hpo_terms: bool,
}

/// Representation of an HPO term in a lookup result.
#[derive(Debug, Clone)]
pub struct ResultHpoTerm {
    /// The HPO ID.
    pub term_id: String,
    /// The term name.
    pub name: String,
}

/// A gene found by a lookup.
#[derive(Debug, Clone)]
pub struct HpoGenesResultEntry {
    /// The gene's NCBI ID.
    pub gene_ncbi_id: u32,
    /// The gene's HGNC symbol.
    pub gene_symbol: String,
    /// The gene's HGNC ID.
    pub hgnc_id: Option<String>,
    /// The gene's associated HPO terms.
    pub hpo_terms: Option<Vec<ResultHpoTerm>>,
}

/// Result of a gene lookup.
#[derive(Debug, Clone)]
pub struct HpoGenesResult {
    /// Version information.
    pub version: Version,
    /// The query.
    pub query: HpoGenesQuery,
    /// The genes found.
    pub result: Vec<HpoGenesResultEntry>,
}

/// Parameters of a disease lookup: by OMIM ID, or by name with a match mode.
#[derive(Debug, Clone)]
pub struct HpoOmimsQuery {
    /// The OMIM ID to search for.
    pub omim_id: Option<String>,
    /// The disease name to search for.
    pub name: Option<String>,
    /// The match mode, `Match::Exact` by default.
    pub match_: Option<Match>,
    /// Whether case is ignored, `false` by default.
    pub ignore_case: Option<bool>,
    /// Maximal number of results to return.
    pub max_results: usize,
    /// Whether to include HPO terms.
    pub hpo_terms: bool,
}

impl HpoOmimsQuery {
    /// The query with an `OMIM:` or `MIM:` prefix removed from `omim_id`.
    pub fn with_stripped_prefix(self) -> (r: Self)
        ensures
            r.omim_id is Some <==> self.omim_id is Some,
            r.omim_id matches Some(id) ==> id@ == vstd::utf8::decode_utf8(
                stripped_spec(encode_utf8(self.omim_id->0@)),
            ),
            r.name == self.name,
            r.match_ == self.match_,
            r.ignore_case == self.ignore_case,
            r.max_results == self.max_results,
            r.hpo_terms == self.hpo_terms,
    {
        let omim_id = match &self.omim_id {
            Some(id) => Some(strip_omim_prefix(id.as_str())),
            None => None,
        };
        HpoOmimsQuery {
            omim_id,
            name: self.name,
            match_: self.match_,
            ignore_case: self.ignore_case,
            max_results: self.max_results,
            hpo_terms: self.hpo_terms,
        }
    }
}

/// A disease found by a lookup.
#[derive(Debug, Clone)]
pub struct HpoOmimsResultEntry {
    /// The OMIM ID.
    pub omim_id: String,
    /// The disease name.
    pub name: String,
    /// The disease's associated HPO terms.
    pub hpo_terms: Option<Vec<ResultHpoTerm>>,
}

/// Result of a disease lookup.
#[derive(Debug, Clone)]
pub struct HpoOmimsResult {
    /// Version information.
    pub version: Version,
    /// The query.
    pub query: HpoOmimsQuery,
    /// The diseases found.
    pub result: Vec<HpoOmimsResultEntry>,
}

/// Parameters of a term lookup.
#[derive(Debug, Clone)]
pub struct Query {
    /// The term ID to search for.
    pub term_id: Option<String>,
    /// The term name to search for.
    pub name: Option<String>,
    /// Maximal number of results to return.
    pub max_results: usize,
    /// Whether to include genes.
    pub genes: bool,
}

/// Parameters of a scoring of query terms against genes.
#[derive(Debug, Clone)]
pub struct HpoSimTermGeneQuery {
    /// Terms of the query.
    pub terms: Vec<String>,
    /// IDs of the genes to score.
    pub gene_ids: Option<Vec<String>>,
    /// Symbols of the genes to score.
    pub gene_symbols: Option<Vec<String>>,
}

/// Set-to-set similarity measure offered for scoring terms against genes.
#[derive(Debug, Clone, Copy, PartialEq, Eq, Structural)]
pub enum SimilarityMethod {
    /// Phenomizer score.
    Phenomizer,
}

/// The similarity measure used when a request names none.
pub fn default_sim() -> (r: SimilarityMethod)
    ensures
        r == SimilarityMethod::Phenomizer,
{
    SimilarityMethod::Phenomizer
}

/// Default largest number of lookup results.
pub fn _default_max_results() -> (r: usize)
    ensures
        r == 100,
{
    100
}

/// By default a lookup result lists no HPO terms.
pub fn _default_hpo_terms() -> (r: bool)
    ensures
        !r,
{
    false
}

/// By default a term lookup result lists no genes.
pub fn _default_genes() -> (r: bool)
    ensures
        !r,
{
    false
}

/// Parameters of a term-to-term similarity request.
#[derive(Debug, Clone)]
pub struct RequestQuery {
    /// The one set of HPO terms.
    pub lhs: Vec<String>,
    /// The other set of HPO terms.
    pub rhs: Vec<String>,
    /// What information content is based on.
    pub ic_base: IcBasedOn,
    /// The pairwise similarity measure.
    pub similarity: crate::common::SimilarityMethod,
    /// The score combiner.
    pub combiner: ScoreCombiner,
}

/// A term-to-term similarity request as returned with its response.
#[derive(Debug, Clone)]
pub struct ResponseQuery {
    /// The one set of HPO terms.
    pub lhs: Vec<String>,
    /// The other set of HPO terms.
    pub rhs: Vec<String>,
    /// What information content is based on.
    pub ic_base: IcBasedOn,
    /// The pairwise similarity measure.
    pub similarity: crate::common::SimilarityMethod,
    /// The score combiner.
    pub combiner: ScoreCombiner,
}

} // verus!
