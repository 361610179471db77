//! Options shared by the commands, version information and string helpers.
use vstd::prelude::*;

use vstd::string::StringSliceAdditionalSpecFns;

use crate::error::Error;

verus! {

broadcast use vstd::utf8::encode_utf8_decode_utf8;

/// Version of this library.
pub const VERSION: &'static str = "0.1.0";

/// Whether two strings hold the same characters, compared on their UTF-8 bytes.
pub fn str_eq(a: &str, b: &str) -> (r: bool)
    ensures
        r == (a@ == b@),
{
    let x = a.as_bytes();
    let y = b.as_bytes();
    proof {
        assert(a@ == vstd::utf8::decode_utf8(a.spec_bytes()));
        assert(b@ == vstd::utf8::decode_utf8(b.spec_bytes()));
    }
    if x.len() != y.len() {
        return false;
    }
    let mut i: usize = 0;
    while i < x.len()
        invariant
            x@ == a.spec_bytes(),
            y@ == b.spec_bytes(),
            x@.len() == y@.len(),
            i <= x@.len(),
            forall|k: int| 0 <= k < i ==> x@[k] == y@[k],
        decreases x@.len() - i,
    {
        if x[i] != y[i] {
            return false;
        }
        i += 1;
    }
    assert(x@ =~= y@);
    true
}

/// What information content is based on.
#[derive(Debug, Clone, Copy, PartialEq, Eq, Structural)]
pub enum IcBasedOn {
    /// Information content based on genes.
    Gene,
    /// Information content based on OMIM diseases.
    Omim,
}

impl Default for IcBasedOn {
    fn default() -> (r: IcBasedOn)
        ensures
            r == IcBasedOn::Gene,
    {
        IcBasedOn::Gene
    }
}

impl IcBasedOn {
    /// The name of the option.
    pub fn name(&self) -> (r: &'static str)
        ensures
            r@ == self.name_spec(),
    {
        match self {
            IcBasedOn::Gene => "gene",
            IcBasedOn::Omim => "omim",
        }
    }

    /// The name of the option.
    pub open spec fn name_spec(&self) -> Seq<char> {
        match self {
            IcBasedOn::Gene => "gene"@,
            IcBasedOn::Omim => "omim"@,
        }
    }

    /// The option with name `s`.
    pub fn parse(s: &str) -> (r: Result<IcBasedOn, Error>)
        ensures
            r matches Ok(v) ==> v.name_spec() == s@,
            r is Err ==> r == Err::<IcBasedOn, Error>(Error::UnknownName) && s@ != "gene"@
                && s@ != "omim"@,
    {
        if str_eq(s, "gene") {
            Ok(IcBasedOn::Gene)
        } else if str_eq(s, "omim") {
            Ok(IcBasedOn::Omim)
        } else {
            Err(Error::UnknownName)
        }
    }
}

impl std::str::FromStr for IcBasedOn {
    type Err = Error;

    fn from_str(s: &str) -> Result<IcBasedOn, Error> {
        IcBasedOn::parse(s)
    }
}

/// The pairwise term similarity measure.
#[derive(Debug, Clone, Copy, PartialEq, Eq, Structural)]
pub enum SimilarityMethod {
    /// "Distance" similarity.
    DistanceGene,
    /// Graph IC similarity.
    GraphIc,
    /// Information coefficient similarity.
    InformationCoefficient,
    /// Jiang & Conrath similarity.
    Jc,
    /// Lin similarity.
    Lin,
    /// "Mutation" similarity.
    Mutation,
    /// "Relevance" similarity.
    Relevance,
    /// Resnik similarity.
    Resnik,
}

impl Default for SimilarityMethod {
    fn default() -> (r: SimilarityMethod)
        ensures
            r == SimilarityMethod::Resnik,
    {
        SimilarityMethod::Resnik
    }
}

impl SimilarityMethod {
    /// The name of the option.
    pub open spec fn name_spec(&self) -> Seq<char> {
        match self {
            SimilarityMethod::DistanceGene => "distance"@,
            SimilarityMethod::GraphIc => "graph-ic"@,
            SimilarityMethod::InformationCoefficient => "information-coefficient"@,
            SimilarityMethod::Jc => "jc"@,
            SimilarityMethod::Lin => "lin"@,
            SimilarityMethod::Mutation => "mutation"@,
            SimilarityMethod::Relevance => "relevance"@,
            SimilarityMethod::Resnik => "resnik"@,
        }
    }

    /// The name of the option.
    pub fn name(&self) -> (r: &'static str)
        ensures
            r@ == self.name_spec(),
    {
        match self {
            SimilarityMethod::DistanceGene => "distance",
            SimilarityMethod::GraphIc => "graph-ic",
            SimilarityMethod::InformationCoefficient => "information-coefficient",
            SimilarityMethod::Jc => "jc",
            SimilarityMethod::Lin => "lin",
            SimilarityMethod::Mutation => "mutation",
            SimilarityMethod::Relevance => "relevance",
            SimilarityMethod::Resnik => "resnik",
        }
    }

    /// The option with name `s`.
    pub fn parse(s: &str) -> (r: Result<SimilarityMethod, Error>)
        ensures
            r matches Ok(v) ==> v.name_spec() == s@,
            r is Err ==> r == Err::<SimilarityMethod, Error>(Error::UnknownName) && forall|
                v: SimilarityMethod,
            | #[trigger] v.name_spec() != s@,
    {
        let all = [
            SimilarityMethod::DistanceGene,
            SimilarityMethod::GraphIc,
            SimilarityMethod::InformationCoefficient,
            SimilarityMethod::Jc,
            SimilarityMethod::Lin,
            SimilarityMethod::Mutation,
            SimilarityMethod::Relevance,
            SimilarityMethod::Resnik,
        ];
        let mut i: usize = 0;
        while i < 8
            invariant
                all@ == seq![
                    SimilarityMethod::DistanceGene,
                    SimilarityMethod::GraphIc,
                    SimilarityMethod::InformationCoefficient,
                    SimilarityMethod::Jc,
                    SimilarityMethod::Lin,
                    SimilarityMethod::Mutation,
                    SimilarityMethod::Relevance,
                    SimilarityMethod::Resnik,
                ],
                i <= 8,
                forall|k: int| 0 <= k < i ==> (#[trigger] all@[k]).name_spec() != s@,
            decreases 8 - i,
        {
            if str_eq(s, all[i].name()) {
                return Ok(all[i]);
            }
            i += 1;
        }
        assert forall|v: SimilarityMethod| #[trigger] v.name_spec() != s@ by {
            match v {
                SimilarityMethod::DistanceGene => assert(all@[0] == v),
                SimilarityMethod::GraphIc => assert(all@[1] == v),
                SimilarityMethod::InformationCoefficient => assert(all@[2] == v),
                SimilarityMethod::Jc => assert(all@[3] == v),
                SimilarityMethod::Lin => assert(all@[4] == v),
                SimilarityMethod::Mutation => assert(all@[5] == v),
                SimilarityMethod::Relevance => assert(all@[6] == v),
                SimilarityMethod::Resnik => assert(all@[7] == v),
            }
        }
        Err(Error::UnknownName)
    }
}

impl std::str::FromStr for SimilarityMethod {
    type Err = Error;

    fn from_str(s: &str) -> Result<SimilarityMethod, Error> {
        SimilarityMethod::parse(s)
    }
}

/// How pairwise scores are combined into a set-to-set score.
#[derive(Debug, Clone, Copy, PartialEq, Eq, Structural)]
pub enum ScoreCombiner {
    /// funSimAvg: the mean of the two directed best-match averages.
    FunSimAvg,
    /// funSimMax: the larger of the two directed best-match averages.
    FunSimMax,
    /// Best-match average over both directions.
    Bma,
}

impl Default for ScoreCombiner {
    fn default() -> (r: ScoreCombiner)
        ensures
            r == ScoreCombiner::FunSimAvg,
    {
        ScoreCombiner::FunSimAvg
    }
}

impl ScoreCombiner {
    /// The name of the option.
    pub open spec fn name_spec(&self) -> Seq<char> {
        match self {
            ScoreCombiner::FunSimAvg => "fun-sim-avg"@,
            ScoreCombiner::FunSimMax => "fun-sim-max"@,
            ScoreCombiner::Bma => "bma"@,
        }
    }

    /// The name of the option.
    pub fn name(&self) -> (r: &'static str)
        ensures
            r@ == self.name_spec(),
    {
        match self {
            ScoreCombiner::FunSimAvg => "fun-sim-avg",
            ScoreCombiner::FunSimMax => "fun-sim-max",
            ScoreCombiner::Bma => "bma",
        }
    }

    /// The option with name `s`.
    pub fn parse(s: &str) -> (r: Result<ScoreCombiner, Error>)
        ensures
            r matches Ok(v) ==> v.name_spec() == s@,
            r is Err ==> r == Err::<ScoreCombiner, Error>(Error::UnknownName) && s@
                != "fun-sim-avg"@ && s@ != "fun-sim-max"@ && s@ != "bma"@,
    {
        if str_eq(s, "fun-sim-avg") {
            Ok(ScoreCombiner::FunSimAvg)
        } else if str_eq(s, "fun-sim-max") {
            Ok(ScoreCombiner::FunSimMax)
        } else if str_eq(s, "bma") {
            Ok(ScoreCombiner::Bma)
        } else {
            Err(Error::UnknownName)
        }
    }
}

impl std::str::FromStr for ScoreCombiner {
    type Err = Error;

    fn from_str(s: &str) -> Result<ScoreCombiner, Error> {
        ScoreCombiner::parse(s)
    }
}

/// Versions of the ontology and of this library, recorded with a store of
/// distributions.
#[derive(Debug, Clone)]
pub struct Version {
    /// Version of the HPO.
    pub hpo: String,
    /// Version of this library.
    pub viguno: String,
}

impl Version {
    /// Version information for ontology version `hpo` and this library.
    pub fn new(hpo: &str) -> (r: Version)
        ensures
            r.hpo@ == hpo@,
            r.viguno@ == VERSION@,
    {
        Version { hpo: hpo.to_owned(), viguno: VERSION.to_owned() }
    }

    /// Whether distributions recorded with this version may be used with the
    /// loaded ontology version `hpo`: the ontology versions must be equal.
    pub fn is_compatible(&self, hpo: &str) -> (r: bool)
        ensures
            r == (self.hpo@ == hpo@),
    {
        str_eq(self.hpo.as_str(), hpo)
    }
}

/// An entry of the HGNC cross-reference table.
#[derive(Debug, Clone)]
pub struct Entry {
    /// HGNC gene ID.
    pub hgnc_id: String,
    /// Ensembl gene ID.
    pub ensembl_gene_id: Option<String>,
    /// Entrez (NCBI) gene ID.
    pub ncgi_gene_id: Option<u32>,
    /// Gene symbol.
    pub gene_symbol: String,
}

} // verus!
