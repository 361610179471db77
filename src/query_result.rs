//! Records that describe a scoring query and the genes in it.
use vstd::prelude::*;

verus! {

/// An HPO term given by its ID, with its name when known.
#[derive(Debug, Clone)]
pub struct HpoTerm {
    /// The term ID.
    pub term_id: String,
    /// The term name.
    pub term_name: Option<String>,
}

/// A gene of a query.
#[derive(Debug, Clone)]
pub struct Gene {
    /// The NCBI gene ID.
    pub entrez_id: u32,
    /// The gene symbol.
    pub gene_symbol: String,
    /// The HGNC ID.
    pub hgnc_id: Option<String>,
}

/// A performed query: its terms and the genes scored.
#[derive(Debug, Clone)]
pub struct Query {
    /// The query HPO terms.
    pub terms: Vec<HpoTerm>,
    /// The genes scored.
    pub genes: Vec<Gene>,
}

} // verus!
