use viguno::common::{IcBasedOn, ScoreCombiner, SimilarityMethod, Version, VERSION};
use viguno::server::{
    default_sim, name_matches, select_matches, strip_omim_prefix, HpoOmimsQuery, Match,
};
use viguno::Error;

fn names(v: &[&str]) -> Vec<String> {
    v.iter().map(|s| s.to_string()).collect()
}

#[test]
fn hpo_genes_test_handle() {
    let symbols = names(&["TGDS", "TTN", "ATGDS", "TGD", "FBN1"]);
    assert_eq!(select_matches(Match::Exact, "TGDS", &symbols, 100), vec![0]);
    assert_eq!(select_matches(Match::Prefix, "TGD", &symbols, 100), vec![0, 3]);
    assert_eq!(select_matches(Match::Suffix, "GDS", &symbols, 100), vec![0, 2]);
    assert_eq!(select_matches(Match::Contains, "GD", &symbols, 100), vec![0, 2, 3]);
    assert_eq!(select_matches(Match::Contains, "GD", &symbols, 2), vec![0, 2]);
    assert_eq!(select_matches(Match::Exact, "XYZ", &symbols, 100), Vec::<usize>::new());
}

#[test]
fn hpo_omims_test_handle() {
    let query = HpoOmimsQuery {
        omim_id: Some(String::from("OMIM:616145")),
        name: None,
        match_: None,
        ignore_case: None,
        max_results: 100,
        hpo_terms: false,
    }
    .with_stripped_prefix();
    assert_eq!(query.omim_id.as_deref(), Some("616145"));
    let diseases = names(&["Catel-Manzke syndrome", "Marfan syndrome", "Catel-Manzke like"]);
    assert_eq!(select_matches(Match::Prefix, "Catel-Manzke syndro", &diseases, 100), vec![0]);
    assert_eq!(select_matches(Match::Suffix, "syndrome", &diseases, 100), vec![0, 1]);
    assert_eq!(select_matches(Match::Contains, "tel-Manzke", &diseases, 100), vec![0, 2]);
}

#[test]
fn omim_prefixes_are_stripped_in_any_case() {
    assert_eq!(strip_omim_prefix("OMIM:616145"), "616145");
    assert_eq!(strip_omim_prefix("omim:616145"), "616145");
    assert_eq!(strip_omim_prefix("MIM:616145"), "616145");
    assert_eq!(strip_omim_prefix("Mim:1"), "1");
    assert_eq!(strip_omim_prefix("616145"), "616145");
    assert_eq!(strip_omim_prefix("OMI:616145"), "OMI:616145");
}

#[test]
fn match_modes() {
    assert!(name_matches(Match::Exact, "abc", "abc"));
    assert!(!name_matches(Match::Exact, "ab", "abc"));
    assert!(name_matches(Match::Prefix, "", "abc"));
    assert!(!name_matches(Match::Suffix, "abcd", "abc"));
    assert!(name_matches(Match::Contains, "é", "café au lait"));
    assert!(!name_matches(Match::Contains, "x", ""));
}

#[test]
fn option_names_parse() {
    assert_eq!(IcBasedOn::parse("omim"), Ok(IcBasedOn::Omim));
    assert_eq!(IcBasedOn::parse("disease"), Err(Error::UnknownName));
    assert_eq!(IcBasedOn::default().name(), "gene");
    assert_eq!(SimilarityMethod::parse("graph-ic"), Ok(SimilarityMethod::GraphIc));
    assert_eq!(SimilarityMethod::parse("Resnik"), Err(Error::UnknownName));
    assert_eq!(SimilarityMethod::default().name(), "resnik");
    assert_eq!(ScoreCombiner::parse("bma"), Ok(ScoreCombiner::Bma));
    assert_eq!(ScoreCombiner::default().name(), "fun-sim-avg");
    assert_eq!(default_sim(), viguno::server::SimilarityMethod::Phenomizer);
}

#[test]
fn version_compatibility() {
    let v = Version::new("2023-06-06");
    assert_eq!(v.viguno, VERSION);
    assert!(v.is_compatible("2023-06-06"));
    assert!(!v.is_compatible("2023-07-01"));
}

#[test]
fn option_names_parse_through_from_str() {
    assert_eq!("gene".parse::<IcBasedOn>(), Ok(IcBasedOn::Gene));
    assert_eq!("lin".parse::<SimilarityMethod>(), Ok(SimilarityMethod::Lin));
    assert_eq!("fun-sim-max".parse::<ScoreCombiner>(), Ok(ScoreCombiner::FunSimMax));
    assert_eq!("max".parse::<ScoreCombiner>(), Err(Error::UnknownName));
}
