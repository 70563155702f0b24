use std::str::FromStr;

use chiral_common::app::chem::kinds::{Fingerprint, ParseStringError};
use chiral_common::kinds::{ComputationKind, Dataset, Operator};

#[test]
fn test_kind() {
    let kind = Dataset::TestChembl;
    assert_eq!(kind.size(), 10000);
}

#[test]
fn dataset_test_strum() {
    assert_eq!(Dataset::from_str("empty").unwrap(), Dataset::Empty);
    assert_eq!(Dataset::from_str("test_chembl").unwrap(), Dataset::TestChembl);
    assert_eq!(Dataset::from_str("chembl30").unwrap(), Dataset::Chembl30);
    assert_eq!(Dataset::Empty.to_string(), "empty");
    assert_eq!(Dataset::TestChembl.to_string(), "test_chembl");
    assert_eq!(Dataset::Chembl30.to_string(), "chembl30");
}

#[test]
fn operator_test_strum() {
    assert_eq!(
        Operator::OpenBabelSimilaritySearching(Fingerprint::kind_openbabel_ecfp4(1024)).to_string(),
        "ob_sim"
    );
    assert_eq!(Operator::from_str("ob_ss").unwrap(), Operator::OpenBabelSSMatching);
    assert_eq!(Operator::OpenBabelSSMatching.to_string(), "ob_ss");
}

#[test]
fn kind_test_strum() {
    assert_eq!(
        Operator::OpenBabelSimilaritySearching(Fingerprint::kind_openbabel_ecfp4(1024)).to_string(),
        "ob_sim"
    );
    assert_eq!(Operator::from_str("ob_ss").unwrap(), Operator::OpenBabelSSMatching);
    assert_eq!(Operator::OpenBabelSSMatching.to_string(), "ob_ss");
}

#[test]
fn fingerprint_test_strum() {
    let fp1 = Fingerprint::from_str("ob_fp4_512");
    assert_eq!(fp1, Ok(Fingerprint::kind_openbabel_fp4(512)));
    assert_eq!(fp1.unwrap().to_string(), "ob_fp4_512");
    let fp2 = Fingerprint::from_str("ob_fp4");
    assert_eq!(fp2, Err(ParseStringError::NotThreeParts("ob_fp4".to_string())));
    let fp3 = Fingerprint::from_str("ob_fp4_51k");
    assert_eq!(fp3, Err(ParseStringError::NotIntegerNbits("51k".to_string())));
    let fp4 = Fingerprint::from_str("rdkit_fp4_512");
    assert_eq!(
        fp4,
        Err(ParseStringError::TypeNotFound("rdkit".to_string(), "fp4".to_string()))
    );
    let fp5 = Fingerprint::from_str("ob_fp5_512");
    assert_eq!(
        fp5,
        Err(ParseStringError::TypeNotFound("ob".to_string(), "fp5".to_string()))
    );
}

#[test]
fn test_computation_kind() {
    assert_eq!(
        Operator::OpenBabelSSMatching.computation_kind(),
        ComputationKind::MultipleMachines
    );
    assert_eq!(
        Operator::default_ob_similarity_searching().computation_kind(),
        ComputationKind::MultipleMachines
    );
    assert_eq!(
        Operator::GromacsRunGMXCommand.computation_kind(),
        ComputationKind::SingleMachineCPU
    );
    assert!(Operator::OpenBabelSSMatching.is_openbabel());
    assert!(!Operator::ReCGenBuild.is_openbabel());
    assert_eq!(Operator::GromacsRunGMXCommand.app_name(), "gromacs");
}
