use chiral_common::app::chem::gromacs::gmx_command as gmx;
use chiral_common::app::chem::kinds::Fingerprint;
use chiral_common::app::chem::openbabel::similarity as sim;
use chiral_common::app::chem::openbabel::substructure as ss;
use chiral_common::job::Requirement;
use chiral_common::kinds::{ComputingUnit, Dataset, Operator};
use chiral_common::serial;
use chiral_common::traits::{Serialization, TraitInput};

#[test]
fn test_serialization() {
    let ts = Requirement::new(
        "hello".to_string(),
        Operator::OpenBabelSSMatching,
        Dataset::TestChembl,
    );
    assert_eq!(ts.ser_to(), "5:helloMT".to_string());
    let ts_desser = Requirement::ser_from(&"5:helloMT".to_string());
    assert_eq!(ts_desser, ts);
}

#[test]
fn test_round_trip_kinds() {
    let dsk = Dataset::Chembl30;
    assert_eq!(Dataset::ser_from(&dsk.ser_to()), dsk);
    let fpk = Fingerprint::kind_openbabel_ecfp6(4096);
    assert_eq!(Fingerprint::ser_from(&fpk.ser_to()), fpk);
    let opk = Operator::OpenBabelSimilaritySearching(fpk);
    assert_eq!(Operator::ser_from(&opk.ser_to()), opk);
    let cuk = ComputingUnit::new(opk.clone(), dsk);
    assert_eq!(ComputingUnit::ser_from(&cuk.ser_to()), cuk);
}

#[test]
fn test_round_trip_requirement() {
    let req = Requirement::new(
        "an input: with 7:nested3:bits".to_string(),
        Operator::default_ob_similarity_searching(),
        Dataset::Dummy,
    );
    let encoded = req.ser_to();
    let decoded = Requirement::ser_from(&encoded);
    assert_eq!(decoded, req);
}

#[test]
fn test_round_trip_similarity_types() {
    let input = sim::Input {
        smiles: "c1ccccc1".to_string(),
        threshold: sim::Threshold { num: 45, den: 1000 },
    };
    assert_eq!(sim::Input::ser_from(&input.ser_to()), input);
    let output = sim::Output {
        results: vec![
            (sim::TanimotoCoeff { num: 3, den: 17 }, "CHEMBL1".to_string()),
            (sim::TanimotoCoeff { num: 0, den: 5 }, "CHEMBL2".to_string()),
        ],
    };
    assert_eq!(sim::Output::ser_from(&output.ser_to()), output);
    let report = sim::Report {
        job_id: "j1".to_string(),
        cuk: ComputingUnit::new(Operator::default_ob_similarity_searching(), Dataset::Dummy),
        input,
        output,
    };
    assert_eq!(sim::Report::ser_from(&report.ser_to()), report);
}

#[test]
fn test_round_trip_substructure_types() {
    let input = ss::Input { smarts: "O=CN*".to_string() };
    assert_eq!(ss::Input::ser_from(&input.ser_to()), input);
    let output = ss::Output {
        results: vec![
            (vec![vec![4, 3, 5, 6]], "label_1".to_string()),
            (vec![vec![1, -2], vec![]], "label_2".to_string()),
        ],
    };
    assert_eq!(ss::Output::ser_from(&output.ser_to()), output);
    let report = ss::Report {
        job_id: "j2".to_string(),
        cuk: ComputingUnit::new(Operator::OpenBabelSSMatching, Dataset::TestChembl),
        input,
        output,
    };
    assert_eq!(ss::Report::ser_from(&report.ser_to()), report);
}

#[test]
fn test_round_trip_gromacs_types() {
    let input = gmx::Input::default();
    assert_eq!(input.simulation_id, "lysozyme".to_string());
    assert_eq!(input.sub_command, "pdb2gmx".to_string());
    assert_eq!(gmx::Input::ser_from(&input.ser_to()), input);
    let output = gmx::Output {
        success: true,
        stdout: "all good".to_string(),
        stderr: String::new(),
    };
    assert_eq!(gmx::Output::ser_from(&output.ser_to()), output);
    let report = gmx::Report {
        job_id: "j3".to_string(),
        cuk: ComputingUnit::new(Operator::GromacsRunGMXCommand, Dataset::Empty),
        input,
        output,
    };
    assert_eq!(gmx::Report::ser_from(&report.ser_to()), report);
}

#[test]
fn test_gmx_outcome() {
    let ok = gmx::Output::from_run(true, "out".to_string(), "warnings".to_string());
    assert_eq!(
        ok,
        Ok(gmx::Output {
            success: true,
            stdout: "out".to_string(),
            stderr: String::new()
        })
    );
    let failed = gmx::Output::from_run(false, "out".to_string(), "exploded".to_string());
    assert_eq!(failed, Err("exploded".to_string()));
}

#[test]
fn test_decode_rejects_malformed() {
    assert_eq!(serial::decode_u64("abc", 0), None);
    assert_eq!(serial::decode_u64("", 0), None);
    assert_eq!(serial::decode_u64("99999999999999999999", 0), None);
    assert_eq!(serial::decode_num_u64("12", 0), None);
    assert_eq!(serial::decode_num_u64("12:", 0), Some((12, 3)));
    assert_eq!(serial::decode_str("5:abc", 0), None);
    assert_eq!(serial::decode_str("3:abc", 0), Some(("abc".to_string(), 5)));
    assert_eq!(serial::decode_bool("x", 0), None);
    assert_eq!(serial::decode_i32("-", 0), None);
    assert_eq!(serial::decode_i32("-4:", 0), Some((-4, 3)));
    assert_eq!(serial::decode_str_list("2:1:a", 0), None);
}

#[test]
fn test_create_requirement() {
    let ser = chiral_common::job::create_requirement(
        "c1ccccc1".to_string(),
        "ob_ss".to_string(),
        "test_chembl".to_string(),
    );
    let req = Requirement::new(
        "c1ccccc1".to_string(),
        Operator::OpenBabelSSMatching,
        Dataset::TestChembl,
    );
    assert_eq!(ser, req.ser_to());
}
