use chiral_common::app::chem::openbabel::substructure::{
    Data, Input, OpenBabelSSMatcher, Operator, Report,
};
use chiral_common::data::{DocSMILES, Dummy};
use chiral_common::kinds::{ComputingUnit, Dataset, Operator as OperatorKind};
use chiral_common::traits::{Serialization, TraitData};

#[test]
fn substructure_test_matcher() {
    let matcher = OpenBabelSSMatcher::new(&String::from("O=CN*"));
    let match_result_1 = matcher.find_match("NCC(=O)NCC");
    assert_eq!(match_result_1.len(), 1);
    assert_eq!(vec![vec![4, 3, 5, 6]], match_result_1);
    let matcher_2 = OpenBabelSSMatcher::new(&String::from("c1ccccc1N=O"));
    let match_result_2 = matcher_2.find_match("COc1cc([N+](=O)[O-])c(OC)cc1CC(C)N");
    assert_eq!(match_result_2.len(), 2);
    assert_eq!(
        vec![vec![4, 3, 13, 12, 9, 5, 6, 7], vec![9, 12, 13, 3, 4, 5, 6, 7]],
        match_result_2
    );
}

#[test]
fn substructure_test_op() {
    let dsk = Dataset::Dummy;
    let doc = DocSMILES::dummy();
    let data = Data::from((&dsk, &doc));
    assert_eq!(data.len(), 4);
    let op = Operator::new(&OperatorKind::OpenBabelSSMatching);
    let input = Input { smarts: String::from("C(=O)O") };
    let output = op.compute(&input, &data, &(0, 1));
    assert_eq!(output.results.len(), 2);
    let report = op.report("job_id".to_string(), input, &data, output);
    let serialized_report = report.ser_to();
    let report_deserialized = Report::ser_from(&serialized_report);
    let cuk = ComputingUnit::new(OperatorKind::OpenBabelSSMatching, dsk);
    assert_eq!(report_deserialized.cuk, cuk);
    assert_eq!(report_deserialized.output.results.len(), 2);
    assert_eq!(report_deserialized, report);
    let input_1 = Input { smarts: String::from("C(=O)O") };
    let output_1 = op.compute(&input_1, &data, &(0, 1));
    let mut report_1 = op.report("job_id".to_string(), input_1, &data, output_1);
    let input_2 = Input { smarts: String::from("C(=O)O") };
    let output_2 = op.compute(&input_2, &data, &(0, 1));
    let report_2 = op.report("job_id".to_string(), input_2, &data, output_2);
    report_1.extend(report_2);
    assert_eq!(report_1.output.results.len(), 4);
}
