use chiral_common::app::chem::recgen::build::{Input, Output, Report};
use chiral_common::kinds::{ComputingUnit, Dataset, Operator};
use chiral_common::traits::{Serialization, TraitOutput};

#[test]
fn test_recgen_round_trips() {
    let input = Input { mol: "sample molecule text\nwith lines".to_string() };
    assert_eq!(Input::ser_from(&input.ser_to()), input);
    let output = Output { results: vec!["CCO".to_string(), "CCN".to_string()] };
    assert_eq!(Output::ser_from(&output.ser_to()), output);
    let report = Report {
        job_id: "j4".to_string(),
        cuk: ComputingUnit::new(Operator::ReCGenBuild, Dataset::Empty),
        input,
        output,
    };
    assert_eq!(Report::ser_from(&report.ser_to()), report);
}

#[test]
fn test_recgen_append_unique() {
    let mut acc = Output { results: vec!["CCO".to_string(), "CCN".to_string()] };
    let mut more = Output {
        results: vec!["CCN".to_string(), "c1ccccc1".to_string(), "CCO".to_string()],
    };
    acc.append(&mut more);
    assert_eq!(
        acc.results,
        vec!["CCO".to_string(), "CCN".to_string(), "c1ccccc1".to_string()]
    );
}

#[test]
fn test_recgen_report_merges_without_duplicates() {
    let input_ser = Input { mol: "m".to_string() }.ser_to();
    let part_1 = Output { results: vec!["CCO".to_string()] }.ser_to();
    let part_2 = Output { results: vec!["CCO".to_string(), "CCN".to_string()] }.ser_to();
    let report = Report::new((
        "j5".to_string(),
        ComputingUnit::new(Operator::ReCGenBuild, Dataset::Empty),
        &input_ser,
        &vec![part_1, part_2],
    ));
    assert_eq!(report.output.results, vec!["CCO".to_string(), "CCN".to_string()]);
}
