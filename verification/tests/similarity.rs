use chiral_common::app::chem::kinds::Fingerprint;
use chiral_common::app::chem::openbabel::similarity::{
    similarity_tanimoto, Data, Input, Operator, Report, TanimotoCoeff, Threshold,
};
use chiral_common::data::{DocSMILES, Dummy};
use chiral_common::kinds::{ComputingUnit, Dataset, Operator as OperatorKind};
use chiral_common::job::DividendIndex;
use chiral_common::traits::{Serialization, TraitData, TraitDataStore};

#[test]
fn similarity_test_op() {
    let dsk = Dataset::Dummy;
    let doc_smiles = DocSMILES::dummy();
    let com_fpk = Fingerprint::kind_openbabel_ecfp4(2048);
    let op = Operator::from(com_fpk);
    let data = Data::from((&com_fpk, &dsk, &doc_smiles));
    assert_eq!(data.len(), 4);
    let input = Input {
        smiles: String::from("c1ccccc1"),
        threshold: Threshold { num: 45, den: 1000 },
    };
    let output = op.compute(&input, &data, &(0, 1));
    assert_eq!(output.results.len(), 2);
    for (coeff, _id) in output.results.iter() {
        assert!(coeff.gt(&input.threshold));
    }
    let report = op.report("job_id".to_string(), input, &data, output);
    let serialized_report = report.ser_to();
    let report_deserialized = Report::ser_from(&serialized_report);
    let cuk = ComputingUnit::new(
        OperatorKind::OpenBabelSimilaritySearching(com_fpk),
        dsk,
    );
    assert_eq!(report_deserialized.cuk, cuk);
    assert_eq!(report_deserialized.output.results.len(), 2);
    assert_eq!(report_deserialized, report);
}

#[test]
fn test_tanimoto_exact() {
    let a: Vec<u32> = vec![0b1011, 0, 0xffff_0000];
    let b: Vec<u32> = vec![0b0011, 0, 0x00ff_0000];
    let c = similarity_tanimoto(a.as_slice(), b.as_slice());
    assert_eq!(c.num, 2 + 8);
    assert_eq!(c.den, 3 + 16);
}

#[test]
fn test_similarity_self_is_one() {
    let a: Vec<u32> = vec![5, 0, 7];
    let c = similarity_tanimoto(a.as_slice(), a.as_slice());
    assert!(c.num == c.den);
    assert!(c.den > 0);
}

#[test]
fn test_similarity_symmetric() {
    let a: Vec<u32> = vec![0b1100, 9, 1];
    let b: Vec<u32> = vec![0b1010, 3, 0];
    let ab = similarity_tanimoto(a.as_slice(), b.as_slice());
    let ba = similarity_tanimoto(b.as_slice(), a.as_slice());
    assert_eq!(ab, ba);
    assert!(ab.num <= ab.den);
}

#[test]
fn test_similarity_zero() {
    let zero: Vec<u32> = vec![0, 0];
    let c = similarity_tanimoto(zero.as_slice(), zero.as_slice());
    assert_eq!(c, TanimotoCoeff { num: 0, den: 0 });
    assert!(!c.gt(&Threshold { num: 0, den: 1 }));
    let a: Vec<u32> = vec![1, 0];
    let b: Vec<u32> = vec![2, 0];
    let disjoint = similarity_tanimoto(a.as_slice(), b.as_slice());
    assert_eq!(disjoint.num, 0);
    assert_eq!(disjoint.den, 2);
}

#[test]
fn test_threshold_comparison() {
    let c = TanimotoCoeff { num: 1, den: 2 };
    assert!(c.gt(&Threshold { num: 45, den: 1000 }));
    assert!(!c.gt(&Threshold { num: 1, den: 2 }));
    assert!(!c.gt(&Threshold { num: 3, den: 4 }));
}

#[test]
fn test_compute_empty_data() {
    let fpk = Fingerprint::kind_openbabel_ecfp4(2048);
    let op = Operator::from(fpk);
    let data = <Data as TraitData>::blank();
    let input = Input {
        smiles: String::from("c1ccccc1"),
        threshold: Threshold { num: 0, den: 1 },
    };
    let output = op.compute(&input, &data, &(0, 1));
    assert_eq!(output.results.len(), 0);
}

struct DummyStore {
    doc: DocSMILES,
}

impl TraitDataStore for DummyStore {
    fn get_id_smiles_pairs(
        &self,
        dsk: &Dataset,
        _div_index: &DividendIndex,
    ) -> Option<(Vec<String>, Vec<String>)> {
        match dsk {
            Dataset::Dummy => Some((
                self.doc.get_ids().clone(),
                self.doc.get_smiles_vec().clone(),
            )),
            _ => None,
        }
    }
}

#[test]
fn test_compute_dividend_through_store() {
    let store = DummyStore { doc: DocSMILES::dummy() };
    let op = Operator::from(Fingerprint::kind_openbabel_ecfp4(2048));
    let input = Input {
        smiles: String::from("c1ccccc1"),
        threshold: Threshold { num: 45, den: 1000 },
    };
    let hit = op.compute_dividend(&input, &Dataset::Dummy, &(0, 1), &store);
    assert_eq!(hit.expect("dummy data present").results.len(), 2);
    let miss = op.compute_dividend(&input, &Dataset::Empty, &(0, 1), &store);
    assert_eq!(miss, None);
}
