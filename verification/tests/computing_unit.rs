use chiral_common::app::chem::openbabel::substructure;
use chiral_common::app::cu::{create_cu, CuHolder};
use chiral_common::data::{DocSMILES, Dummy};
use chiral_common::kinds::{Dataset, Operator};
use chiral_common::traits::Serialization;

#[test]
fn test_create_cu_substructure() {
    let mut holder = create_cu(&Operator::OpenBabelSSMatching);
    assert!(matches!(holder, CuHolder::Substructure(_)));
    assert_eq!(holder.get_output_len(), 0);
    let input_ser = substructure::Input { smarts: "C(=O)O".to_string() }.ser_to();
    holder.set_input(&input_ser);
    let doc = DocSMILES::dummy();
    holder.set_data(&Dataset::Dummy, &doc);
    holder.compute();
    assert_eq!(holder.get_output_len(), 2);
    holder.compute();
    assert_eq!(holder.get_output_len(), 4);
}

#[test]
fn test_create_cu_similarity() {
    let opk = Operator::default_ob_similarity_searching();
    let holder = create_cu(&opk);
    assert!(matches!(holder, CuHolder::Similarity(_)));
}
