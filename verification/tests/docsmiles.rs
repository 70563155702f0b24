use chiral_common::data::{DocSMILES, Dummy};

#[test]
fn test_doc_smiles() {
    let doc = DocSMILES::dummy();
    assert_eq!(doc.get_ids().len(), 4);
    assert_eq!(doc.get_smiles_vec().len(), 4);
    assert_eq!(
        doc.get_smiles(&"label_3".to_string()),
        Some(&String::from("N1=C(c3c(Sc2c1cccc2)cccc3)N4CCN(CCOCCO)CC4"))
    );
    assert_eq!(doc.get_smiles(&"label_5".to_string()), None);
}

#[test]
fn test_doc_extract() {
    let doc = DocSMILES::dummy();
    let sub = doc.extract(&(1..3));
    assert_eq!(sub.len(), 2);
    assert_eq!(sub.get_ids()[0], "label_2".to_string());
    assert_eq!(sub.get_ids()[1], "label_3".to_string());
}

#[test]
fn test_sorted_lookup() {
    let ids = vec![
        "CHEMBL9".to_string(),
        "CHEMBL2".to_string(),
        "CHEMBL10030".to_string(),
        "CHEMBL5".to_string(),
    ];
    let smiles = vec![
        "CCO".to_string(),
        "CCN".to_string(),
        "O=C(c1ccc(OCCN2CCCC2)cc1)c1c(-c2ccc(O)cc2)sc2cc(O)ccc12".to_string(),
        "c1ccccc1".to_string(),
    ];
    let doc = DocSMILES::new(ids, smiles);
    assert_eq!(
        doc.get_ids(),
        &vec![
            "CHEMBL10030".to_string(),
            "CHEMBL2".to_string(),
            "CHEMBL5".to_string(),
            "CHEMBL9".to_string(),
        ]
    );
    assert_eq!(
        doc.get_smiles(&"CHEMBL10030".to_string()),
        Some(&"O=C(c1ccc(OCCN2CCCC2)cc1)c1c(-c2ccc(O)cc2)sc2cc(O)ccc12".to_string())
    );
    assert_eq!(doc.get_smiles(&"CHEMBL9".to_string()), Some(&"CCO".to_string()));
    assert_eq!(doc.get_smiles(&"CHEMBL1".to_string()), None);
}
