use chiral_common::apps::env_var::Variable;
use chiral_common::command::CommandLineError;
use chiral_common::data::{EntryPubChem, SourcePubChem};
use chiral_common::logging;
use chiral_common::utils::{generate_id, str_eq};

#[test]
fn test_generate_id() {
    let id = generate_id(32);
    assert_eq!(id.len(), 32);
    let other = generate_id(32);
    assert_eq!(other.len(), 32);
    assert_eq!(generate_id(8).len(), 8);
}

#[test]
fn test_str_eq() {
    assert!(str_eq("abc", "abc"));
    assert!(!str_eq("abc", "abd"));
    assert!(!str_eq("abc", "ab"));
    assert!(str_eq("", ""));
}

#[test]
fn test_command_line_error_message() {
    assert_eq!(
        CommandLineError::ArgumentNotFound("dataset".to_string()).message(),
        "argument 'dataset' not found."
    );
    assert_eq!(
        CommandLineError::SubCommandNotFound("ob".to_string(), "simx".to_string()).message(),
        "subcommand 'ob simx' not found, run 'ob help' for details."
    );
    assert_eq!(
        CommandLineError::SubCommandRequired("ob".to_string()).message(),
        "subcommand required after'ob', run 'ob help' for details."
    );
    assert_eq!(
        CommandLineError::ShlexSplitError.message(),
        "shlex split argument error: invalid quoting"
    );
}

#[test]
fn test_pubchem_convert_lines() {
    let mut src = SourcePubChem::new();
    src.set_path("somewhere");
    src.convert_lines(vec!["CCO".to_string(), "c1ccccc1".to_string()]);
    assert_eq!(src.len(), 2);
    assert_eq!(src.data[0], EntryPubChem::from("CCO"));
    assert_eq!(src.data[1].smiles, "c1ccccc1".to_string());
    assert_eq!(src.path, "somewhere".to_string());
}

#[test]
fn test_logging_runs() {
    logging::info("library check");
    logging::warn("library check");
    logging::error("library check");
    logging::job_info("quiet", true);
    logging::job_warn("loud", false);
    logging::job_error("quiet", true);
}

#[test]
fn test_env_variable_names() {
    assert_eq!(Variable::ChiralDataDir.as_str(), "CHIRAL_DATA_DIR");
    assert_eq!(Variable::GromacsWorkDir.as_str(), "GROMACS_WORK_DIR");
}
