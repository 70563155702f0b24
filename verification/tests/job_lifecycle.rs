use chiral_common::job::{BlockStatus, Job, JobResult, Progress, Requirement, Status, StatusLabel};
use chiral_common::kinds::{Dataset, Operator};

fn multi_machine_requirement() -> Requirement {
    Requirement::new(
        "c1cccc1N=O".to_string(),
        Operator::OpenBabelSSMatching,
        Dataset::TestChembl,
    )
}

#[test]
fn test_job_block_progress() {
    let mut job = Job::new(multi_machine_requirement(), 3);
    assert_eq!(job.progress, Progress::ByBlocks(3, 0, 0));
    assert_eq!(job.status, Status::Created);
    assert_eq!(job.id.len(), 32);

    job.submit();
    job.assign_task();
    assert_eq!(job.progress, Progress::ByBlocks(2, 1, 0));
    assert_eq!(job.status, Status::Processing);

    job.complete_task_with_success(0, Some("out0".to_string()), &5);
    assert_eq!(job.progress, Progress::ByBlocks(2, 0, 1));
    assert_eq!(job.status, Status::Processing);
    assert_eq!(job.cost, 5);

    job.assign_task();
    job.complete_task_with_success(1, Some("out1".to_string()), &7);
    job.assign_task();
    assert_eq!(job.progress, Progress::ByBlocks(0, 1, 2));
    job.complete_task_with_success(2, Some("out2".to_string()), &1);
    assert_eq!(job.progress, Progress::ByBlocks(0, 0, 3));
    assert_eq!(job.status, Status::CompletedSuccess);
    assert_eq!(job.cost, 13);

    let result = job.get_result();
    assert_eq!(result.error, None);
    assert_eq!(
        result.outputs,
        vec!["out0".to_string(), "out1".to_string(), "out2".to_string()]
    );
}

#[test]
fn test_get_result_processing() {
    let mut job = Job::new(multi_machine_requirement(), 2);
    job.assign_task();
    job.complete_task_with_success(0, Some("partial".to_string()), &1);
    let result = job.get_result();
    assert_eq!(result, JobResult { outputs: vec![], error: None });
}

#[test]
fn test_job_error_aborts() {
    let mut job = Job::new(multi_machine_requirement(), 2);
    job.assign_task();
    job.complete_task_with_success(0, Some("done".to_string()), &1);
    job.assign_task();
    job.complete_task_with_error("boom".to_string(), &2);
    assert_eq!(job.status, Status::CompletedError);
    assert!(job.status.is_completed());
    assert_eq!(job.cost, 3);
    let result = job.get_result();
    assert_eq!(result.outputs, Vec::<String>::new());
    assert_eq!(result.error, Some("boom".to_string()));
}

#[test]
fn test_job_cancel() {
    let mut job = Job::new(multi_machine_requirement(), 2);
    job.assign_task();
    job.cancel();
    assert_eq!(job.status, Status::Cancelled);
    let result = job.get_result();
    assert_eq!(result, JobResult { outputs: vec![], error: None });
}

#[test]
fn test_job_reset_task() {
    let mut job = Job::new(multi_machine_requirement(), 2);
    job.assign_task();
    assert_eq!(job.progress, Progress::ByBlocks(1, 1, 0));
    job.reset_task();
    assert_eq!(job.progress, Progress::ByBlocks(2, 0, 0));
}

#[test]
fn test_percentage_progress() {
    let req = Requirement::requirement_gromacs_for_tests();
    assert_eq!(*req.get_opk(), Operator::GromacsRunGMXCommand);
    assert_eq!(*req.get_dsk(), Dataset::Empty);
    let job = Job::new(req, 1);
    assert_eq!(job.progress, Progress::ByPercentage(0));
}

#[test]
fn test_block_status() {
    let mut status = BlockStatus::new(StatusLabel::Created, None);
    assert!(status.is_created());
    status.assign_task(4);
    assert!(status.is_processing());
    assert_eq!(status.progress, Some((3, 1, 0)));
    status.assign_task(4);
    assert_eq!(status.progress, Some((2, 2, 0)));
    status.complete_task(4);
    assert_eq!(status.progress, Some((2, 1, 1)));
    assert_eq!(status.count_completed(), (1, 4));
    status.assign_task(4);
    status.complete_task(4);
    status.complete_task(4);
    status.assign_task(4);
    status.complete_task(4);
    assert!(status.is_completed());
    assert_eq!(status.count_completed(), (4, 4));
}

#[test]
fn test_job_single_dividend() {
    let mut job = Job::new(multi_machine_requirement(), 1);
    assert_eq!(job.progress, Progress::ByBlocks(1, 0, 0));
    job.assign_task();
    job.complete_task_with_success(0, Some("only".to_string()), &0);
    assert_eq!(job.status, Status::CompletedSuccess);
    assert_eq!(job.get_result().outputs, vec!["only".to_string()]);
}
