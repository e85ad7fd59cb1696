use edgefirst_client::api::{
    normalize_folder, Artifact, DatasetParams, Experiment, Job, LoginResult, NewTrainingSession,
    NewValidationSession, Organization, Project, Stage,
};
use edgefirst_client::ids::{
    AnnotationSetID, DatasetID, ExperimentID, OrganizationID, ProjectID, TaskID,
    ValidationSessionID,
};

#[test]
fn folder_empty_string_is_normalised() {
    let folder: Option<&str> = Some("");
    assert!(folder.filter(|s| !s.is_empty()).is_none());
    assert!(normalize_folder(folder).is_none());

    let folder_real: Option<&str> = Some("predictions");
    assert!(folder_real.filter(|s| !s.is_empty()).is_some());
    assert_eq!(normalize_folder(folder_real), Some("predictions"));
}

#[test]
fn stage_new_sets_only_supplied_fields() {
    let stage = Stage::new(
        None,
        "download".into(),
        Some("running".into()),
        Some("fetching".into()),
        42,
    );
    assert!(stage.task_id().is_none());
    assert_eq!(stage.stage(), "download");
    assert_eq!(stage.status().as_deref(), Some("running"));
    assert_eq!(stage.message().as_deref(), Some("fetching"));
    assert_eq!(stage.percentage(), 42);
    // `new` does not populate `description`.
    assert!(stage.description().is_none());
}

#[test]
fn job_task_id_accessor_saturates_negative_to_zero() {
    let job = Job {
        code: String::new(),
        title: String::new(),
        job_name: String::new(),
        job_id: String::new(),
        state: String::new(),
        launch: None,
        task_id: -1,
    };
    assert_eq!(job.task_id().value(), 0);
}

#[test]
fn job_task_id_accessor_passes_through_positive_values() {
    let job = Job {
        code: String::new(),
        title: String::new(),
        job_name: String::new(),
        job_id: String::new(),
        state: String::new(),
        launch: None,
        task_id: 12345,
    };
    assert_eq!(job.task_id().value(), 12345);
}

#[test]
fn record_text_forms() {
    use_records();
}

fn use_records() {
    let org = Organization::new(OrganizationID::from(5), "Acme".to_string(), -3);
    assert_eq!(org.to_string(), "Acme");
    assert_eq!(org.credits(), -3);
    let p = Project::new(ProjectID::from(0xabc), "Deer".to_string(), "d".to_string());
    assert_eq!(p.to_string(), "p-abc Deer");
    let e = Experiment::new(ExperimentID::from(0x10), ProjectID::from(1), "E".to_string(), "x".to_string());
    assert_eq!(e.to_string(), "exp-10 E");
    assert_eq!(e.project_id().value(), 1);
    let v = NewValidationSession { task_id: TaskID::from(0x1f), session_id: Some(ValidationSessionID::from(2)) };
    assert_eq!(v.to_string(), "task task-1f session v-2");
    let t = NewTrainingSession { task_id: TaskID::from(1), session_id: None };
    assert_eq!(t.to_string(), "task task-1 (no session)");
}

#[test]
fn dataset_params_and_artifact_getters() {
    let d = DatasetParams::new(DatasetID::from(1), AnnotationSetID::from(2), "train".to_string(), "val".to_string());
    assert_eq!(d.dataset_id().value(), 1);
    assert_eq!(d.annotation_set_id().value(), 2);
    assert_eq!(d.train_group(), "train");
    assert_eq!(d.val_group(), "val");
    let a = Artifact::new("model.onnx".to_string(), "onnx".to_string());
    assert_eq!(a.name(), "model.onnx");
    assert_eq!(a.model_type(), "onnx");
    let l = LoginResult::new("tok".to_string());
    assert_eq!(l.token(), "tok");
}

#[test]
fn stage_with_description_keeps_it() {
    let s = Stage::with_description(Some(TaskID::from(3)), "x".into(), None, Some("d".into()), None, 100);
    assert_eq!(s.task_id().map(|t| t.value()), Some(3));
    assert_eq!(s.description().as_deref(), Some("d"));
    assert_eq!(s.percentage(), 100);
}

#[test]
fn job_task_id_saturates_at_the_extremes() {
    let mut job = Job {
        code: String::new(),
        title: String::new(),
        job_name: String::new(),
        job_id: String::new(),
        state: String::new(),
        launch: None,
        task_id: i64::MIN,
    };
    assert_eq!(job.task_id().value(), 0);
    job.task_id = i64::MAX;
    assert_eq!(job.task_id().value(), i64::MAX as u64);
}
