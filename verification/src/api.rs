//! Records exchanged with the Studio server.
//!
//! Records whose fields are private expose them through getters; their
//! view lists the fields in declaration order, strings by their
//! characters.

use std::collections::HashMap;
use vstd::prelude::*;
use crate::dataset::Sample;
use crate::ids::{
    id_text,
    AnnotationSetID, DatasetID, ExperimentID, OrganizationID, ProjectID, SampleID, SnapshotID,
    TaskID, TrainingSessionID, ValidationSessionID,
};

verus! {

/// The answer to a login: the session token.
#[derive(Clone, Debug)]
pub struct LoginResult {
    token: String,
}

impl View for LoginResult {
    type V = Seq<char>;

    closed spec fn view(&self) -> Seq<char> {
        self.token@
    }
}

impl LoginResult {
    /// Wraps a session token.
    pub fn new(token: String) -> (r: LoginResult)
        ensures
            r@ == token@,
    {
        LoginResult { token }
    }

    /// The session token.
    pub fn token(&self) -> (r: &str)
        ensures
            r@ == self@,
    {
        self.token.as_str()
    }
}

/// An organization: the top-level container of users, projects and
/// resources.
#[derive(Clone, Debug)]
pub struct Organization {
    id: OrganizationID,
    name: String,
    credits: i64,
}

impl View for Organization {
    /// Identifier, name and credit balance.
    type V = (OrganizationID, Seq<char>, i64);

    closed spec fn view(&self) -> (OrganizationID, Seq<char>, i64) {
        (self.id, self.name@, self.credits)
    }
}

impl Organization {
    /// Builds an organization record.
    pub fn new(id: OrganizationID, name: String, credits: i64) -> (o: Organization)
        ensures
            o@ == (id, name@, credits),
    {
        Organization { id, name, credits }
    }

    /// The organization's identifier.
    pub fn id(&self) -> (r: OrganizationID)
        ensures
            r == self@.0,
    {
        self.id
    }

    /// The organization's name.
    pub fn name(&self) -> (r: &str)
        ensures
            r@ == self@.1,
    {
        self.name.as_str()
    }

    /// The organization's latest credit balance.
    pub fn credits(&self) -> (r: i64)
        ensures
            r == self@.2,
    {
        self.credits
    }

    /// The organization as text: its name.
    pub fn to_string(&self) -> (r: String)
        ensures
            r@ == self@.1,
    {
        self.name.clone()
    }
}

/// A project: holds datasets, experiments and models for one task.
#[derive(Clone, Debug)]
pub struct Project {
    id: ProjectID,
    name: String,
    description: String,
}

impl View for Project {
    /// Identifier, name and description.
    type V = (ProjectID, Seq<char>, Seq<char>);

    closed spec fn view(&self) -> (ProjectID, Seq<char>, Seq<char>) {
        (self.id, self.name@, self.description@)
    }
}

impl Project {
    /// Builds a project record.
    pub fn new(id: ProjectID, name: String, description: String) -> (p: Project)
        ensures
            p@ == (id, name@, description@),
    {
        Project { id, name, description }
    }

    /// The project's identifier.
    pub fn id(&self) -> (r: ProjectID)
        ensures
            r == self@.0,
    {
        self.id
    }

    /// The project's name.
    pub fn name(&self) -> (r: &str)
        ensures
            r@ == self@.1,
    {
        self.name.as_str()
    }

    /// The project's description.
    pub fn description(&self) -> (r: &str)
        ensures
            r@ == self@.2,
    {
        self.description.as_str()
    }

    /// The project as text: its identifier and name.
    pub fn to_string(&self) -> (r: String)
        ensures
            r@ == id_text("p"@, self@.0@) + " "@ + self@.1,
    {
        let mut s = self.id.to_string();
        s.append(" ");
        s.append(self.name.as_str());
        s
    }
}

/// The number of samples that match a query.
#[derive(Clone, Debug)]
pub struct SamplesCountResult {
    pub total: u64,
}

/// Parameters of a sample listing.
#[derive(Clone, Debug)]
pub struct SamplesListParams {
    pub dataset_id: DatasetID,
    pub annotation_set_id: Option<AnnotationSetID>,
    pub continue_token: Option<String>,
    pub types: Vec<String>,
    pub group_names: Vec<String>,
    pub tag: Option<String>,
}

/// One page of a sample listing.
#[derive(Clone, Debug)]
pub struct SamplesListResult {
    pub samples: Vec<Sample>,
    pub continue_token: Option<String>,
}

/// A single sample dimension update.
#[derive(Clone, Debug)]
pub struct SampleDimensionUpdate {
    pub id: SampleID,
    pub width: u32,
    pub height: u32,
}

/// Parameters of a sample dimension update.
#[derive(Clone, Debug)]
pub struct SamplesUpdateDimensionsParams {
    pub dataset_id: DatasetID,
    pub samples: Vec<SampleDimensionUpdate>,
}

/// The number of samples whose dimensions were updated.
#[derive(Clone, Debug)]
pub struct SamplesUpdateDimensionsResult {
    pub updated: u64,
}

/// Parameters for creating samples in a dataset, optionally with
/// annotations and files.
#[derive(Clone, Debug)]
pub struct SamplesPopulateParams {
    pub dataset_id: DatasetID,
    pub annotation_set_id: Option<AnnotationSetID>,
    pub presigned_urls: Option<bool>,
    pub samples: Vec<Sample>,
}

/// One created sample: its UUID and where to upload its files.
#[derive(Clone, Debug)]
pub struct SamplesPopulateResult {
    pub uuid: String,
    pub urls: Vec<PresignedUrl>,
}

/// A presigned URL for uploading a file.
#[derive(Clone, Debug)]
pub struct PresignedUrl {
    pub filename: String,
    pub key: String,
    pub url: String,
}

/// Parameters for deleting annotations in bulk.
#[derive(Clone, Debug)]
pub struct AnnotationBulkDeleteParams {
    pub annotation_set_id: u64,
    pub annotation_types: Vec<String>,
    pub image_ids: Vec<u64>,
    pub delete_all: Option<bool>,
}

/// Parameters for restoring a snapshot into a new dataset.
#[derive(Clone, Debug)]
pub struct SnapshotRestore {
    pub project_id: ProjectID,
    pub snapshot_id: SnapshotID,
    pub fps: u64,
    pub topics: Vec<String>,
    pub autolabel: Vec<String>,
    pub autodepth: bool,
    pub agtg_pipeline: bool,
    pub dataset_name: Option<String>,
    pub dataset_description: Option<String>,
}

/// Parameters for creating a snapshot from a dataset on the server.
#[derive(Clone, Debug)]
pub struct SnapshotCreateFromDataset {
    pub description: String,
    pub dataset_id: DatasetID,
    pub annotation_set_id: AnnotationSetID,
}

/// The snapshot created from a dataset and the task building it.
#[derive(Clone, Debug)]
pub struct SnapshotFromDatasetResult {
    pub id: SnapshotID,
    pub task_id: Option<TaskID>,
}

/// An experiment: groups training sessions within a project.
#[derive(Clone, Debug)]
pub struct Experiment {
    id: ExperimentID,
    project_id: ProjectID,
    name: String,
    description: String,
}

impl View for Experiment {
    /// Identifier, project, name and description.
    type V = (ExperimentID, ProjectID, Seq<char>, Seq<char>);

    closed spec fn view(&self) -> (ExperimentID, ProjectID, Seq<char>, Seq<char>) {
        (self.id, self.project_id, self.name@, self.description@)
    }
}

impl Experiment {
    /// Builds an experiment record.
    pub fn new(id: ExperimentID, project_id: ProjectID, name: String, description: String) -> (e:
        Experiment)
        ensures
            e@ == (id, project_id, name@, description@),
    {
        Experiment { id, project_id, name, description }
    }

    /// The experiment's identifier.
    pub fn id(&self) -> (r: ExperimentID)
        ensures
            r == self@.0,
    {
        self.id
    }

    /// The project the experiment belongs to.
    pub fn project_id(&self) -> (r: ProjectID)
        ensures
            r == self@.1,
    {
        self.project_id
    }

    /// The experiment's name.
    pub fn name(&self) -> (r: &str)
        ensures
            r@ == self@.2,
    {
        self.name.as_str()
    }

    /// The experiment's description.
    pub fn description(&self) -> (r: &str)
        ensures
            r@ == self@.3,
    {
        self.description.as_str()
    }

    /// The experiment as text: its identifier and name.
    pub fn to_string(&self) -> (r: String)
        ensures
            r@ == id_text("exp"@, self@.0@) + " "@ + self@.2,
    {
        let mut s = self.id.to_string();
        s.append(" ");
        s.append(self.name.as_str());
        s
    }
}

/// A launched validation task and, for validator launches, its session.
#[derive(Clone, Debug)]
pub struct NewValidationSession {
    pub task_id: TaskID,
    pub session_id: Option<ValidationSessionID>,
}

impl NewValidationSession {
    /// The launch as text: `task {task} session {session}`, or
    /// `task {task} (no session)`.
    pub fn to_string(&self) -> (r: String)
        ensures
            r@ == "task "@ + id_text("task"@, self.task_id@) + match self.session_id {
                Some(id) => " session "@ + id_text("v"@, id@),
                None => " (no session)"@,
            },
    {
        let mut s = String::from_str("task ");
        s.append(self.task_id.to_string().as_str());
        match self.session_id {
            Some(id) => {
                s.append(" session ");
                s.append(id.to_string().as_str());
            },
            None => {
                s.append(" (no session)");
            },
        }
        s
    }
}

/// A launched training task and, for trainer launches, its session.
#[derive(Clone, Debug)]
pub struct NewTrainingSession {
    pub task_id: TaskID,
    pub session_id: Option<TrainingSessionID>,
}

impl NewTrainingSession {
    /// The launch as text: `task {task} session {session}`, or
    /// `task {task} (no session)`.
    pub fn to_string(&self) -> (r: String)
        ensures
            r@ == "task "@ + id_text("task"@, self.task_id@) + match self.session_id {
                Some(id) => " session "@ + id_text("t"@, id@),
                None => " (no session)"@,
            },
    {
        let mut s = String::from_str("task ");
        s.append(self.task_id.to_string().as_str());
        match self.session_id {
            Some(id) => {
                s.append(" session ");
                s.append(id.to_string().as_str());
            },
            None => {
                s.append(" (no session)");
            },
        }
        s
    }
}

/// A dataset version tag; tag ids grow with creation time.
#[derive(Clone, Debug)]
pub struct Tag {
    pub id: u64,
    pub name: String,
    pub dataset_id: u64,
}

/// The dataset a training session uses and its train/validation groups.
#[derive(Clone, Debug)]
pub struct DatasetParams {
    dataset_id: DatasetID,
    annotation_set_id: AnnotationSetID,
    train_group: String,
    val_group: String,
}

impl View for DatasetParams {
    /// Dataset, annotation set, training group and validation group.
    type V = (DatasetID, AnnotationSetID, Seq<char>, Seq<char>);

    closed spec fn view(&self) -> (DatasetID, AnnotationSetID, Seq<char>, Seq<char>) {
        (self.dataset_id, self.annotation_set_id, self.train_group@, self.val_group@)
    }
}

impl DatasetParams {
    /// Builds dataset parameters.
    pub fn new(
        dataset_id: DatasetID,
        annotation_set_id: AnnotationSetID,
        train_group: String,
        val_group: String,
    ) -> (p: DatasetParams)
        ensures
            p@ == (dataset_id, annotation_set_id, train_group@, val_group@),
    {
        DatasetParams { dataset_id, annotation_set_id, train_group, val_group }
    }

    /// The dataset used.
    pub fn dataset_id(&self) -> (r: DatasetID)
        ensures
            r == self@.0,
    {
        self.dataset_id
    }

    /// The annotation set used.
    pub fn annotation_set_id(&self) -> (r: AnnotationSetID)
        ensures
            r == self@.1,
    {
        self.annotation_set_id
    }

    /// The group the model trains on.
    pub fn train_group(&self) -> (r: &str)
        ensures
            r@ == self@.2,
    {
        self.train_group.as_str()
    }

    /// The group the model is validated on.
    pub fn val_group(&self) -> (r: &str)
        ensures
            r@ == self@.3,
    {
        self.val_group.as_str()
    }
}

/// Parameters of a task listing.
#[derive(Clone, Debug)]
pub struct TasksListParams {
    pub continue_token: Option<String>,
    pub types: Option<Vec<String>>,
    pub manager: Option<Vec<String>>,
    pub status: Option<Vec<String>>,
}

/// A job (app run): its app, labels, batch state and the Studio task it
/// is linked to. `launch` is the launch time as RFC 3339 text.
#[derive(Clone, Debug)]
pub struct Job {
    pub code: String,
    pub title: String,
    pub job_name: String,
    pub job_id: String,
    pub state: String,
    pub launch: Option<String>,
    pub task_id: i64,
}

impl Job {
    /// The task linked to this job; a negative id saturates at 0.
    pub fn task_id(&self) -> (r: TaskID)
        ensures
            r@ == (if self.task_id < 0 {
                0
            } else {
                self.task_id
            }),
    {
        let raw: u64 = if self.task_id < 0 {
            0
        } else {
            self.task_id as u64
        };
        TaskID::from(raw)
    }
}

/// A status update for a task.
#[derive(Clone, Debug)]
pub struct TaskStatus {
    pub task_id: TaskID,
    pub status: String,
}

/// One stage of a task's progress.
#[derive(Clone, Debug)]
pub struct Stage {
    task_id: Option<TaskID>,
    stage: String,
    status: Option<String>,
    description: Option<String>,
    message: Option<String>,
    percentage: u8,
}

impl View for Stage {
    /// Task, stage name, status, description, message and percentage.
    type V = (Option<TaskID>, Seq<char>, Option<String>, Option<String>, Option<String>, u8);

    closed spec fn view(&self) -> (
        Option<TaskID>,
        Seq<char>,
        Option<String>,
        Option<String>,
        Option<String>,
        u8,
    ) {
        (self.task_id, self.stage@, self.status, self.description, self.message, self.percentage)
    }
}

impl Stage {
    /// A stage with the given fields and no description.
    pub fn new(
        task_id: Option<TaskID>,
        stage: String,
        status: Option<String>,
        message: Option<String>,
        percentage: u8,
    ) -> (s: Stage)
        ensures
            s@ == (task_id, stage@, status, None::<String>, message, percentage),
    {
        Stage { task_id, stage, status, description: None, message, percentage }
    }

    /// Builds a stage with every field given, description included.
    pub fn with_description(
        task_id: Option<TaskID>,
        stage: String,
        status: Option<String>,
        description: Option<String>,
        message: Option<String>,
        percentage: u8,
    ) -> (s: Stage)
        ensures
            s@ == (task_id, stage@, status, description, message, percentage),
    {
        Stage { task_id, stage, status, description, message, percentage }
    }

    /// The task the stage belongs to.
    pub fn task_id(&self) -> (r: &Option<TaskID>)
        ensures
            *r == self@.0,
    {
        &self.task_id
    }

    /// The stage's name.
    pub fn stage(&self) -> (r: &str)
        ensures
            r@ == self@.1,
    {
        self.stage.as_str()
    }

    /// The stage's status.
    pub fn status(&self) -> (r: &Option<String>)
        ensures
            *r == self@.2,
    {
        &self.status
    }

    /// The stage's description.
    pub fn description(&self) -> (r: &Option<String>)
        ensures
            *r == self@.3,
    {
        &self.description
    }

    /// The stage's message.
    pub fn message(&self) -> (r: &Option<String>)
        ensures
            *r == self@.4,
    {
        &self.message
    }

    /// The stage's completion percentage.
    pub fn percentage(&self) -> (r: u8)
        ensures
            r == self@.5,
    {
        self.percentage
    }
}

/// The data and chart artefacts attached to a task: `data` maps each
/// folder name to the file names in it.
#[derive(Clone, Debug)]
pub struct TaskDataList {
    pub server: String,
    pub organization_uid: String,
    pub traces: Vec<String>,
    pub data: HashMap<String, Vec<String>>,
}

/// The progress of a task, by stage name.
#[derive(Clone, Debug)]
pub struct TaskProgress {
    pub stages: Option<HashMap<String, Stage>>,
}

/// Stage updates for a task, each a map of field names to values.
#[derive(Clone, Debug)]
pub struct TaskStages {
    pub task_id: TaskID,
    pub stages: Vec<HashMap<String, String>>,
}

/// An artifact of a training session: a file name and the kind of model
/// it holds.
#[derive(Clone, Debug)]
pub struct Artifact {
    name: String,
    model_type: String,
}

impl View for Artifact {
    /// Name and model type.
    type V = (Seq<char>, Seq<char>);

    closed spec fn view(&self) -> (Seq<char>, Seq<char>) {
        (self.name@, self.model_type@)
    }
}

impl Artifact {
    /// Builds an artifact record.
    pub fn new(name: String, model_type: String) -> (a: Artifact)
        ensures
            a@ == (name@, model_type@),
    {
        Artifact { name, model_type }
    }

    /// The artifact's file name.
    pub fn name(&self) -> (r: &str)
        ensures
            r@ == self@.0,
    {
        self.name.as_str()
    }

    /// The kind of model the artifact holds.
    pub fn model_type(&self) -> (r: &str)
        ensures
            r@ == self@.1,
    {
        self.model_type.as_str()
    }
}

/// The tag a dataset was restored from.
#[derive(Clone, Debug)]
pub struct RestoredFrom {
    pub tag: String,
    pub serial: u64,
}

/// Counts of what a restore brought back.
#[derive(Clone, Debug)]
pub struct RestoredCounts {
    pub images: u64,
    pub labels: u64,
    pub annotation_sets: u64,
}

/// The outcome of restoring a dataset to a tag.
#[derive(Clone, Debug)]
pub struct RestoreResult {
    pub success: bool,
    pub new_serial: u64,
    pub restored_from: RestoredFrom,
    pub restored_counts: RestoredCounts,
    pub message: String,
}

/// An available trainer type.
#[derive(Clone, Debug)]
pub struct TrainerSchemaInfo {
    pub name: String,
    pub label: String,
    pub schema_type: String,
}

/// The kind of input a schema field describes.
#[derive(Clone, Copy, Debug, PartialEq, Eq, Structural)]
pub enum SchemaFieldType {
    Group,
    Slider,
    Select,
    Bool,
    Int,
    Float,
    Text,
    Date,
    Project,
    Dataset,
    Trainer,
    Upload,
    Info,
    Unknown,
}

/// A folder name for an upload: an empty name means no folder.
pub fn normalize_folder(folder: Option<&str>) -> (r: Option<&str>)
    ensures
        r == (match folder {
            Some(f) => if f@.len() == 0 {
                None
            } else {
                Some(f)
            },
            None => None,
        }),
{
    match folder {
        Some(f) => if f.is_empty() {
            None
        } else {
            Some(f)
        },
        None => None,
    }
}

} // verus!
