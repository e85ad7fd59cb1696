//! Typed identifiers of Studio objects.
//!
//! Every identifier wraps a `u64` and is written as `"{prefix}-{hex}"`, the
//! value in lower-case hexadecimal without leading zeros; parsing accepts
//! the prefix followed by anything `u64::from_str_radix(_, 16)` accepts.

use vstd::prelude::*;
use crate::error::{Error, IntErrorKind};
use crate::hex::{hex_lower, parse_hex, parse_hex_u64, push_hex, lemma_parse_hex_lower};
use crate::text::{chars_from, chars_of, is_prefix, starts_with};

verus! {

/// The text of an identifier with the given prefix and value.
pub open spec fn id_text(prefix: Seq<char>, v: u64) -> Seq<char> {
    prefix.push('-') + hex_lower(v as nat)
}

/// How the text `s` parses as an identifier with the given prefix: the
/// value, `Err(None)` when `prefix-` does not start `s`, or the kind of the
/// integer error in the remainder.
pub open spec fn parse_id_text(prefix: Seq<char>, s: Seq<char>) -> Result<u64, Option<IntErrorKind>> {
    let p = prefix.push('-');
    if is_prefix(p, s) {
        match parse_hex_u64(s.skip(p.len() as int)) {
            Ok(v) => Ok(v),
            Err(k) => Err(Some(k)),
        }
    } else {
        Err(None)
    }
}

/// The message of the error for text that lacks the identifier's prefix.
pub open spec fn missing_prefix_message(kind_name: Seq<char>, prefix: Seq<char>) -> Seq<char> {
    kind_name + " must start with '"@ + prefix + "-' prefix"@
}

/// Whether `r` is what parsing `s` as an identifier of the named type
/// with the given prefix yields.
pub open spec fn id_parse_outcome(
    r: Result<u64, Error>,
    s: Seq<char>,
    prefix: Seq<char>,
    kind_name: Seq<char>,
) -> bool {
    match parse_id_text(prefix, s) {
        Ok(v) => r == Ok::<u64, Error>(v),
        Err(None) => r matches Err(Error::InvalidParameters(m)) && m@ == missing_prefix_message(
            kind_name,
            prefix,
        ),
        Err(Some(k)) => r == Err::<u64, Error>(Error::ParseIntError(k)),
    }
}

/// Writes the text of an identifier.
pub fn format_id(prefix: &str, v: u64) -> (s: String)
    ensures
        s@ == id_text(prefix@, v),
{
    let mut s = String::from_str(prefix);
    crate::text::push_char(&mut s, '-');
    push_hex(&mut s, v);
    s
}

/// Parses the text of an identifier with the given prefix.
pub fn parse_id(s: &str, prefix: &str, kind_name: &str) -> (r: Result<u64, Error>)
    ensures
        id_parse_outcome(r, s@, prefix@, kind_name@),
{
    let text = chars_of(s);
    let mut p = chars_of(prefix);
    p.push('-');
    if starts_with(&text, &p) {
        let rest = chars_from(&text, p.len());
        match parse_hex(&rest) {
            Ok(v) => Ok(v),
            Err(k) => Err(Error::ParseIntError(k)),
        }
    } else {
        let mut m = String::from_str(kind_name);
        m.append(" must start with '");
        m.append(prefix);
        m.append("-' prefix");
        Err(Error::InvalidParameters(m))
    }
}

/// Law: the text written for an identifier value parses back to it.
pub proof fn lemma_id_text_round_trip(prefix: Seq<char>, v: u64)
    ensures
        parse_id_text(prefix, id_text(prefix, v)) == Ok::<u64, Option<IntErrorKind>>(v),
{
    let p = prefix.push('-');
    let t = id_text(prefix, v);
    assert(t.take(p.len() as int) =~= p);
    assert(t.skip(p.len() as int) =~= hex_lower(v as nat));
    lemma_parse_hex_lower(v);
}

/// Unique identifier of an organization, the top-level container of users, projects and resources, written `"org-{hex}"`.
#[derive(Clone, Copy, Debug, PartialEq, Eq, Hash, Structural)]
pub struct OrganizationID(u64);

impl View for OrganizationID {
    type V = u64;

    closed spec fn view(&self) -> u64 {
        self.0
    }
}

impl OrganizationID {
    /// Returns the raw `u64` value of this identifier.
    pub fn value(&self) -> (v: u64)
        ensures
            v == self@,
    {
        self.0
    }

    /// Writes the identifier as `"org-{hex}"`.
    pub fn to_string(&self) -> (s: String)
        ensures
            s@ == id_text("org"@, self@),
    {
        format_id("org", self.0)
    }

    /// Parses `"org-{hex}"`.
    pub fn from_text(s: &str) -> (r: Result<OrganizationID, Error>)
        ensures
            id_parse_outcome(
                match r {
                    Ok(id) => Ok(id@),
                    Err(e) => Err(e),
                },
                s@,
                "org"@,
                "OrganizationID"@,
            ),
    {
        match parse_id(s, "org", "OrganizationID") {
            Ok(v) => Ok(OrganizationID(v)),
            Err(e) => Err(e),
        }
    }
}

impl From<u64> for OrganizationID {
    fn from(id: u64) -> (r: OrganizationID)
        ensures
            r@ == id,
    {
        OrganizationID(id)
    }
}

impl vstd::std_specs::convert::FromSpecImpl<u64> for OrganizationID {
    open spec fn obeys_from_spec() -> bool {
        true
    }

    closed spec fn from_spec(v: u64) -> OrganizationID {
        OrganizationID(v)
    }
}

impl From<OrganizationID> for u64 {
    fn from(id: OrganizationID) -> (r: u64)
        ensures
            r == id@,
    {
        id.0
    }
}

impl vstd::std_specs::convert::FromSpecImpl<OrganizationID> for u64 {
    open spec fn obeys_from_spec() -> bool {
        true
    }

    closed spec fn from_spec(id: OrganizationID) -> u64 {
        id.0
    }
}

impl TryFrom<&str> for OrganizationID {
    type Error = Error;

    fn try_from(s: &str) -> (r: Result<OrganizationID, Error>)
        ensures
            id_parse_outcome(
                match r {
                    Ok(id) => Ok(id@),
                    Err(e) => Err(e),
                },
                s@,
                "org"@,
                "OrganizationID"@,
            ),
    {
        OrganizationID::from_text(s)
    }
}

impl vstd::std_specs::convert::TryFromSpecImpl<&str> for OrganizationID {
    open spec fn obeys_try_from_spec() -> bool {
        false
    }

    closed spec fn try_from_spec(s: &str) -> Result<OrganizationID, Error> {
        arbitrary()
    }
}

impl TryFrom<String> for OrganizationID {
    type Error = Error;

    fn try_from(s: String) -> (r: Result<OrganizationID, Error>)
        ensures
            id_parse_outcome(
                match r {
                    Ok(id) => Ok(id@),
                    Err(e) => Err(e),
                },
                s@,
                "org"@,
                "OrganizationID"@,
            ),
    {
        OrganizationID::from_text(s.as_str())
    }
}

impl vstd::std_specs::convert::TryFromSpecImpl<String> for OrganizationID {
    open spec fn obeys_try_from_spec() -> bool {
        false
    }

    closed spec fn try_from_spec(s: String) -> Result<OrganizationID, Error> {
        arbitrary()
    }
}

impl std::str::FromStr for OrganizationID {
    type Err = Error;

    fn from_str(s: &str) -> (r: Result<OrganizationID, Error>)
        ensures
            id_parse_outcome(
                match r {
                    Ok(id) => Ok(id@),
                    Err(e) => Err(e),
                },
                s@,
                "org"@,
                "OrganizationID"@,
            ),
    {
        OrganizationID::from_text(s)
    }
}

/// Unique identifier of a project, which holds datasets, experiments and models, written `"p-{hex}"`.
#[derive(Clone, Copy, Debug, PartialEq, Eq, Hash, Structural)]
pub struct ProjectID(u64);

impl View for ProjectID {
    type V = u64;

    closed spec fn view(&self) -> u64 {
        self.0
    }
}

impl ProjectID {
    /// Returns the raw `u64` value of this identifier.
    pub fn value(&self) -> (v: u64)
        ensures
            v == self@,
    {
        self.0
    }

    /// Writes the identifier as `"p-{hex}"`.
    pub fn to_string(&self) -> (s: String)
        ensures
            s@ == id_text("p"@, self@),
    {
        format_id("p", self.0)
    }

    /// Parses `"p-{hex}"`.
    pub fn from_text(s: &str) -> (r: Result<ProjectID, Error>)
        ensures
            id_parse_outcome(
                match r {
                    Ok(id) => Ok(id@),
                    Err(e) => Err(e),
                },
                s@,
                "p"@,
                "ProjectID"@,
            ),
    {
        match parse_id(s, "p", "ProjectID") {
            Ok(v) => Ok(ProjectID(v)),
            Err(e) => Err(e),
        }
    }
}

impl From<u64> for ProjectID {
    fn from(id: u64) -> (r: ProjectID)
        ensures
            r@ == id,
    {
        ProjectID(id)
    }
}

impl vstd::std_specs::convert::FromSpecImpl<u64> for ProjectID {
    open spec fn obeys_from_spec() -> bool {
        true
    }

    closed spec fn from_spec(v: u64) -> ProjectID {
        ProjectID(v)
    }
}

impl From<ProjectID> for u64 {
    fn from(id: ProjectID) -> (r: u64)
        ensures
            r == id@,
    {
        id.0
    }
}

impl vstd::std_specs::convert::FromSpecImpl<ProjectID> for u64 {
    open spec fn obeys_from_spec() -> bool {
        true
    }

    closed spec fn from_spec(id: ProjectID) -> u64 {
        id.0
    }
}

impl TryFrom<&str> for ProjectID {
    type Error = Error;

    fn try_from(s: &str) -> (r: Result<ProjectID, Error>)
        ensures
            id_parse_outcome(
                match r {
                    Ok(id) => Ok(id@),
                    Err(e) => Err(e),
                },
                s@,
                "p"@,
                "ProjectID"@,
            ),
    {
        ProjectID::from_text(s)
    }
}

impl vstd::std_specs::convert::TryFromSpecImpl<&str> for ProjectID {
    open spec fn obeys_try_from_spec() -> bool {
        false
    }

    closed spec fn try_from_spec(s: &str) -> Result<ProjectID, Error> {
        arbitrary()
    }
}

impl TryFrom<String> for ProjectID {
    type Error = Error;

    fn try_from(s: String) -> (r: Result<ProjectID, Error>)
        ensures
            id_parse_outcome(
                match r {
                    Ok(id) => Ok(id@),
                    Err(e) => Err(e),
                },
                s@,
                "p"@,
                "ProjectID"@,
            ),
    {
        ProjectID::from_text(s.as_str())
    }
}

impl vstd::std_specs::convert::TryFromSpecImpl<String> for ProjectID {
    open spec fn obeys_try_from_spec() -> bool {
        false
    }

    closed spec fn try_from_spec(s: String) -> Result<ProjectID, Error> {
        arbitrary()
    }
}

impl std::str::FromStr for ProjectID {
    type Err = Error;

    fn from_str(s: &str) -> (r: Result<ProjectID, Error>)
        ensures
            id_parse_outcome(
                match r {
                    Ok(id) => Ok(id@),
                    Err(e) => Err(e),
                },
                s@,
                "p"@,
                "ProjectID"@,
            ),
    {
        ProjectID::from_text(s)
    }
}

/// Unique identifier of an experiment (trainer) within a project, written `"exp-{hex}"`.
#[derive(Clone, Copy, Debug, PartialEq, Eq, Hash, Structural)]
pub struct ExperimentID(u64);

impl View for ExperimentID {
    type V = u64;

    closed spec fn view(&self) -> u64 {
        self.0
    }
}

impl ExperimentID {
    /// Returns the raw `u64` value of this identifier.
    pub fn value(&self) -> (v: u64)
        ensures
            v == self@,
    {
        self.0
    }

    /// Writes the identifier as `"exp-{hex}"`.
    pub fn to_string(&self) -> (s: String)
        ensures
            s@ == id_text("exp"@, self@),
    {
        format_id("exp", self.0)
    }

    /// Parses `"exp-{hex}"`.
    pub fn from_text(s: &str) -> (r: Result<ExperimentID, Error>)
        ensures
            id_parse_outcome(
                match r {
                    Ok(id) => Ok(id@),
                    Err(e) => Err(e),
                },
                s@,
                "exp"@,
                "ExperimentID"@,
            ),
    {
        match parse_id(s, "exp", "ExperimentID") {
            Ok(v) => Ok(ExperimentID(v)),
            Err(e) => Err(e),
        }
    }
}

impl From<u64> for ExperimentID {
    fn from(id: u64) -> (r: ExperimentID)
        ensures
            r@ == id,
    {
        ExperimentID(id)
    }
}

impl vstd::std_specs::convert::FromSpecImpl<u64> for ExperimentID {
    open spec fn obeys_from_spec() -> bool {
        true
    }

    closed spec fn from_spec(v: u64) -> ExperimentID {
        ExperimentID(v)
    }
}

impl From<ExperimentID> for u64 {
    fn from(id: ExperimentID) -> (r: u64)
        ensures
            r == id@,
    {
        id.0
    }
}

impl vstd::std_specs::convert::FromSpecImpl<ExperimentID> for u64 {
    open spec fn obeys_from_spec() -> bool {
        true
    }

    closed spec fn from_spec(id: ExperimentID) -> u64 {
        id.0
    }
}

impl TryFrom<&str> for ExperimentID {
    type Error = Error;

    fn try_from(s: &str) -> (r: Result<ExperimentID, Error>)
        ensures
            id_parse_outcome(
                match r {
                    Ok(id) => Ok(id@),
                    Err(e) => Err(e),
                },
                s@,
                "exp"@,
                "ExperimentID"@,
            ),
    {
        ExperimentID::from_text(s)
    }
}

impl vstd::std_specs::convert::TryFromSpecImpl<&str> for ExperimentID {
    open spec fn obeys_try_from_spec() -> bool {
        false
    }

    closed spec fn try_from_spec(s: &str) -> Result<ExperimentID, Error> {
        arbitrary()
    }
}

impl TryFrom<String> for ExperimentID {
    type Error = Error;

    fn try_from(s: String) -> (r: Result<ExperimentID, Error>)
        ensures
            id_parse_outcome(
                match r {
                    Ok(id) => Ok(id@),
                    Err(e) => Err(e),
                },
                s@,
                "exp"@,
                "ExperimentID"@,
            ),
    {
        ExperimentID::from_text(s.as_str())
    }
}

impl vstd::std_specs::convert::TryFromSpecImpl<String> for ExperimentID {
    open spec fn obeys_try_from_spec() -> bool {
        false
    }

    closed spec fn try_from_spec(s: String) -> Result<ExperimentID, Error> {
        arbitrary()
    }
}

impl std::str::FromStr for ExperimentID {
    type Err = Error;

    fn from_str(s: &str) -> (r: Result<ExperimentID, Error>)
        ensures
            id_parse_outcome(
                match r {
                    Ok(id) => Ok(id@),
                    Err(e) => Err(e),
                },
                s@,
                "exp"@,
                "ExperimentID"@,
            ),
    {
        ExperimentID::from_text(s)
    }
}

/// Unique identifier of a training session within an experiment, written `"t-{hex}"`.
#[derive(Clone, Copy, Debug, PartialEq, Eq, Hash, Structural)]
pub struct TrainingSessionID(u64);

impl View for TrainingSessionID {
    type V = u64;

    closed spec fn view(&self) -> u64 {
        self.0
    }
}

impl TrainingSessionID {
    /// Returns the raw `u64` value of this identifier.
    pub fn value(&self) -> (v: u64)
        ensures
            v == self@,
    {
        self.0
    }

    /// Writes the identifier as `"t-{hex}"`.
    pub fn to_string(&self) -> (s: String)
        ensures
            s@ == id_text("t"@, self@),
    {
        format_id("t", self.0)
    }

    /// Parses `"t-{hex}"`.
    pub fn from_text(s: &str) -> (r: Result<TrainingSessionID, Error>)
        ensures
            id_parse_outcome(
                match r {
                    Ok(id) => Ok(id@),
                    Err(e) => Err(e),
                },
                s@,
                "t"@,
                "TrainingSessionID"@,
            ),
    {
        match parse_id(s, "t", "TrainingSessionID") {
            Ok(v) => Ok(TrainingSessionID(v)),
            Err(e) => Err(e),
        }
    }
}

impl From<u64> for TrainingSessionID {
    fn from(id: u64) -> (r: TrainingSessionID)
        ensures
            r@ == id,
    {
        TrainingSessionID(id)
    }
}

impl vstd::std_specs::convert::FromSpecImpl<u64> for TrainingSessionID {
    open spec fn obeys_from_spec() -> bool {
        true
    }

    closed spec fn from_spec(v: u64) -> TrainingSessionID {
        TrainingSessionID(v)
    }
}

impl From<TrainingSessionID> for u64 {
    fn from(id: TrainingSessionID) -> (r: u64)
        ensures
            r == id@,
    {
        id.0
    }
}

impl vstd::std_specs::convert::FromSpecImpl<TrainingSessionID> for u64 {
    open spec fn obeys_from_spec() -> bool {
        true
    }

    closed spec fn from_spec(id: TrainingSessionID) -> u64 {
        id.0
    }
}

impl TryFrom<&str> for TrainingSessionID {
    type Error = Error;

    fn try_from(s: &str) -> (r: Result<TrainingSessionID, Error>)
        ensures
            id_parse_outcome(
                match r {
                    Ok(id) => Ok(id@),
                    Err(e) => Err(e),
                },
                s@,
                "t"@,
                "TrainingSessionID"@,
            ),
    {
        TrainingSessionID::from_text(s)
    }
}

impl vstd::std_specs::convert::TryFromSpecImpl<&str> for TrainingSessionID {
    open spec fn obeys_try_from_spec() -> bool {
        false
    }

    closed spec fn try_from_spec(s: &str) -> Result<TrainingSessionID, Error> {
        arbitrary()
    }
}

impl TryFrom<String> for TrainingSessionID {
    type Error = Error;

    fn try_from(s: String) -> (r: Result<TrainingSessionID, Error>)
        ensures
            id_parse_outcome(
                match r {
                    Ok(id) => Ok(id@),
                    Err(e) => Err(e),
                },
                s@,
                "t"@,
                "TrainingSessionID"@,
            ),
    {
        TrainingSessionID::from_text(s.as_str())
    }
}

impl vstd::std_specs::convert::TryFromSpecImpl<String> for TrainingSessionID {
    open spec fn obeys_try_from_spec() -> bool {
        false
    }

    closed spec fn try_from_spec(s: String) -> Result<TrainingSessionID, Error> {
        arbitrary()
    }
}

impl std::str::FromStr for TrainingSessionID {
    type Err = Error;

    fn from_str(s: &str) -> (r: Result<TrainingSessionID, Error>)
        ensures
            id_parse_outcome(
                match r {
                    Ok(id) => Ok(id@),
                    Err(e) => Err(e),
                },
                s@,
                "t"@,
                "TrainingSessionID"@,
            ),
    {
        TrainingSessionID::from_text(s)
    }
}

/// Unique identifier of a validation session within an experiment, written `"v-{hex}"`.
#[derive(Clone, Copy, Debug, PartialEq, Eq, Hash, Structural)]
pub struct ValidationSessionID(u64);

impl View for ValidationSessionID {
    type V = u64;

    closed spec fn view(&self) -> u64 {
        self.0
    }
}

impl ValidationSessionID {
    /// Returns the raw `u64` value of this identifier.
    pub fn value(&self) -> (v: u64)
        ensures
            v == self@,
    {
        self.0
    }

    /// Writes the identifier as `"v-{hex}"`.
    pub fn to_string(&self) -> (s: String)
        ensures
            s@ == id_text("v"@, self@),
    {
        format_id("v", self.0)
    }

    /// Parses `"v-{hex}"`.
    pub fn from_text(s: &str) -> (r: Result<ValidationSessionID, Error>)
        ensures
            id_parse_outcome(
                match r {
                    Ok(id) => Ok(id@),
                    Err(e) => Err(e),
                },
                s@,
                "v"@,
                "ValidationSessionID"@,
            ),
    {
        match parse_id(s, "v", "ValidationSessionID") {
            Ok(v) => Ok(ValidationSessionID(v)),
            Err(e) => Err(e),
        }
    }
}

impl From<u64> for ValidationSessionID {
    fn from(id: u64) -> (r: ValidationSessionID)
        ensures
            r@ == id,
    {
        ValidationSessionID(id)
    }
}

impl vstd::std_specs::convert::FromSpecImpl<u64> for ValidationSessionID {
    open spec fn obeys_from_spec() -> bool {
        true
    }

    closed spec fn from_spec(v: u64) -> ValidationSessionID {
        ValidationSessionID(v)
    }
}

impl From<ValidationSessionID> for u64 {
    fn from(id: ValidationSessionID) -> (r: u64)
        ensures
            r == id@,
    {
        id.0
    }
}

impl vstd::std_specs::convert::FromSpecImpl<ValidationSessionID> for u64 {
    open spec fn obeys_from_spec() -> bool {
        true
    }

    closed spec fn from_spec(id: ValidationSessionID) -> u64 {
        id.0
    }
}

impl TryFrom<&str> for ValidationSessionID {
    type Error = Error;

    fn try_from(s: &str) -> (r: Result<ValidationSessionID, Error>)
        ensures
            id_parse_outcome(
                match r {
                    Ok(id) => Ok(id@),
                    Err(e) => Err(e),
                },
                s@,
                "v"@,
                "ValidationSessionID"@,
            ),
    {
        ValidationSessionID::from_text(s)
    }
}

impl vstd::std_specs::convert::TryFromSpecImpl<&str> for ValidationSessionID {
    open spec fn obeys_try_from_spec() -> bool {
        false
    }

    closed spec fn try_from_spec(s: &str) -> Result<ValidationSessionID, Error> {
        arbitrary()
    }
}

impl TryFrom<String> for ValidationSessionID {
    type Error = Error;

    fn try_from(s: String) -> (r: Result<ValidationSessionID, Error>)
        ensures
            id_parse_outcome(
                match r {
                    Ok(id) => Ok(id@),
                    Err(e) => Err(e),
                },
                s@,
                "v"@,
                "ValidationSessionID"@,
            ),
    {
        ValidationSessionID::from_text(s.as_str())
    }
}

impl vstd::std_specs::convert::TryFromSpecImpl<String> for ValidationSessionID {
    open spec fn obeys_try_from_spec() -> bool {
        false
    }

    closed spec fn try_from_spec(s: String) -> Result<ValidationSessionID, Error> {
        arbitrary()
    }
}

impl std::str::FromStr for ValidationSessionID {
    type Err = Error;

    fn from_str(s: &str) -> (r: Result<ValidationSessionID, Error>)
        ensures
            id_parse_outcome(
                match r {
                    Ok(id) => Ok(id@),
                    Err(e) => Err(e),
                },
                s@,
                "v"@,
                "ValidationSessionID"@,
            ),
    {
        ValidationSessionID::from_text(s)
    }
}

/// Unique identifier of a snapshot, a saved state of a dataset, written `"ss-{hex}"`.
#[derive(Clone, Copy, Debug, PartialEq, Eq, Hash, Structural)]
pub struct SnapshotID(u64);

impl View for SnapshotID {
    type V = u64;

    closed spec fn view(&self) -> u64 {
        self.0
    }
}

impl SnapshotID {
    /// Returns the raw `u64` value of this identifier.
    pub fn value(&self) -> (v: u64)
        ensures
            v == self@,
    {
        self.0
    }

    /// Writes the identifier as `"ss-{hex}"`.
    pub fn to_string(&self) -> (s: String)
        ensures
            s@ == id_text("ss"@, self@),
    {
        format_id("ss", self.0)
    }

    /// Parses `"ss-{hex}"`.
    pub fn from_text(s: &str) -> (r: Result<SnapshotID, Error>)
        ensures
            id_parse_outcome(
                match r {
                    Ok(id) => Ok(id@),
                    Err(e) => Err(e),
                },
                s@,
                "ss"@,
                "SnapshotID"@,
            ),
    {
        match parse_id(s, "ss", "SnapshotID") {
            Ok(v) => Ok(SnapshotID(v)),
            Err(e) => Err(e),
        }
    }
}

impl From<u64> for SnapshotID {
    fn from(id: u64) -> (r: SnapshotID)
        ensures
            r@ == id,
    {
        SnapshotID(id)
    }
}

impl vstd::std_specs::convert::FromSpecImpl<u64> for SnapshotID {
    open spec fn obeys_from_spec() -> bool {
        true
    }

    closed spec fn from_spec(v: u64) -> SnapshotID {
        SnapshotID(v)
    }
}

impl From<SnapshotID> for u64 {
    fn from(id: SnapshotID) -> (r: u64)
        ensures
            r == id@,
    {
        id.0
    }
}

impl vstd::std_specs::convert::FromSpecImpl<SnapshotID> for u64 {
    open spec fn obeys_from_spec() -> bool {
        true
    }

    closed spec fn from_spec(id: SnapshotID) -> u64 {
        id.0
    }
}

impl TryFrom<&str> for SnapshotID {
    type Error = Error;

    fn try_from(s: &str) -> (r: Result<SnapshotID, Error>)
        ensures
            id_parse_outcome(
                match r {
                    Ok(id) => Ok(id@),
                    Err(e) => Err(e),
                },
                s@,
                "ss"@,
                "SnapshotID"@,
            ),
    {
        SnapshotID::from_text(s)
    }
}

impl vstd::std_specs::convert::TryFromSpecImpl<&str> for SnapshotID {
    open spec fn obeys_try_from_spec() -> bool {
        false
    }

    closed spec fn try_from_spec(s: &str) -> Result<SnapshotID, Error> {
        arbitrary()
    }
}

impl TryFrom<String> for SnapshotID {
    type Error = Error;

    fn try_from(s: String) -> (r: Result<SnapshotID, Error>)
        ensures
            id_parse_outcome(
                match r {
                    Ok(id) => Ok(id@),
                    Err(e) => Err(e),
                },
                s@,
                "ss"@,
                "SnapshotID"@,
            ),
    {
        SnapshotID::from_text(s.as_str())
    }
}

impl vstd::std_specs::convert::TryFromSpecImpl<String> for SnapshotID {
    open spec fn obeys_try_from_spec() -> bool {
        false
    }

    closed spec fn try_from_spec(s: String) -> Result<SnapshotID, Error> {
        arbitrary()
    }
}

impl std::str::FromStr for SnapshotID {
    type Err = Error;

    fn from_str(s: &str) -> (r: Result<SnapshotID, Error>)
        ensures
            id_parse_outcome(
                match r {
                    Ok(id) => Ok(id@),
                    Err(e) => Err(e),
                },
                s@,
                "ss"@,
                "SnapshotID"@,
            ),
    {
        SnapshotID::from_text(s)
    }
}

/// Unique identifier of a background task such as training, validation or export, written `"task-{hex}"`.
#[derive(Clone, Copy, Debug, PartialEq, Eq, Hash, Structural)]
pub struct TaskID(u64);

impl View for TaskID {
    type V = u64;

    closed spec fn view(&self) -> u64 {
        self.0
    }
}

impl TaskID {
    /// Returns the raw `u64` value of this identifier.
    pub fn value(&self) -> (v: u64)
        ensures
            v == self@,
    {
        self.0
    }

    /// Writes the identifier as `"task-{hex}"`.
    pub fn to_string(&self) -> (s: String)
        ensures
            s@ == id_text("task"@, self@),
    {
        format_id("task", self.0)
    }

    /// Parses `"task-{hex}"`.
    pub fn from_text(s: &str) -> (r: Result<TaskID, Error>)
        ensures
            id_parse_outcome(
                match r {
                    Ok(id) => Ok(id@),
                    Err(e) => Err(e),
                },
                s@,
                "task"@,
                "TaskID"@,
            ),
    {
        match parse_id(s, "task", "TaskID") {
            Ok(v) => Ok(TaskID(v)),
            Err(e) => Err(e),
        }
    }
}

impl From<u64> for TaskID {
    fn from(id: u64) -> (r: TaskID)
        ensures
            r@ == id,
    {
        TaskID(id)
    }
}

impl vstd::std_specs::convert::FromSpecImpl<u64> for TaskID {
    open spec fn obeys_from_spec() -> bool {
        true
    }

    closed spec fn from_spec(v: u64) -> TaskID {
        TaskID(v)
    }
}

impl From<TaskID> for u64 {
    fn from(id: TaskID) -> (r: u64)
        ensures
            r == id@,
    {
        id.0
    }
}

impl vstd::std_specs::convert::FromSpecImpl<TaskID> for u64 {
    open spec fn obeys_from_spec() -> bool {
        true
    }

    closed spec fn from_spec(id: TaskID) -> u64 {
        id.0
    }
}

impl TryFrom<&str> for TaskID {
    type Error = Error;

    fn try_from(s: &str) -> (r: Result<TaskID, Error>)
        ensures
            id_parse_outcome(
                match r {
                    Ok(id) => Ok(id@),
                    Err(e) => Err(e),
                },
                s@,
                "task"@,
                "TaskID"@,
            ),
    {
        TaskID::from_text(s)
    }
}

impl vstd::std_specs::convert::TryFromSpecImpl<&str> for TaskID {
    open spec fn obeys_try_from_spec() -> bool {
        false
    }

    closed spec fn try_from_spec(s: &str) -> Result<TaskID, Error> {
        arbitrary()
    }
}

impl TryFrom<String> for TaskID {
    type Error = Error;

    fn try_from(s: String) -> (r: Result<TaskID, Error>)
        ensures
            id_parse_outcome(
                match r {
                    Ok(id) => Ok(id@),
                    Err(e) => Err(e),
                },
                s@,
                "task"@,
                "TaskID"@,
            ),
    {
        TaskID::from_text(s.as_str())
    }
}

impl vstd::std_specs::convert::TryFromSpecImpl<String> for TaskID {
    open spec fn obeys_try_from_spec() -> bool {
        false
    }

    closed spec fn try_from_spec(s: String) -> Result<TaskID, Error> {
        arbitrary()
    }
}

impl std::str::FromStr for TaskID {
    type Err = Error;

    fn from_str(s: &str) -> (r: Result<TaskID, Error>)
        ensures
            id_parse_outcome(
                match r {
                    Ok(id) => Ok(id@),
                    Err(e) => Err(e),
                },
                s@,
                "task"@,
                "TaskID"@,
            ),
    {
        TaskID::from_text(s)
    }
}

/// Unique identifier of a dataset within a project, written `"ds-{hex}"`.
#[derive(Clone, Copy, Debug, PartialEq, Eq, Hash, Structural)]
pub struct DatasetID(u64);

impl View for DatasetID {
    type V = u64;

    closed spec fn view(&self) -> u64 {
        self.0
    }
}

impl DatasetID {
    /// Returns the raw `u64` value of this identifier.
    pub fn value(&self) -> (v: u64)
        ensures
            v == self@,
    {
        self.0
    }

    /// Writes the identifier as `"ds-{hex}"`.
    pub fn to_string(&self) -> (s: String)
        ensures
            s@ == id_text("ds"@, self@),
    {
        format_id("ds", self.0)
    }

    /// Parses `"ds-{hex}"`.
    pub fn from_text(s: &str) -> (r: Result<DatasetID, Error>)
        ensures
            id_parse_outcome(
                match r {
                    Ok(id) => Ok(id@),
                    Err(e) => Err(e),
                },
                s@,
                "ds"@,
                "DatasetID"@,
            ),
    {
        match parse_id(s, "ds", "DatasetID") {
            Ok(v) => Ok(DatasetID(v)),
            Err(e) => Err(e),
        }
    }
}

impl From<u64> for DatasetID {
    fn from(id: u64) -> (r: DatasetID)
        ensures
            r@ == id,
    {
        DatasetID(id)
    }
}

impl vstd::std_specs::convert::FromSpecImpl<u64> for DatasetID {
    open spec fn obeys_from_spec() -> bool {
        true
    }

    closed spec fn from_spec(v: u64) -> DatasetID {
        DatasetID(v)
    }
}

impl From<DatasetID> for u64 {
    fn from(id: DatasetID) -> (r: u64)
        ensures
            r == id@,
    {
        id.0
    }
}

impl vstd::std_specs::convert::FromSpecImpl<DatasetID> for u64 {
    open spec fn obeys_from_spec() -> bool {
        true
    }

    closed spec fn from_spec(id: DatasetID) -> u64 {
        id.0
    }
}

impl TryFrom<&str> for DatasetID {
    type Error = Error;

    fn try_from(s: &str) -> (r: Result<DatasetID, Error>)
        ensures
            id_parse_outcome(
                match r {
                    Ok(id) => Ok(id@),
                    Err(e) => Err(e),
                },
                s@,
                "ds"@,
                "DatasetID"@,
            ),
    {
        DatasetID::from_text(s)
    }
}

impl vstd::std_specs::convert::TryFromSpecImpl<&str> for DatasetID {
    open spec fn obeys_try_from_spec() -> bool {
        false
    }

    closed spec fn try_from_spec(s: &str) -> Result<DatasetID, Error> {
        arbitrary()
    }
}

impl TryFrom<String> for DatasetID {
    type Error = Error;

    fn try_from(s: String) -> (r: Result<DatasetID, Error>)
        ensures
            id_parse_outcome(
                match r {
                    Ok(id) => Ok(id@),
                    Err(e) => Err(e),
                },
                s@,
                "ds"@,
                "DatasetID"@,
            ),
    {
        DatasetID::from_text(s.as_str())
    }
}

impl vstd::std_specs::convert::TryFromSpecImpl<String> for DatasetID {
    open spec fn obeys_try_from_spec() -> bool {
        false
    }

    closed spec fn try_from_spec(s: String) -> Result<DatasetID, Error> {
        arbitrary()
    }
}

impl std::str::FromStr for DatasetID {
    type Err = Error;

    fn from_str(s: &str) -> (r: Result<DatasetID, Error>)
        ensures
            id_parse_outcome(
                match r {
                    Ok(id) => Ok(id@),
                    Err(e) => Err(e),
                },
                s@,
                "ds"@,
                "DatasetID"@,
            ),
    {
        DatasetID::from_text(s)
    }
}

/// Unique identifier of an annotation set within a dataset, written `"as-{hex}"`.
#[derive(Clone, Copy, Debug, PartialEq, Eq, Hash, Structural)]
pub struct AnnotationSetID(u64);

impl View for AnnotationSetID {
    type V = u64;

    closed spec fn view(&self) -> u64 {
        self.0
    }
}

impl AnnotationSetID {
    /// Returns the raw `u64` value of this identifier.
    pub fn value(&self) -> (v: u64)
        ensures
            v == self@,
    {
        self.0
    }

    /// Writes the identifier as `"as-{hex}"`.
    pub fn to_string(&self) -> (s: String)
        ensures
            s@ == id_text("as"@, self@),
    {
        format_id("as", self.0)
    }

    /// Parses `"as-{hex}"`.
    pub fn from_text(s: &str) -> (r: Result<AnnotationSetID, Error>)
        ensures
            id_parse_outcome(
                match r {
                    Ok(id) => Ok(id@),
                    Err(e) => Err(e),
                },
                s@,
                "as"@,
                "AnnotationSetID"@,
            ),
    {
        match parse_id(s, "as", "AnnotationSetID") {
            Ok(v) => Ok(AnnotationSetID(v)),
            Err(e) => Err(e),
        }
    }
}

impl From<u64> for AnnotationSetID {
    fn from(id: u64) -> (r: AnnotationSetID)
        ensures
            r@ == id,
    {
        AnnotationSetID(id)
    }
}

impl vstd::std_specs::convert::FromSpecImpl<u64> for AnnotationSetID {
    open spec fn obeys_from_spec() -> bool {
        true
    }

    closed spec fn from_spec(v: u64) -> AnnotationSetID {
        AnnotationSetID(v)
    }
}

impl From<AnnotationSetID> for u64 {
    fn from(id: AnnotationSetID) -> (r: u64)
        ensures
            r == id@,
    {
        id.0
    }
}

impl vstd::std_specs::convert::FromSpecImpl<AnnotationSetID> for u64 {
    open spec fn obeys_from_spec() -> bool {
        true
    }

    closed spec fn from_spec(id: AnnotationSetID) -> u64 {
        id.0
    }
}

impl TryFrom<&str> for AnnotationSetID {
    type Error = Error;

    fn try_from(s: &str) -> (r: Result<AnnotationSetID, Error>)
        ensures
            id_parse_outcome(
                match r {
                    Ok(id) => Ok(id@),
                    Err(e) => Err(e),
                },
                s@,
                "as"@,
                "AnnotationSetID"@,
            ),
    {
        AnnotationSetID::from_text(s)
    }
}

impl vstd::std_specs::convert::TryFromSpecImpl<&str> for AnnotationSetID {
    open spec fn obeys_try_from_spec() -> bool {
        false
    }

    closed spec fn try_from_spec(s: &str) -> Result<AnnotationSetID, Error> {
        arbitrary()
    }
}

impl TryFrom<String> for AnnotationSetID {
    type Error = Error;

    fn try_from(s: String) -> (r: Result<AnnotationSetID, Error>)
        ensures
            id_parse_outcome(
                match r {
                    Ok(id) => Ok(id@),
                    Err(e) => Err(e),
                },
                s@,
                "as"@,
                "AnnotationSetID"@,
            ),
    {
        AnnotationSetID::from_text(s.as_str())
    }
}

impl vstd::std_specs::convert::TryFromSpecImpl<String> for AnnotationSetID {
    open spec fn obeys_try_from_spec() -> bool {
        false
    }

    closed spec fn try_from_spec(s: String) -> Result<AnnotationSetID, Error> {
        arbitrary()
    }
}

impl std::str::FromStr for AnnotationSetID {
    type Err = Error;

    fn from_str(s: &str) -> (r: Result<AnnotationSetID, Error>)
        ensures
            id_parse_outcome(
                match r {
                    Ok(id) => Ok(id@),
                    Err(e) => Err(e),
                },
                s@,
                "as"@,
                "AnnotationSetID"@,
            ),
    {
        AnnotationSetID::from_text(s)
    }
}

/// Unique identifier of a sample (image, point cloud, ...) within a dataset, written `"s-{hex}"`.
#[derive(Clone, Copy, Debug, PartialEq, Eq, Hash, Structural)]
pub struct SampleID(u64);

impl View for SampleID {
    type V = u64;

    closed spec fn view(&self) -> u64 {
        self.0
    }
}

impl SampleID {
    /// Returns the raw `u64` value of this identifier.
    pub fn value(&self) -> (v: u64)
        ensures
            v == self@,
    {
        self.0
    }

    /// Writes the identifier as `"s-{hex}"`.
    pub fn to_string(&self) -> (s: String)
        ensures
            s@ == id_text("s"@, self@),
    {
        format_id("s", self.0)
    }

    /// Parses `"s-{hex}"`.
    pub fn from_text(s: &str) -> (r: Result<SampleID, Error>)
        ensures
            id_parse_outcome(
                match r {
                    Ok(id) => Ok(id@),
                    Err(e) => Err(e),
                },
                s@,
                "s"@,
                "SampleID"@,
            ),
    {
        match parse_id(s, "s", "SampleID") {
            Ok(v) => Ok(SampleID(v)),
            Err(e) => Err(e),
        }
    }
}

impl From<u64> for SampleID {
    fn from(id: u64) -> (r: SampleID)
        ensures
            r@ == id,
    {
        SampleID(id)
    }
}

impl vstd::std_specs::convert::FromSpecImpl<u64> for SampleID {
    open spec fn obeys_from_spec() -> bool {
        true
    }

    closed spec fn from_spec(v: u64) -> SampleID {
        SampleID(v)
    }
}

impl From<SampleID> for u64 {
    fn from(id: SampleID) -> (r: u64)
        ensures
            r == id@,
    {
        id.0
    }
}

impl vstd::std_specs::convert::FromSpecImpl<SampleID> for u64 {
    open spec fn obeys_from_spec() -> bool {
        true
    }

    closed spec fn from_spec(id: SampleID) -> u64 {
        id.0
    }
}

impl TryFrom<&str> for SampleID {
    type Error = Error;

    fn try_from(s: &str) -> (r: Result<SampleID, Error>)
        ensures
            id_parse_outcome(
                match r {
                    Ok(id) => Ok(id@),
                    Err(e) => Err(e),
                },
                s@,
                "s"@,
                "SampleID"@,
            ),
    {
        SampleID::from_text(s)
    }
}

impl vstd::std_specs::convert::TryFromSpecImpl<&str> for SampleID {
    open spec fn obeys_try_from_spec() -> bool {
        false
    }

    closed spec fn try_from_spec(s: &str) -> Result<SampleID, Error> {
        arbitrary()
    }
}

impl TryFrom<String> for SampleID {
    type Error = Error;

    fn try_from(s: String) -> (r: Result<SampleID, Error>)
        ensures
            id_parse_outcome(
                match r {
                    Ok(id) => Ok(id@),
                    Err(e) => Err(e),
                },
                s@,
                "s"@,
                "SampleID"@,
            ),
    {
        SampleID::from_text(s.as_str())
    }
}

impl vstd::std_specs::convert::TryFromSpecImpl<String> for SampleID {
    open spec fn obeys_try_from_spec() -> bool {
        false
    }

    closed spec fn try_from_spec(s: String) -> Result<SampleID, Error> {
        arbitrary()
    }
}

impl std::str::FromStr for SampleID {
    type Err = Error;

    fn from_str(s: &str) -> (r: Result<SampleID, Error>)
        ensures
            id_parse_outcome(
                match r {
                    Ok(id) => Ok(id@),
                    Err(e) => Err(e),
                },
                s@,
                "s"@,
                "SampleID"@,
            ),
    {
        SampleID::from_text(s)
    }
}

/// Unique identifier of an application (deployed model or inference endpoint), written `"app-{hex}"`.
#[derive(Clone, Copy, Debug, PartialEq, Eq, Hash, Structural)]
pub struct AppId(u64);

impl View for AppId {
    type V = u64;

    closed spec fn view(&self) -> u64 {
        self.0
    }
}

impl AppId {
    /// Returns the raw `u64` value of this identifier.
    pub fn value(&self) -> (v: u64)
        ensures
            v == self@,
    {
        self.0
    }

    /// Writes the identifier as `"app-{hex}"`.
    pub fn to_string(&self) -> (s: String)
        ensures
            s@ == id_text("app"@, self@),
    {
        format_id("app", self.0)
    }

    /// Parses `"app-{hex}"`.
    pub fn from_text(s: &str) -> (r: Result<AppId, Error>)
        ensures
            id_parse_outcome(
                match r {
                    Ok(id) => Ok(id@),
                    Err(e) => Err(e),
                },
                s@,
                "app"@,
                "AppId"@,
            ),
    {
        match parse_id(s, "app", "AppId") {
            Ok(v) => Ok(AppId(v)),
            Err(e) => Err(e),
        }
    }
}

impl From<u64> for AppId {
    fn from(id: u64) -> (r: AppId)
        ensures
            r@ == id,
    {
        AppId(id)
    }
}

impl vstd::std_specs::convert::FromSpecImpl<u64> for AppId {
    open spec fn obeys_from_spec() -> bool {
        true
    }

    closed spec fn from_spec(v: u64) -> AppId {
        AppId(v)
    }
}

impl From<AppId> for u64 {
    fn from(id: AppId) -> (r: u64)
        ensures
            r == id@,
    {
        id.0
    }
}

impl vstd::std_specs::convert::FromSpecImpl<AppId> for u64 {
    open spec fn obeys_from_spec() -> bool {
        true
    }

    closed spec fn from_spec(id: AppId) -> u64 {
        id.0
    }
}

impl TryFrom<&str> for AppId {
    type Error = Error;

    fn try_from(s: &str) -> (r: Result<AppId, Error>)
        ensures
            id_parse_outcome(
                match r {
                    Ok(id) => Ok(id@),
                    Err(e) => Err(e),
                },
                s@,
                "app"@,
                "AppId"@,
            ),
    {
        AppId::from_text(s)
    }
}

impl vstd::std_specs::convert::TryFromSpecImpl<&str> for AppId {
    open spec fn obeys_try_from_spec() -> bool {
        false
    }

    closed spec fn try_from_spec(s: &str) -> Result<AppId, Error> {
        arbitrary()
    }
}

impl TryFrom<String> for AppId {
    type Error = Error;

    fn try_from(s: String) -> (r: Result<AppId, Error>)
        ensures
            id_parse_outcome(
                match r {
                    Ok(id) => Ok(id@),
                    Err(e) => Err(e),
                },
                s@,
                "app"@,
                "AppId"@,
            ),
    {
        AppId::from_text(s.as_str())
    }
}

impl vstd::std_specs::convert::TryFromSpecImpl<String> for AppId {
    open spec fn obeys_try_from_spec() -> bool {
        false
    }

    closed spec fn try_from_spec(s: String) -> Result<AppId, Error> {
        arbitrary()
    }
}

impl std::str::FromStr for AppId {
    type Err = Error;

    fn from_str(s: &str) -> (r: Result<AppId, Error>)
        ensures
            id_parse_outcome(
                match r {
                    Ok(id) => Ok(id@),
                    Err(e) => Err(e),
                },
                s@,
                "app"@,
                "AppId"@,
            ),
    {
        AppId::from_text(s)
    }
}

/// Unique identifier of an image within a dataset sample, written `"im-{hex}"`.
#[derive(Clone, Copy, Debug, PartialEq, Eq, Hash, Structural)]
pub struct ImageId(u64);

impl View for ImageId {
    type V = u64;

    closed spec fn view(&self) -> u64 {
        self.0
    }
}

impl ImageId {
    /// Returns the raw `u64` value of this identifier.
    pub fn value(&self) -> (v: u64)
        ensures
            v == self@,
    {
        self.0
    }

    /// Writes the identifier as `"im-{hex}"`.
    pub fn to_string(&self) -> (s: String)
        ensures
            s@ == id_text("im"@, self@),
    {
        format_id("im", self.0)
    }

    /// Parses `"im-{hex}"`.
    pub fn from_text(s: &str) -> (r: Result<ImageId, Error>)
        ensures
            id_parse_outcome(
                match r {
                    Ok(id) => Ok(id@),
                    Err(e) => Err(e),
                },
                s@,
                "im"@,
                "ImageId"@,
            ),
    {
        match parse_id(s, "im", "ImageId") {
            Ok(v) => Ok(ImageId(v)),
            Err(e) => Err(e),
        }
    }
}

impl From<u64> for ImageId {
    fn from(id: u64) -> (r: ImageId)
        ensures
            r@ == id,
    {
        ImageId(id)
    }
}

impl vstd::std_specs::convert::FromSpecImpl<u64> for ImageId {
    open spec fn obeys_from_spec() -> bool {
        true
    }

    closed spec fn from_spec(v: u64) -> ImageId {
        ImageId(v)
    }
}

impl From<ImageId> for u64 {
    fn from(id: ImageId) -> (r: u64)
        ensures
            r == id@,
    {
        id.0
    }
}

impl vstd::std_specs::convert::FromSpecImpl<ImageId> for u64 {
    open spec fn obeys_from_spec() -> bool {
        true
    }

    closed spec fn from_spec(id: ImageId) -> u64 {
        id.0
    }
}

impl TryFrom<&str> for ImageId {
    type Error = Error;

    fn try_from(s: &str) -> (r: Result<ImageId, Error>)
        ensures
            id_parse_outcome(
                match r {
                    Ok(id) => Ok(id@),
                    Err(e) => Err(e),
                },
                s@,
                "im"@,
                "ImageId"@,
            ),
    {
        ImageId::from_text(s)
    }
}

impl vstd::std_specs::convert::TryFromSpecImpl<&str> for ImageId {
    open spec fn obeys_try_from_spec() -> bool {
        false
    }

    closed spec fn try_from_spec(s: &str) -> Result<ImageId, Error> {
        arbitrary()
    }
}

impl TryFrom<String> for ImageId {
    type Error = Error;

    fn try_from(s: String) -> (r: Result<ImageId, Error>)
        ensures
            id_parse_outcome(
                match r {
                    Ok(id) => Ok(id@),
                    Err(e) => Err(e),
                },
                s@,
                "im"@,
                "ImageId"@,
            ),
    {
        ImageId::from_text(s.as_str())
    }
}

impl vstd::std_specs::convert::TryFromSpecImpl<String> for ImageId {
    open spec fn obeys_try_from_spec() -> bool {
        false
    }

    closed spec fn try_from_spec(s: String) -> Result<ImageId, Error> {
        arbitrary()
    }
}

impl std::str::FromStr for ImageId {
    type Err = Error;

    fn from_str(s: &str) -> (r: Result<ImageId, Error>)
        ensures
            id_parse_outcome(
                match r {
                    Ok(id) => Ok(id@),
                    Err(e) => Err(e),
                },
                s@,
                "im"@,
                "ImageId"@,
            ),
    {
        ImageId::from_text(s)
    }
}

/// Unique identifier of a sequence, a temporal grouping of samples, written `"se-{hex}"`.
#[derive(Clone, Copy, Debug, PartialEq, Eq, Hash, Structural)]
pub struct SequenceId(u64);

impl View for SequenceId {
    type V = u64;

    closed spec fn view(&self) -> u64 {
        self.0
    }
}

impl SequenceId {
    /// Returns the raw `u64` value of this identifier.
    pub fn value(&self) -> (v: u64)
        ensures
            v == self@,
    {
        self.0
    }

    /// Writes the identifier as `"se-{hex}"`.
    pub fn to_string(&self) -> (s: String)
        ensures
            s@ == id_text("se"@, self@),
    {
        format_id("se", self.0)
    }

    /// Parses `"se-{hex}"`.
    pub fn from_text(s: &str) -> (r: Result<SequenceId, Error>)
        ensures
            id_parse_outcome(
                match r {
                    Ok(id) => Ok(id@),
                    Err(e) => Err(e),
                },
                s@,
                "se"@,
                "SequenceId"@,
            ),
    {
        match parse_id(s, "se", "SequenceId") {
            Ok(v) => Ok(SequenceId(v)),
            Err(e) => Err(e),
        }
    }
}

impl From<u64> for SequenceId {
    fn from(id: u64) -> (r: SequenceId)
        ensures
            r@ == id,
    {
        SequenceId(id)
    }
}

impl vstd::std_specs::convert::FromSpecImpl<u64> for SequenceId {
    open spec fn obeys_from_spec() -> bool {
        true
    }

    closed spec fn from_spec(v: u64) -> SequenceId {
        SequenceId(v)
    }
}

impl From<SequenceId> for u64 {
    fn from(id: SequenceId) -> (r: u64)
        ensures
            r == id@,
    {
        id.0
    }
}

impl vstd::std_specs::convert::FromSpecImpl<SequenceId> for u64 {
    open spec fn obeys_from_spec() -> bool {
        true
    }

    closed spec fn from_spec(id: SequenceId) -> u64 {
        id.0
    }
}

impl TryFrom<&str> for SequenceId {
    type Error = Error;

    fn try_from(s: &str) -> (r: Result<SequenceId, Error>)
        ensures
            id_parse_outcome(
                match r {
                    Ok(id) => Ok(id@),
                    Err(e) => Err(e),
                },
                s@,
                "se"@,
                "SequenceId"@,
            ),
    {
        SequenceId::from_text(s)
    }
}

impl vstd::std_specs::convert::TryFromSpecImpl<&str> for SequenceId {
    open spec fn obeys_try_from_spec() -> bool {
        false
    }

    closed spec fn try_from_spec(s: &str) -> Result<SequenceId, Error> {
        arbitrary()
    }
}

impl TryFrom<String> for SequenceId {
    type Error = Error;

    fn try_from(s: String) -> (r: Result<SequenceId, Error>)
        ensures
            id_parse_outcome(
                match r {
                    Ok(id) => Ok(id@),
                    Err(e) => Err(e),
                },
                s@,
                "se"@,
                "SequenceId"@,
            ),
    {
        SequenceId::from_text(s.as_str())
    }
}

impl vstd::std_specs::convert::TryFromSpecImpl<String> for SequenceId {
    open spec fn obeys_try_from_spec() -> bool {
        false
    }

    closed spec fn try_from_spec(s: String) -> Result<SequenceId, Error> {
        arbitrary()
    }
}

impl std::str::FromStr for SequenceId {
    type Err = Error;

    fn from_str(s: &str) -> (r: Result<SequenceId, Error>)
        ensures
            id_parse_outcome(
                match r {
                    Ok(id) => Ok(id@),
                    Err(e) => Err(e),
                },
                s@,
                "se"@,
                "SequenceId"@,
            ),
    {
        SequenceId::from_text(s)
    }
}

} // verus!
