//! Generations of fleet configuration and the ledger of conflicts between
//! them.

use crate::ha_coordination::{
    CoordinatorModel, HaCoordinator, HaError, HaLeases, LeasesModel, fence_error, ha_error_text,
};
use crate::ids::{first_id, lemma_first_id, lemma_first_id_unique};
use crate::number::{decimal, push_decimal};
use crate::text::{
    chars_of, control, copy_optional, fits_utf8, is_control, is_white_space, lemma_trim_fixed,
    lemma_trim_keeps, lemma_trim_shape, lex_less, opt_view,
    optional_is, same_optional, same_text, string_of, text_before, trim, trimmed, utf8_len,
    white_space,
};
use vstd::prelude::*;
use vstd::string::*;

verus! {

pub const MAX_INSTANCE_ID_BYTES: usize = 128;

pub const MAX_REVISION_BYTES: usize = 256;

pub const MAX_RESOURCE_KIND_BYTES: usize = 64;

pub const MAX_RESOURCE_ID_BYTES: usize = 256;

pub const MAX_CONFLICT_CODE_BYTES: usize = 96;

pub const MAX_DETAIL_SUMMARY_CHARS: usize = 512;

pub const MAX_RESOLUTION_CHARS: usize = 512;

/// How far a generation has been applied.
#[derive(Clone, Copy, Debug, PartialEq, Eq, Structural)]
pub enum FleetSyncState {
    Pending,
    Applying,
    Ready,
    Conflicted,
    Failed,
}

pub open spec fn sync_state_name(s: FleetSyncState) -> Seq<char> {
    match s {
        FleetSyncState::Pending => "pending"@,
        FleetSyncState::Applying => "applying"@,
        FleetSyncState::Ready => "ready"@,
        FleetSyncState::Conflicted => "conflicted"@,
        FleetSyncState::Failed => "failed"@,
    }
}

pub open spec fn sync_state_of(name: Seq<char>) -> Option<FleetSyncState> {
    if name == "pending"@ {
        Some(FleetSyncState::Pending)
    } else if name == "applying"@ {
        Some(FleetSyncState::Applying)
    } else if name == "ready"@ {
        Some(FleetSyncState::Ready)
    } else if name == "conflicted"@ {
        Some(FleetSyncState::Conflicted)
    } else if name == "failed"@ {
        Some(FleetSyncState::Failed)
    } else {
        None
    }
}

impl FleetSyncState {
    pub fn as_str(self) -> (r: &'static str)
        ensures
            r@ == sync_state_name(self),
    {
        match self {
            FleetSyncState::Pending => "pending",
            FleetSyncState::Applying => "applying",
            FleetSyncState::Ready => "ready",
            FleetSyncState::Conflicted => "conflicted",
            FleetSyncState::Failed => "failed",
        }
    }

    /// The state that a stored name denotes.
    pub fn parse(value: &str) -> (r: Option<Self>)
        ensures
            r == sync_state_of(value@),
    {
        if same_text(value, "pending") {
            Some(FleetSyncState::Pending)
        } else if same_text(value, "applying") {
            Some(FleetSyncState::Applying)
        } else if same_text(value, "ready") {
            Some(FleetSyncState::Ready)
        } else if same_text(value, "conflicted") {
            Some(FleetSyncState::Conflicted)
        } else if same_text(value, "failed") {
            Some(FleetSyncState::Failed)
        } else {
            None
        }
    }
}

/// Whether a conflict still stands.
#[derive(Clone, Copy, Debug, PartialEq, Eq, Structural)]
pub enum FleetConflictState {
    Open,
    Resolved,
}

pub open spec fn conflict_state_name(s: FleetConflictState) -> Seq<char> {
    match s {
        FleetConflictState::Open => "open"@,
        FleetConflictState::Resolved => "resolved"@,
    }
}

pub open spec fn conflict_state_of(name: Seq<char>) -> Option<FleetConflictState> {
    if name == "open"@ {
        Some(FleetConflictState::Open)
    } else if name == "resolved"@ {
        Some(FleetConflictState::Resolved)
    } else {
        None
    }
}

impl FleetConflictState {
    pub fn as_str(self) -> (r: &'static str)
        ensures
            r@ == conflict_state_name(self),
    {
        match self {
            FleetConflictState::Open => "open",
            FleetConflictState::Resolved => "resolved",
        }
    }

    /// The state that a stored name denotes.
    pub fn parse(value: &str) -> (r: Option<Self>)
        ensures
            r == conflict_state_of(value@),
    {
        if same_text(value, "open") {
            Some(FleetConflictState::Open)
        } else if same_text(value, "resolved") {
            Some(FleetConflictState::Resolved)
        } else {
            None
        }
    }
}

/// Stored states read back as themselves.
pub proof fn law_states_read_back(s: FleetSyncState, c: FleetConflictState)
    ensures
        sync_state_of(sync_state_name(s)) == Some(s),
        conflict_state_of(conflict_state_name(c)) == Some(c),
{
    reveal_strlit("pending");
    reveal_strlit("applying");
    reveal_strlit("ready");
    reveal_strlit("conflicted");
    reveal_strlit("failed");
    reveal_strlit("open");
    reveal_strlit("resolved");
    assert("pending"@.len() == 7 && "applying"@.len() == 8 && "ready"@.len() == 5
        && "conflicted"@.len() == 10 && "failed"@.len() == 6);
    assert("open"@.len() == 4 && "resolved"@.len() == 8);
}

/// The latest generation of a source.
#[derive(Clone, Debug, PartialEq, Eq)]
pub struct FleetGeneration {
    pub source_instance_id: String,
    pub generation: u64,
    pub revision: String,
    pub owner_instance_id: String,
    pub owner_incarnation_id: String,
    pub fencing_token: u64,
    pub resource_count: u64,
    pub sync_state: FleetSyncState,
    pub sync_progress: u8,
    pub updated_unix_seconds: u64,
}

/// What a [`FleetGeneration`] says.
pub struct FleetGenerationModel {
    pub source_instance_id: Seq<char>,
    pub generation: u64,
    pub revision: Seq<char>,
    pub owner_instance_id: Seq<char>,
    pub owner_incarnation_id: Seq<char>,
    pub fencing_token: u64,
    pub resource_count: u64,
    pub sync_state: FleetSyncState,
    pub sync_progress: u8,
    pub updated_unix_seconds: u64,
}

impl View for FleetGeneration {
    type V = FleetGenerationModel;

    open spec fn view(&self) -> FleetGenerationModel {
        FleetGenerationModel {
            source_instance_id: self.source_instance_id@,
            generation: self.generation,
            revision: self.revision@,
            owner_instance_id: self.owner_instance_id@,
            owner_incarnation_id: self.owner_incarnation_id@,
            fencing_token: self.fencing_token,
            resource_count: self.resource_count,
            sync_state: self.sync_state,
            sync_progress: self.sync_progress,
            updated_unix_seconds: self.updated_unix_seconds,
        }
    }
}

impl FleetGeneration {
    /// A copy of the value.
    pub fn duplicate(&self) -> (r: Self)
        ensures
            r@ == self@,
    {
        let r = FleetGeneration {
            source_instance_id: self.source_instance_id.clone(),
            generation: self.generation,
            revision: self.revision.clone(),
            owner_instance_id: self.owner_instance_id.clone(),
            owner_incarnation_id: self.owner_incarnation_id.clone(),
            fencing_token: self.fencing_token,
            resource_count: self.resource_count,
            sync_state: self.sync_state,
            sync_progress: self.sync_progress,
            updated_unix_seconds: self.updated_unix_seconds,
        };
        r
    }

    /// Copies of a list of values.
    pub fn duplicate_all(v: &Vec<Self>) -> (r: Vec<Self>)
        ensures
            r@.map_values(|x: Self| x@) == v@.map_values(|x: Self| x@),
    {
        let mut out: Vec<Self> = Vec::new();
        let mut i: usize = 0;
        while i < v.len()
            invariant
                i <= v@.len(),
                out@.len() == i,
                forall|j: int| 0 <= j < i ==> (#[trigger] out@[j])@ == v@[j]@,
            decreases v@.len() - i,
        {
            out.push(v[i].duplicate());
            i = i + 1;
        }
        assert(out@.map_values(|x: Self| x@) =~= v@.map_values(|x: Self| x@));
        out
    }
}

/// A report about a generation.
#[derive(Clone, Debug, PartialEq, Eq)]
pub struct FleetGenerationInput {
    pub source_instance_id: String,
    pub generation: u64,
    pub revision: String,
    pub resource_count: u64,
    pub sync_state: FleetSyncState,
    pub sync_progress: u8,
}

/// What a [`FleetGenerationInput`] says.
pub struct FleetGenerationInputModel {
    pub source_instance_id: Seq<char>,
    pub generation: u64,
    pub revision: Seq<char>,
    pub resource_count: u64,
    pub sync_state: FleetSyncState,
    pub sync_progress: u8,
}

impl View for FleetGenerationInput {
    type V = FleetGenerationInputModel;

    open spec fn view(&self) -> FleetGenerationInputModel {
        FleetGenerationInputModel {
            source_instance_id: self.source_instance_id@,
            generation: self.generation,
            revision: self.revision@,
            resource_count: self.resource_count,
            sync_state: self.sync_state,
            sync_progress: self.sync_progress,
        }
    }
}

impl FleetGenerationInput {
    /// A copy of the value.
    pub fn duplicate(&self) -> (r: Self)
        ensures
            r@ == self@,
    {
        let r = FleetGenerationInput {
            source_instance_id: self.source_instance_id.clone(),
            generation: self.generation,
            revision: self.revision.clone(),
            resource_count: self.resource_count,
            sync_state: self.sync_state,
            sync_progress: self.sync_progress,
        };
        r
    }
}

/// What a report did.
#[derive(Clone, Debug, PartialEq, Eq)]
pub struct FleetGenerationUpdate {
    pub accepted: bool,
    pub duplicate: bool,
    pub generation: FleetGeneration,
}

/// What a [`FleetGenerationUpdate`] says.
pub struct FleetGenerationUpdateModel {
    pub accepted: bool,
    pub duplicate: bool,
    pub generation: FleetGenerationModel,
}

impl View for FleetGenerationUpdate {
    type V = FleetGenerationUpdateModel;

    open spec fn view(&self) -> FleetGenerationUpdateModel {
        FleetGenerationUpdateModel {
            accepted: self.accepted,
            duplicate: self.duplicate,
            generation: self.generation@,
        }
    }
}

impl FleetGenerationUpdate {
    /// A copy of the value.
    pub fn duplicate(&self) -> (r: Self)
        ensures
            r@ == self@,
    {
        let r = FleetGenerationUpdate {
            accepted: self.accepted,
            duplicate: self.duplicate,
            generation: self.generation.duplicate(),
        };
        r
    }
}

/// A conflict between the resources of a generation and those that exist.
#[derive(Clone, Debug, PartialEq, Eq)]
pub struct FleetConflict {
    pub conflict_id: u128,
    pub source_instance_id: String,
    pub generation: u64,
    pub resource_kind: String,
    pub resource_id: String,
    pub owner_instance_id: Option<String>,
    pub conflict_code: String,
    pub detail_summary: String,
    pub state: FleetConflictState,
    pub detected_unix_seconds: u64,
    pub resolved_unix_seconds: Option<u64>,
    pub resolution: Option<String>,
}

/// What a [`FleetConflict`] says.
pub struct FleetConflictModel {
    pub conflict_id: u128,
    pub source_instance_id: Seq<char>,
    pub generation: u64,
    pub resource_kind: Seq<char>,
    pub resource_id: Seq<char>,
    pub owner_instance_id: Option<Seq<char>>,
    pub conflict_code: Seq<char>,
    pub detail_summary: Seq<char>,
    pub state: FleetConflictState,
    pub detected_unix_seconds: u64,
    pub resolved_unix_seconds: Option<u64>,
    pub resolution: Option<Seq<char>>,
}

impl View for FleetConflict {
    type V = FleetConflictModel;

    open spec fn view(&self) -> FleetConflictModel {
        FleetConflictModel {
            conflict_id: self.conflict_id,
            source_instance_id: self.source_instance_id@,
            generation: self.generation,
            resource_kind: self.resource_kind@,
            resource_id: self.resource_id@,
            owner_instance_id: opt_view(self.owner_instance_id),
            conflict_code: self.conflict_code@,
            detail_summary: self.detail_summary@,
            state: self.state,
            detected_unix_seconds: self.detected_unix_seconds,
            resolved_unix_seconds: self.resolved_unix_seconds,
            resolution: opt_view(self.resolution),
        }
    }
}

impl FleetConflict {
    /// A copy of the value.
    pub fn duplicate(&self) -> (r: Self)
        ensures
            r@ == self@,
    {
        let r = FleetConflict {
            conflict_id: self.conflict_id,
            source_instance_id: self.source_instance_id.clone(),
            generation: self.generation,
            resource_kind: self.resource_kind.clone(),
            resource_id: self.resource_id.clone(),
            owner_instance_id: copy_optional(&self.owner_instance_id),
            conflict_code: self.conflict_code.clone(),
            detail_summary: self.detail_summary.clone(),
            state: self.state,
            detected_unix_seconds: self.detected_unix_seconds,
            resolved_unix_seconds: self.resolved_unix_seconds,
            resolution: copy_optional(&self.resolution),
        };
        r
    }

    /// Copies of a list of values.
    pub fn duplicate_all(v: &Vec<Self>) -> (r: Vec<Self>)
        ensures
            r@.map_values(|x: Self| x@) == v@.map_values(|x: Self| x@),
    {
        let mut out: Vec<Self> = Vec::new();
        let mut i: usize = 0;
        while i < v.len()
            invariant
                i <= v@.len(),
                out@.len() == i,
                forall|j: int| 0 <= j < i ==> (#[trigger] out@[j])@ == v@[j]@,
            decreases v@.len() - i,
        {
            out.push(v[i].duplicate());
            i = i + 1;
        }
        assert(out@.map_values(|x: Self| x@) =~= v@.map_values(|x: Self| x@));
        out
    }
}

/// A report about a conflict.
#[derive(Clone, Debug, PartialEq, Eq)]
pub struct FleetConflictInput {
    pub conflict_id: u128,
    pub source_instance_id: String,
    pub generation: u64,
    pub resource_kind: String,
    pub resource_id: String,
    pub owner_instance_id: Option<String>,
    pub conflict_code: String,
    pub detail_summary: String,
}

/// What a [`FleetConflictInput`] says.
pub struct FleetConflictInputModel {
    pub conflict_id: u128,
    pub source_instance_id: Seq<char>,
    pub generation: u64,
    pub resource_kind: Seq<char>,
    pub resource_id: Seq<char>,
    pub owner_instance_id: Option<Seq<char>>,
    pub conflict_code: Seq<char>,
    pub detail_summary: Seq<char>,
}

impl View for FleetConflictInput {
    type V = FleetConflictInputModel;

    open spec fn view(&self) -> FleetConflictInputModel {
        FleetConflictInputModel {
            conflict_id: self.conflict_id,
            source_instance_id: self.source_instance_id@,
            generation: self.generation,
            resource_kind: self.resource_kind@,
            resource_id: self.resource_id@,
            owner_instance_id: opt_view(self.owner_instance_id),
            conflict_code: self.conflict_code@,
            detail_summary: self.detail_summary@,
        }
    }
}

impl FleetConflictInput {
    /// A copy of the value.
    pub fn duplicate(&self) -> (r: Self)
        ensures
            r@ == self@,
    {
        let r = FleetConflictInput {
            conflict_id: self.conflict_id,
            source_instance_id: self.source_instance_id.clone(),
            generation: self.generation,
            resource_kind: self.resource_kind.clone(),
            resource_id: self.resource_id.clone(),
            owner_instance_id: copy_optional(&self.owner_instance_id),
            conflict_code: self.conflict_code.clone(),
            detail_summary: self.detail_summary.clone(),
        };
        r
    }
}

/// A recorded conflict.
#[derive(Clone, Debug, PartialEq, Eq)]
pub struct FleetConflictWrite {
    pub duplicate: bool,
    pub conflict: FleetConflict,
}

/// What a [`FleetConflictWrite`] says.
pub struct FleetConflictWriteModel {
    pub duplicate: bool,
    pub conflict: FleetConflictModel,
}

impl View for FleetConflictWrite {
    type V = FleetConflictWriteModel;

    open spec fn view(&self) -> FleetConflictWriteModel {
        FleetConflictWriteModel {
            duplicate: self.duplicate,
            conflict: self.conflict@,
        }
    }
}

impl FleetConflictWrite {
    /// A copy of the value.
    pub fn duplicate(&self) -> (r: Self)
        ensures
            r@ == self@,
    {
        let r = FleetConflictWrite {
            duplicate: self.duplicate,
            conflict: self.conflict.duplicate(),
        };
        r
    }
}

/// What a text in a report stands for.
#[derive(Clone, Copy, Debug, PartialEq, Eq, Structural)]
pub enum FieldLabel {
    SourceInstanceId,
    Revision,
    ResourceKind,
    ResourceId,
    ResourceOwner,
    ConflictCode,
    ConflictDetail,
    ConflictResolution,
}

pub open spec fn label_text(l: FieldLabel) -> Seq<char> {
    match l {
        FieldLabel::SourceInstanceId => "source instance ID"@,
        FieldLabel::Revision => "Fleet revision"@,
        FieldLabel::ResourceKind => "Fleet resource kind"@,
        FieldLabel::ResourceId => "Fleet resource ID"@,
        FieldLabel::ResourceOwner => "resource owner"@,
        FieldLabel::ConflictCode => "Fleet conflict code"@,
        FieldLabel::ConflictDetail => "Fleet conflict detail"@,
        FieldLabel::ConflictResolution => "conflict resolution"@,
    }
}

impl FieldLabel {
    pub fn as_str(self) -> (r: &'static str)
        ensures
            r@ == label_text(self),
    {
        match self {
            FieldLabel::SourceInstanceId => "source instance ID",
            FieldLabel::Revision => "Fleet revision",
            FieldLabel::ResourceKind => "Fleet resource kind",
            FieldLabel::ResourceId => "Fleet resource ID",
            FieldLabel::ResourceOwner => "resource owner",
            FieldLabel::ConflictCode => "Fleet conflict code",
            FieldLabel::ConflictDetail => "Fleet conflict detail",
            FieldLabel::ConflictResolution => "conflict resolution",
        }
    }
}

/// Why a report was refused.
#[derive(Clone, Copy, Debug, PartialEq, Eq, Structural)]
pub enum FleetCoordinationError {
    Required(FieldLabel),
    TooLong { label: FieldLabel, maximum: usize },
    ControlCharacters(FieldLabel),
    GenerationTooLarge,
    ResourceCountTooLarge,
    ProgressTooLarge,
    PendingProgress,
    ApplyingProgress,
    ReadyProgress,
    NilConflictId,
    Fence(HaError),
    RevisionBound,
    ResourceCountBound,
    ProgressBackwards,
    InvalidTransition,
    NewerFencingToken,
    FencingTokenReused,
    OpenConflicts,
    GenerationMissing,
    StaleGeneration,
    ConflictBound,
    DifferentResolution,
}

/// The text of a refusal.
pub open spec fn coordination_error_text(e: FleetCoordinationError) -> Seq<char> {
    match e {
        FleetCoordinationError::Required(label) => label_text(label) + " is required"@,
        FleetCoordinationError::TooLong { label, maximum } => label_text(label) + " exceeds "@
            + decimal(maximum as nat) + " bytes"@,
        FleetCoordinationError::ControlCharacters(label) => label_text(label)
            + " must not contain control characters"@,
        FleetCoordinationError::GenerationTooLarge => "Fleet generation is too large"@,
        FleetCoordinationError::ResourceCountTooLarge => "Fleet resource count is too large"@,
        FleetCoordinationError::ProgressTooLarge => "Fleet sync progress must not exceed 100"@,
        FleetCoordinationError::PendingProgress => "pending Fleet generations must have zero progress"@,
        FleetCoordinationError::ApplyingProgress => "applying Fleet generations must have progress below 100"@,
        FleetCoordinationError::ReadyProgress => "ready Fleet generations must have 100 progress"@,
        FleetCoordinationError::NilConflictId => "Fleet conflict ID must not be nil"@,
        FleetCoordinationError::Fence(error) => ha_error_text(error),
        FleetCoordinationError::RevisionBound => "Fleet generation was already bound to another revision"@,
        FleetCoordinationError::ResourceCountBound => "Fleet generation was already bound to another resource count"@,
        FleetCoordinationError::ProgressBackwards => "Fleet sync progress must not move backwards"@,
        FleetCoordinationError::InvalidTransition => "Fleet sync state transition is invalid"@,
        FleetCoordinationError::NewerFencingToken => "Fleet generation contains a newer fencing token"@,
        FleetCoordinationError::FencingTokenReused => "Fleet generation reuses one fencing token across process sessions"@,
        FleetCoordinationError::OpenConflicts => "Fleet generation cannot become ready with open conflicts"@,
        FleetCoordinationError::GenerationMissing => "Fleet generation does not exist"@,
        FleetCoordinationError::StaleGeneration => "Fleet conflict targets a stale generation"@,
        FleetCoordinationError::ConflictBound => "Fleet conflict ID is already bound to another conflict"@,
        FleetCoordinationError::DifferentResolution => "Fleet conflict was resolved with a different resolution"@,
    }
}

impl FleetCoordinationError {
    /// The text shown to operators.
    pub fn message(self) -> (r: String)
        ensures
            r@ == coordination_error_text(self),
    {
        match self {
            FleetCoordinationError::Required(label) => {
                let mut out = label.as_str().to_owned();
                out.append(" is required");
                out
            },
            FleetCoordinationError::TooLong { label, maximum } => {
                let mut out = label.as_str().to_owned();
                out.append(" exceeds ");
                push_decimal(&mut out, maximum as u64);
                out.append(" bytes");
                out
            },
            FleetCoordinationError::ControlCharacters(label) => {
                let mut out = label.as_str().to_owned();
                out.append(" must not contain control characters");
                out
            },
            FleetCoordinationError::GenerationTooLarge => "Fleet generation is too large".to_owned(),
            FleetCoordinationError::ResourceCountTooLarge => "Fleet resource count is too large".to_owned(),
            FleetCoordinationError::ProgressTooLarge => "Fleet sync progress must not exceed 100".to_owned(),
            FleetCoordinationError::PendingProgress => "pending Fleet generations must have zero progress".to_owned(),
            FleetCoordinationError::ApplyingProgress => "applying Fleet generations must have progress below 100".to_owned(),
            FleetCoordinationError::ReadyProgress => "ready Fleet generations must have 100 progress".to_owned(),
            FleetCoordinationError::NilConflictId => "Fleet conflict ID must not be nil".to_owned(),
            FleetCoordinationError::Fence(error) => error.message().to_owned(),
            FleetCoordinationError::RevisionBound => "Fleet generation was already bound to another revision".to_owned(),
            FleetCoordinationError::ResourceCountBound => "Fleet generation was already bound to another resource count".to_owned(),
            FleetCoordinationError::ProgressBackwards => "Fleet sync progress must not move backwards".to_owned(),
            FleetCoordinationError::InvalidTransition => "Fleet sync state transition is invalid".to_owned(),
            FleetCoordinationError::NewerFencingToken => "Fleet generation contains a newer fencing token".to_owned(),
            FleetCoordinationError::FencingTokenReused => "Fleet generation reuses one fencing token across process sessions".to_owned(),
            FleetCoordinationError::OpenConflicts => "Fleet generation cannot become ready with open conflicts".to_owned(),
            FleetCoordinationError::GenerationMissing => "Fleet generation does not exist".to_owned(),
            FleetCoordinationError::StaleGeneration => "Fleet conflict targets a stale generation".to_owned(),
            FleetCoordinationError::ConflictBound => "Fleet conflict ID is already bound to another conflict".to_owned(),
            FleetCoordinationError::DifferentResolution => "Fleet conflict was resolved with a different resolution".to_owned(),
        }
    }
}

// ---------------------------------------------------------------------------
// Texts
// ---------------------------------------------------------------------------

pub open spec fn has_control(s: Seq<char>) -> bool {
    exists|i: int| 0 <= i < s.len() && control(#[trigger] s[i])
}

/// A trimmed identifier, or what is wrong with it.
pub open spec fn identifier_of(value: Seq<char>, label: FieldLabel, maximum: usize) -> Result<
    Seq<char>,
    FleetCoordinationError,
> {
    let s = trim(value);
    if s.len() == 0 {
        Err(FleetCoordinationError::Required(label))
    } else if utf8_len(s) > maximum {
        Err(FleetCoordinationError::TooLong { label, maximum })
    } else if has_control(s) {
        Err(FleetCoordinationError::ControlCharacters(label))
    } else {
        Ok(s)
    }
}

/// A character as it counts in a summary.
pub open spec fn summary_char(c: char) -> char {
    if control(c) {
        ' '
    } else {
        c
    }
}

/// A summary of a text: runs of white space and control characters become one
/// space, until the summary has `maximum` characters.
pub open spec fn collapsed(s: Seq<char>, out: Seq<char>, after_space: bool, maximum: nat) -> Seq<char>
    decreases s.len(),
{
    if s.len() == 0 {
        out
    } else {
        let c = summary_char(s[0]);
        let next = if !white_space(c) {
            out.push(c)
        } else if after_space {
            out
        } else {
            out.push(' ')
        };
        if next.len() >= maximum {
            next
        } else {
            collapsed(s.drop_first(), next, white_space(c), maximum)
        }
    }
}

/// A trimmed summary, or what is wrong with it.
pub open spec fn summary_of(value: Seq<char>, label: FieldLabel, maximum: nat) -> Result<
    Seq<char>,
    FleetCoordinationError,
> {
    let s = trim(collapsed(trim(value), Seq::empty(), false, maximum));
    if s.len() == 0 {
        Err(FleetCoordinationError::Required(label))
    } else {
        Ok(s)
    }
}

pub fn holds_control(s: &[char]) -> (r: bool)
    ensures
        r == has_control(s@),
{
    let mut i: usize = 0;
    while i < s.len()
        invariant
            i <= s@.len(),
            forall|j: int| 0 <= j < i ==> !control(#[trigger] s@[j]),
        decreases s@.len() - i,
    {
        if is_control(s[i]) {
            assert(control(s@[i as int]));
            return true;
        }
        i = i + 1;
    }
    false
}

/// A trimmed identifier, or what is wrong with it.
pub fn normalize_identifier(value: &str, label: FieldLabel, maximum: usize) -> (r: Result<
    String,
    FleetCoordinationError,
>)
    ensures
        match identifier_of(value@, label, maximum) {
            Ok(s) => r is Ok && r->Ok_0@ == s,
            Err(error) => r is Err && r->Err_0 == error,
        },
{
    let s = trimmed(&chars_of(value));
    if s.len() == 0 {
        return Err(FleetCoordinationError::Required(label));
    }
    if !fits_utf8(&s, maximum) {
        return Err(FleetCoordinationError::TooLong { label, maximum });
    }
    if holds_control(&s) {
        return Err(FleetCoordinationError::ControlCharacters(label));
    }
    Ok(string_of(&s))
}

/// A trimmed summary, or what is wrong with it.
pub fn normalize_summary(value: &str, label: FieldLabel, maximum: usize) -> (r: Result<
    String,
    FleetCoordinationError,
>)
    ensures
        match summary_of(value@, label, maximum as nat) {
            Ok(s) => r is Ok && r->Ok_0@ == s,
            Err(error) => r is Err && r->Err_0 == error,
        },
{
    let s = trimmed(&chars_of(value));
    let mut out: Vec<char> = Vec::new();
    let mut after_space = false;
    let mut i: usize = 0;
    let ghost whole = collapsed(s@, Seq::empty(), false, maximum as nat);
    assert(s@.skip(0) =~= s@);
    assert(out@ =~= Seq::<char>::empty());
    let mut full = false;
    while i < s.len() && !full
        invariant
            i <= s@.len(),
            s@ == trim(value@),
            whole == collapsed(s@, Seq::empty(), false, maximum as nat),
            full ==> whole == out@,
            !full ==> whole == collapsed(s@.skip(i as int), out@, after_space, maximum as nat),
        decreases s@.len() - i,
    {
        assert(s@.skip(i as int)[0] == s@[i as int]);
        assert(s@.skip(i as int).drop_first() =~= s@.skip(i + 1));
        let c = if is_control(s[i]) {
            ' '
        } else {
            s[i]
        };
        if is_white_space(c) {
            if !after_space {
                out.push(' ');
            }
            after_space = true;
        } else {
            out.push(c);
            after_space = false;
        }
        if out.len() >= maximum {
            full = true;
        }
        i = i + 1;
    }
    let output = trimmed(&out);
    if output.len() == 0 {
        return Err(FleetCoordinationError::Required(label));
    }
    Ok(string_of(&output))
}

/// Whether a text shows in a summary: neither white space nor a control character.
pub open spec fn shows(c: char) -> bool {
    !white_space(c) && !control(c)
}

/// Whether a text has no control character, and no white space but single spaces.
pub open spec fn neat(s: Seq<char>) -> bool {
    &&& forall|i: int| 0 <= i < s.len() ==> !control(#[trigger] s[i])
    &&& forall|i: int| 0 <= i < s.len() && white_space(#[trigger] s[i]) ==> s[i] == ' '
    &&& forall|i: int| 0 < i < s.len() && #[trigger] s[i] == ' ' ==> s[i - 1] != ' '
}

proof fn lemma_collapsed_neat(s: Seq<char>, out: Seq<char>, after_space: bool, maximum: nat)
    requires
        neat(out),
        out.len() < maximum,
        after_space == (out.len() > 0 && out.last() == ' '),
    ensures
        neat(collapsed(s, out, after_space, maximum)),
        collapsed(s, out, after_space, maximum).len() <= maximum,
        out.len() <= collapsed(s, out, after_space, maximum).len(),
        forall|i: int|
            0 <= i < out.len() ==> #[trigger] collapsed(s, out, after_space, maximum)[i] == out[i],
    decreases s.len(),
{
    if s.len() > 0 {
        let c = summary_char(s[0]);
        let next = if !white_space(c) {
            out.push(c)
        } else if after_space {
            out
        } else {
            out.push(' ')
        };
        assert(neat(next));
        if next.len() < maximum {
            lemma_collapsed_neat(s.drop_first(), next, white_space(c), maximum);
            let whole = collapsed(s, out, after_space, maximum);
            assert forall|i: int| 0 <= i < out.len() implies #[trigger] whole[i] == out[i] by {
                assert(next[i] == out[i]);
            }
        }
    }
}

/// Of a text that does not show nothing but spaces is left.
proof fn lemma_collapsed_blank(s: Seq<char>, out: Seq<char>, after_space: bool, maximum: nat)
    requires
        forall|i: int| 0 <= i < s.len() ==> !shows(#[trigger] s[i]),
        forall|i: int| 0 <= i < out.len() ==> white_space(#[trigger] out[i]),
    ensures
        forall|i: int|
            0 <= i < collapsed(s, out, after_space, maximum).len() ==> white_space(
                #[trigger] collapsed(s, out, after_space, maximum)[i],
            ),
    decreases s.len(),
{
    if s.len() > 0 {
        let c = summary_char(s[0]);
        assert(!shows(s[0]));
        assert(white_space(c));
        let next = if after_space {
            out
        } else {
            out.push(' ')
        };
        let rest = s.drop_first();
        assert forall|i: int| 0 <= i < rest.len() implies !shows(#[trigger] rest[i]) by {
            assert(rest[i] == s[i + 1]);
        }
        let whole = collapsed(s, out, after_space, maximum);
        if next.len() < maximum {
            lemma_collapsed_blank(rest, next, true, maximum);
            assert(whole == collapsed(rest, next, true, maximum));
        } else {
            assert(whole == next);
        }
    }
}

/// The first character that shows is within the first two of what is left.
proof fn lemma_collapsed_shows(
    s: Seq<char>,
    k: int,
    out: Seq<char>,
    after_space: bool,
    maximum: nat,
)
    requires
        maximum >= 2,
        0 <= k < s.len(),
        shows(s[k]),
        out == (if after_space {
            seq![' ']
        } else {
            Seq::<char>::empty()
        }),
    ensures
        exists|i: int|
            0 <= i < collapsed(s, out, after_space, maximum).len() && !white_space(
                #[trigger] collapsed(s, out, after_space, maximum)[i],
            ),
    decreases s.len(),
{
    let whole = collapsed(s, out, after_space, maximum);
    let c = summary_char(s[0]);
    if !white_space(c) {
        let next = out.push(c);
        assert(neat(next));
        if next.len() < maximum {
            lemma_collapsed_neat(s.drop_first(), next, false, maximum);
        }
        assert(whole[out.len() as int] == next[out.len() as int]);
    } else {
        assert(k > 0);
        let next = seq![' '];
        assert(out.push(' ') =~= next || out =~= next);
        assert(s.drop_first()[k - 1] == s[k]);
        lemma_collapsed_shows(s.drop_first(), k - 1, next, true, maximum);
        assert(whole == collapsed(s.drop_first(), next, true, maximum));
        let i = choose|i: int| 0 <= i < whole.len() && !white_space(#[trigger] whole[i]);
        assert(!white_space(whole[i]));
    }
}

/// What is neat and short enough is left as it is.
proof fn lemma_collapsed_fixed(s: Seq<char>, i: int, maximum: nat)
    requires
        neat(s),
        0 <= i <= s.len() <= maximum,
    ensures
        collapsed(s.skip(i), s.take(i), i > 0 && s[i - 1] == ' ', maximum) == s,
    decreases s.len() - i,
{
    if i == s.len() {
        assert(s.take(i) =~= s);
    } else {
        assert(s.skip(i)[0] == s[i]);
        assert(s.skip(i).drop_first() =~= s.skip(i + 1));
        assert(s.take(i).push(s[i]) =~= s.take(i + 1));
        assert(summary_char(s[i]) == s[i]);
        if i + 1 < maximum {
            lemma_collapsed_fixed(s, i + 1, maximum);
        } else {
            assert(s.take(i + 1) =~= s);
        }
    }
}

/// A summary exists for every text that shows anything. It has at most `maximum`
/// characters, none of them a control character; its only white space are single
/// spaces between other characters; and it is its own summary.
pub proof fn law_summaries_are_neat(value: Seq<char>, label: FieldLabel, maximum: nat)
    requires
        maximum >= 2,
    ensures
        summary_of(value, label, maximum) is Ok <==> exists|i: int|
            0 <= i < value.len() && shows(#[trigger] value[i]),
        summary_of(value, label, maximum) is Ok ==> {
            let s = summary_of(value, label, maximum)->Ok_0;
            &&& 0 < s.len() <= maximum
            &&& neat(s)
            &&& s[0] != ' '
            &&& s.last() != ' '
            &&& summary_of(s, label, maximum) == Ok::<Seq<char>, FleetCoordinationError>(s)
        },
{
    let t = trim(value);
    let whole = collapsed(t, Seq::empty(), false, maximum);
    let s = trim(whole);
    lemma_trim_shape(value);
    lemma_trim_shape(whole);
    lemma_collapsed_neat(t, Seq::empty(), false, maximum);
    let (a, b) = choose|a: int, b: int|
        0 <= a <= b <= whole.len() && s == #[trigger] whole.subrange(a, b);
    let (c, d) = choose|c: int, d: int|
        0 <= c <= d <= value.len() && t == #[trigger] value.subrange(c, d);
    assert forall|i: int| 0 <= i < s.len() implies #[trigger] s[i] == whole[a + i] by {}
    assert(neat(s)) by {
        assert forall|i: int| 0 < i < s.len() && #[trigger] s[i] == ' ' implies s[i - 1] != ' ' by {
            assert(whole[a + i] == ' ');
            assert(whole[a + i - 1] == s[i - 1]);
        }
    }
    if exists|i: int| 0 <= i < value.len() && shows(#[trigger] value[i]) {
        let i = choose|i: int| 0 <= i < value.len() && shows(#[trigger] value[i]);
        lemma_trim_keeps(value, i);
        let k = choose|k: int| 0 <= k < t.len() && t[k] == value[i];
        lemma_collapsed_shows(t, k, Seq::empty(), false, maximum);
        let j = choose|j: int| 0 <= j < whole.len() && !white_space(#[trigger] whole[j]);
        lemma_trim_keeps(whole, j);
    } else {
        assert forall|i: int| 0 <= i < t.len() implies !shows(#[trigger] t[i]) by {
            assert(t[i] == value[c + i]);
        }
        lemma_collapsed_blank(t, Seq::empty(), false, maximum);
        if s.len() > 0 {
            assert(white_space(whole[a]));
        }
    }
    if s.len() > 0 {
        lemma_trim_fixed(s);
        lemma_collapsed_fixed(s, 0, maximum);
        assert(s.skip(0) =~= s);
        assert(s.take(0) =~= Seq::empty());
    }
}

// ---------------------------------------------------------------------------
// Generations
// ---------------------------------------------------------------------------

/// What is wrong with the progress of a state.
pub open spec fn progress_error(state: FleetSyncState, progress: u8) -> Option<
    FleetCoordinationError,
> {
    if progress > 100 {
        Some(FleetCoordinationError::ProgressTooLarge)
    } else if state == FleetSyncState::Pending && progress != 0 {
        Some(FleetCoordinationError::PendingProgress)
    } else if state == FleetSyncState::Applying && progress >= 100 {
        Some(FleetCoordinationError::ApplyingProgress)
    } else if state == FleetSyncState::Ready && progress != 100 {
        Some(FleetCoordinationError::ReadyProgress)
    } else {
        None
    }
}

pub fn validate_sync_state(state: FleetSyncState, progress: u8) -> (r: Result<
    (),
    FleetCoordinationError,
>)
    ensures
        match progress_error(state, progress) {
            Some(error) => r == Err::<(), FleetCoordinationError>(error),
            None => r is Ok,
        },
{
    if progress > 100 {
        return Err(FleetCoordinationError::ProgressTooLarge);
    }
    match state {
        FleetSyncState::Pending => if progress != 0 {
            Err(FleetCoordinationError::PendingProgress)
        } else {
            Ok(())
        },
        FleetSyncState::Applying => if progress >= 100 {
            Err(FleetCoordinationError::ApplyingProgress)
        } else {
            Ok(())
        },
        FleetSyncState::Ready => if progress != 100 {
            Err(FleetCoordinationError::ReadyProgress)
        } else {
            Ok(())
        },
        FleetSyncState::Conflicted | FleetSyncState::Failed => Ok(()),
    }
}

/// A valid report in its stored form, or the first thing wrong with it.
pub open spec fn checked_generation(input: FleetGenerationInputModel) -> Result<
    FleetGenerationInputModel,
    FleetCoordinationError,
> {
    match identifier_of(
        input.source_instance_id,
        FieldLabel::SourceInstanceId,
        MAX_INSTANCE_ID_BYTES,
    ) {
        Err(error) => Err(error),
        Ok(source_instance_id) => match identifier_of(
            input.revision,
            FieldLabel::Revision,
            MAX_REVISION_BYTES,
        ) {
            Err(error) => Err(error),
            Ok(revision) => if input.generation > 0x7fff_ffff_ffff_ffff {
                Err(FleetCoordinationError::GenerationTooLarge)
            } else if input.resource_count > 0x7fff_ffff_ffff_ffff {
                Err(FleetCoordinationError::ResourceCountTooLarge)
            } else {
                match progress_error(input.sync_state, input.sync_progress) {
                    Some(error) => Err(error),
                    None => Ok(FleetGenerationInputModel { source_instance_id, revision, ..input }),
                }
            },
        },
    }
}

pub fn normalize_generation_input(input: FleetGenerationInput) -> (r: Result<
    FleetGenerationInput,
    FleetCoordinationError,
>)
    ensures
        match checked_generation(input@) {
            Ok(valid) => r is Ok && r->Ok_0@ == valid,
            Err(error) => r is Err && r->Err_0 == error,
        },
{
    let source_instance_id = match normalize_identifier(
        input.source_instance_id.as_str(),
        FieldLabel::SourceInstanceId,
        MAX_INSTANCE_ID_BYTES,
    ) {
        Ok(s) => s,
        Err(error) => {
            return Err(error);
        },
    };
    let revision = match normalize_identifier(
        input.revision.as_str(),
        FieldLabel::Revision,
        MAX_REVISION_BYTES,
    ) {
        Ok(s) => s,
        Err(error) => {
            return Err(error);
        },
    };
    if input.generation > 0x7fff_ffff_ffff_ffff {
        return Err(FleetCoordinationError::GenerationTooLarge);
    }
    if input.resource_count > 0x7fff_ffff_ffff_ffff {
        return Err(FleetCoordinationError::ResourceCountTooLarge);
    }
    match validate_sync_state(input.sync_state, input.sync_progress) {
        Err(error) => Err(error),
        Ok(()) => Ok(
            FleetGenerationInput {
                source_instance_id,
                generation: input.generation,
                revision,
                resource_count: input.resource_count,
                sync_state: input.sync_state,
                sync_progress: input.sync_progress,
            },
        ),
    }
}

/// Whether a generation may move from one state to another. Ready and failed
/// are final.
pub open spec fn may_follow(current: FleetSyncState, next: FleetSyncState) -> bool {
    ||| current == next
    ||| current == FleetSyncState::Pending && (next == FleetSyncState::Applying || next
        == FleetSyncState::Conflicted || next == FleetSyncState::Failed)
    ||| current == FleetSyncState::Applying && (next == FleetSyncState::Ready || next
        == FleetSyncState::Conflicted || next == FleetSyncState::Failed)
    ||| current == FleetSyncState::Conflicted && (next == FleetSyncState::Applying || next
        == FleetSyncState::Ready || next == FleetSyncState::Failed)
}

pub fn valid_state_transition(current: FleetSyncState, next: FleetSyncState) -> (r: bool)
    ensures
        r == may_follow(current, next),
{
    if current == next {
        return true;
    }
    match (current, next) {
        (FleetSyncState::Pending, FleetSyncState::Applying) => true,
        (FleetSyncState::Pending, FleetSyncState::Conflicted) => true,
        (FleetSyncState::Pending, FleetSyncState::Failed) => true,
        (FleetSyncState::Applying, FleetSyncState::Ready) => true,
        (FleetSyncState::Applying, FleetSyncState::Conflicted) => true,
        (FleetSyncState::Applying, FleetSyncState::Failed) => true,
        (FleetSyncState::Conflicted, FleetSyncState::Applying) => true,
        (FleetSyncState::Conflicted, FleetSyncState::Ready) => true,
        (FleetSyncState::Conflicted, FleetSyncState::Failed) => true,
        _ => false,
    }
}

/// The process that writes, and its fencing token.
pub struct OwnerModel {
    pub instance_id: Seq<char>,
    pub incarnation_id: Seq<char>,
    pub fencing_token: u64,
}

pub open spec fn owner_of(c: CoordinatorModel, fencing_token: u64) -> OwnerModel {
    OwnerModel { instance_id: c.instance_id, incarnation_id: c.incarnation_id, fencing_token }
}

/// Whether a session wrote a generation.
pub open spec fn written_by(g: FleetGenerationModel, owner: OwnerModel) -> bool {
    g.owner_instance_id == owner.instance_id && g.owner_incarnation_id == owner.incarnation_id
}

/// What stands in the way of a report about the generation that is current.
pub open spec fn same_generation_error(
    current: FleetGenerationModel,
    input: FleetGenerationInputModel,
    owner: OwnerModel,
) -> Option<FleetCoordinationError> {
    if input.revision != current.revision {
        Some(FleetCoordinationError::RevisionBound)
    } else if input.resource_count != current.resource_count {
        Some(FleetCoordinationError::ResourceCountBound)
    } else if input.sync_progress < current.sync_progress {
        Some(FleetCoordinationError::ProgressBackwards)
    } else if !may_follow(current.sync_state, input.sync_state) {
        Some(FleetCoordinationError::InvalidTransition)
    } else if current.fencing_token > owner.fencing_token {
        Some(FleetCoordinationError::NewerFencingToken)
    } else if current.fencing_token == owner.fencing_token && !written_by(current, owner) {
        Some(FleetCoordinationError::FencingTokenReused)
    } else {
        None
    }
}

/// The generation that a report writes.
pub open spec fn reported(
    input: FleetGenerationInputModel,
    owner: OwnerModel,
    now: u64,
) -> FleetGenerationModel {
    FleetGenerationModel {
        source_instance_id: input.source_instance_id,
        generation: input.generation,
        revision: input.revision,
        owner_instance_id: owner.instance_id,
        owner_incarnation_id: owner.incarnation_id,
        fencing_token: owner.fencing_token,
        resource_count: input.resource_count,
        sync_state: input.sync_state,
        sync_progress: input.sync_progress,
        updated_unix_seconds: now,
    }
}

/// What a report does to the generation of its source. An older generation is
/// ignored, and so is a repeated report. A report about the current generation
/// may only move it on, and a newer generation takes its place.
pub open spec fn generation_update(
    current: Option<FleetGenerationModel>,
    input: FleetGenerationInputModel,
    owner: OwnerModel,
    now: u64,
) -> Result<FleetGenerationUpdateModel, FleetCoordinationError> {
    let accepted = FleetGenerationUpdateModel {
        accepted: true,
        duplicate: false,
        generation: reported(input, owner, now),
    };
    match current {
        None => Ok(accepted),
        Some(c) => if input.generation < c.generation {
            Ok(FleetGenerationUpdateModel { accepted: false, duplicate: false, generation: c })
        } else if input.generation > c.generation {
            Ok(accepted)
        } else {
            match same_generation_error(c, input, owner) {
                Some(error) => Err(error),
                None => if c.sync_state == input.sync_state && c.sync_progress
                    == input.sync_progress && written_by(c, owner) && c.fencing_token
                    == owner.fencing_token {
                    Ok(
                        FleetGenerationUpdateModel {
                            accepted: false,
                            duplicate: true,
                            generation: c,
                        },
                    )
                } else {
                    Ok(accepted)
                },
            }
        },
    }
}

pub fn calculate_generation_update(
    current: Option<&FleetGeneration>,
    input: &FleetGenerationInput,
    coordinator: &HaCoordinator,
    fencing_token: u64,
    now: u64,
) -> (r: Result<FleetGenerationUpdate, FleetCoordinationError>)
    ensures
        match generation_update(
            match current {
                Some(c) => Some(c@),
                None => None,
            },
            input@,
            owner_of(coordinator@, fencing_token),
            now,
        ) {
            Ok(update) => r is Ok && r->Ok_0@ == update,
            Err(error) => r is Err && r->Err_0 == error,
        },
{
    if let Some(c) = current {
        if input.generation < c.generation {
            return Ok(
                FleetGenerationUpdate {
                    accepted: false,
                    duplicate: false,
                    generation: c.duplicate(),
                },
            );
        }
        if input.generation == c.generation {
            if input.revision != c.revision {
                return Err(FleetCoordinationError::RevisionBound);
            }
            if input.resource_count != c.resource_count {
                return Err(FleetCoordinationError::ResourceCountBound);
            }
            if input.sync_progress < c.sync_progress {
                return Err(FleetCoordinationError::ProgressBackwards);
            }
            if !valid_state_transition(c.sync_state, input.sync_state) {
                return Err(FleetCoordinationError::InvalidTransition);
            }
            if c.fencing_token > fencing_token {
                return Err(FleetCoordinationError::NewerFencingToken);
            }
            let same_owner = c.owner_instance_id == coordinator.instance_id && c.owner_incarnation_id
                == coordinator.incarnation_id;
            if c.fencing_token == fencing_token && !same_owner {
                return Err(FleetCoordinationError::FencingTokenReused);
            }
            if c.sync_state == input.sync_state && c.sync_progress == input.sync_progress
                && same_owner && c.fencing_token == fencing_token {
                return Ok(
                    FleetGenerationUpdate {
                        accepted: false,
                        duplicate: true,
                        generation: c.duplicate(),
                    },
                );
            }
        }
    }
    Ok(
        FleetGenerationUpdate {
            accepted: true,
            duplicate: false,
            generation: FleetGeneration {
                source_instance_id: input.source_instance_id.clone(),
                generation: input.generation,
                revision: input.revision.clone(),
                owner_instance_id: coordinator.instance_id.clone(),
                owner_incarnation_id: coordinator.incarnation_id.clone(),
                fencing_token,
                resource_count: input.resource_count,
                sync_state: input.sync_state,
                sync_progress: input.sync_progress,
                updated_unix_seconds: now,
            },
        },
    )
}

// ---------------------------------------------------------------------------
// Conflicts
// ---------------------------------------------------------------------------

/// A valid report in its stored form, or the first thing wrong with it.
pub open spec fn checked_conflict(input: FleetConflictInputModel) -> Result<
    FleetConflictInputModel,
    FleetCoordinationError,
> {
    if input.conflict_id == 0 {
        Err(FleetCoordinationError::NilConflictId)
    } else {
        match identifier_of(
            input.source_instance_id,
            FieldLabel::SourceInstanceId,
            MAX_INSTANCE_ID_BYTES,
        ) {
            Err(error) => Err(error),
            Ok(source_instance_id) => match identifier_of(
                input.resource_kind,
                FieldLabel::ResourceKind,
                MAX_RESOURCE_KIND_BYTES,
            ) {
                Err(error) => Err(error),
                Ok(resource_kind) => match identifier_of(
                    input.resource_id,
                    FieldLabel::ResourceId,
                    MAX_RESOURCE_ID_BYTES,
                ) {
                    Err(error) => Err(error),
                    Ok(resource_id) => match checked_owner(input.owner_instance_id) {
                        Err(error) => Err(error),
                        Ok(owner_instance_id) => match identifier_of(
                            input.conflict_code,
                            FieldLabel::ConflictCode,
                            MAX_CONFLICT_CODE_BYTES,
                        ) {
                            Err(error) => Err(error),
                            Ok(conflict_code) => match summary_of(
                                input.detail_summary,
                                FieldLabel::ConflictDetail,
                                MAX_DETAIL_SUMMARY_CHARS as nat,
                            ) {
                                Err(error) => Err(error),
                                Ok(detail_summary) => if input.generation > 0x7fff_ffff_ffff_ffff {
                                    Err(FleetCoordinationError::GenerationTooLarge)
                                } else {
                                    Ok(
                                        FleetConflictInputModel {
                                            source_instance_id,
                                            resource_kind,
                                            resource_id,
                                            owner_instance_id,
                                            conflict_code,
                                            detail_summary,
                                            ..input
                                        },
                                    )
                                },
                            },
                        },
                    },
                },
            },
        }
    }
}

/// The owner of a resource, where a report names one.
pub open spec fn checked_owner(owner: Option<Seq<char>>) -> Result<
    Option<Seq<char>>,
    FleetCoordinationError,
> {
    match owner {
        None => Ok(None),
        Some(value) => match identifier_of(
            value,
            FieldLabel::ResourceOwner,
            MAX_INSTANCE_ID_BYTES,
        ) {
            Ok(s) => Ok(Some(s)),
            Err(error) => Err(error),
        },
    }
}

pub fn normalize_conflict_input(input: FleetConflictInput) -> (r: Result<
    FleetConflictInput,
    FleetCoordinationError,
>)
    ensures
        match checked_conflict(input@) {
            Ok(valid) => r is Ok && r->Ok_0@ == valid,
            Err(error) => r is Err && r->Err_0 == error,
        },
{
    if input.conflict_id == 0 {
        return Err(FleetCoordinationError::NilConflictId);
    }
    let source_instance_id = match normalize_identifier(
        input.source_instance_id.as_str(),
        FieldLabel::SourceInstanceId,
        MAX_INSTANCE_ID_BYTES,
    ) {
        Ok(s) => s,
        Err(error) => {
            return Err(error);
        },
    };
    let resource_kind = match normalize_identifier(
        input.resource_kind.as_str(),
        FieldLabel::ResourceKind,
        MAX_RESOURCE_KIND_BYTES,
    ) {
        Ok(s) => s,
        Err(error) => {
            return Err(error);
        },
    };
    let resource_id = match normalize_identifier(
        input.resource_id.as_str(),
        FieldLabel::ResourceId,
        MAX_RESOURCE_ID_BYTES,
    ) {
        Ok(s) => s,
        Err(error) => {
            return Err(error);
        },
    };
    let owner_instance_id = match &input.owner_instance_id {
        None => None,
        Some(value) => match normalize_identifier(
            value.as_str(),
            FieldLabel::ResourceOwner,
            MAX_INSTANCE_ID_BYTES,
        ) {
            Ok(s) => Some(s),
            Err(error) => {
                return Err(error);
            },
        },
    };
    let conflict_code = match normalize_identifier(
        input.conflict_code.as_str(),
        FieldLabel::ConflictCode,
        MAX_CONFLICT_CODE_BYTES,
    ) {
        Ok(s) => s,
        Err(error) => {
            return Err(error);
        },
    };
    let detail_summary = match normalize_summary(
        input.detail_summary.as_str(),
        FieldLabel::ConflictDetail,
        MAX_DETAIL_SUMMARY_CHARS,
    ) {
        Ok(s) => s,
        Err(error) => {
            return Err(error);
        },
    };
    if input.generation > 0x7fff_ffff_ffff_ffff {
        return Err(FleetCoordinationError::GenerationTooLarge);
    }
    Ok(
        FleetConflictInput {
            conflict_id: input.conflict_id,
            source_instance_id,
            generation: input.generation,
            resource_kind,
            resource_id,
            owner_instance_id,
            conflict_code,
            detail_summary,
        },
    )
}

/// A conflict that was just reported.
pub open spec fn opened_conflict(input: FleetConflictInputModel, now: u64) -> FleetConflictModel {
    FleetConflictModel {
        conflict_id: input.conflict_id,
        source_instance_id: input.source_instance_id,
        generation: input.generation,
        resource_kind: input.resource_kind,
        resource_id: input.resource_id,
        owner_instance_id: input.owner_instance_id,
        conflict_code: input.conflict_code,
        detail_summary: input.detail_summary,
        state: FleetConflictState::Open,
        detected_unix_seconds: now,
        resolved_unix_seconds: None,
        resolution: None,
    }
}

pub fn new_conflict(input: FleetConflictInput, now: u64) -> (r: FleetConflict)
    ensures
        r@ == opened_conflict(input@, now),
{
    FleetConflict {
        conflict_id: input.conflict_id,
        source_instance_id: input.source_instance_id,
        generation: input.generation,
        resource_kind: input.resource_kind,
        resource_id: input.resource_id,
        owner_instance_id: input.owner_instance_id,
        conflict_code: input.conflict_code,
        detail_summary: input.detail_summary,
        state: FleetConflictState::Open,
        detected_unix_seconds: now,
        resolved_unix_seconds: None,
        resolution: None,
    }
}

/// Whether a report is about a recorded conflict.
pub open spec fn same_conflict(c: FleetConflictModel, input: FleetConflictInputModel) -> bool {
    c.source_instance_id == input.source_instance_id && c.generation == input.generation
        && c.resource_kind == input.resource_kind && c.resource_id == input.resource_id
        && c.owner_instance_id == input.owner_instance_id && c.conflict_code == input.conflict_code
        && c.detail_summary == input.detail_summary
}

pub fn is_same_conflict(c: &FleetConflict, input: &FleetConflictInput) -> (r: bool)
    ensures
        r == same_conflict(c@, input@),
{
    c.source_instance_id == input.source_instance_id && c.generation == input.generation
        && c.resource_kind == input.resource_kind && c.resource_id == input.resource_id
        && same_optional(&c.owner_instance_id, &input.owner_instance_id) && c.conflict_code
        == input.conflict_code && c.detail_summary == input.detail_summary
}

// ---------------------------------------------------------------------------
// The ledger
// ---------------------------------------------------------------------------

pub open spec fn generation_models(v: Seq<FleetGeneration>) -> Seq<FleetGenerationModel> {
    v.map_values(|x: FleetGeneration| x@)
}

pub open spec fn conflict_models(v: Seq<FleetConflict>) -> Seq<FleetConflictModel> {
    v.map_values(|x: FleetConflict| x@)
}

pub open spec fn conflict_ids(s: Seq<FleetConflictModel>) -> Seq<u128> {
    s.map_values(|x: FleetConflictModel| x.conflict_id)
}

/// The position of the generation of a source, or the length of the list where
/// there is none.
pub open spec fn source_position(s: Seq<FleetGenerationModel>, source: Seq<char>) -> int
    decreases s.len(),
{
    if s.len() == 0 || s[0].source_instance_id == source {
        0
    } else {
        1 + source_position(s.drop_first(), source)
    }
}

pub open spec fn find_generation(s: Seq<FleetGenerationModel>, source: Seq<char>) -> Option<
    FleetGenerationModel,
> {
    let i = source_position(s, source);
    if 0 <= i < s.len() {
        Some(s[i])
    } else {
        None
    }
}

pub open spec fn find_conflict(s: Seq<FleetConflictModel>, id: u128) -> Option<FleetConflictModel> {
    let i = first_id(conflict_ids(s), id);
    if i < s.len() {
        Some(s[i])
    } else {
        None
    }
}

/// The list with the generation of its source written.
pub open spec fn with_generation(s: Seq<FleetGenerationModel>, g: FleetGenerationModel) -> Seq<
    FleetGenerationModel,
> {
    let i = source_position(s, g.source_instance_id);
    if 0 <= i < s.len() {
        s.update(i, g)
    } else {
        s.push(g)
    }
}

/// Whether a generation has an open conflict.
pub open spec fn has_open_conflict(
    s: Seq<FleetConflictModel>,
    source: Seq<char>,
    generation: u64,
) -> bool {
    exists|i: int|
        0 <= i < s.len() && (#[trigger] s[i]).source_instance_id == source && s[i].generation
            == generation && s[i].state == FleetConflictState::Open
}

pub struct LedgerModel {
    pub generations: Seq<FleetGenerationModel>,
    pub conflicts: Seq<FleetConflictModel>,
}

/// Recording a report about a generation. A generation with an open conflict
/// does not become ready.
pub open spec fn generation_recorded(
    l: LedgerModel,
    t: LeasesModel,
    c: CoordinatorModel,
    input: FleetGenerationInputModel,
    fencing_token: u64,
    now: u64,
) -> Result<(LedgerModel, FleetGenerationUpdateModel), FleetCoordinationError> {
    match checked_generation(input) {
        Err(error) => Err(error),
        Ok(valid) => match fence_error(t, c, fencing_token, now) {
            Some(error) => Err(FleetCoordinationError::Fence(error)),
            None => match generation_update(
                find_generation(l.generations, valid.source_instance_id),
                valid,
                owner_of(c, fencing_token),
                now,
            ) {
                Err(error) => Err(error),
                Ok(update) => if !update.accepted {
                    Ok((l, update))
                } else if valid.sync_state == FleetSyncState::Ready && has_open_conflict(
                    l.conflicts,
                    valid.source_instance_id,
                    valid.generation,
                ) {
                    Err(FleetCoordinationError::OpenConflicts)
                } else {
                    Ok(
                        (
                            LedgerModel {
                                generations: with_generation(l.generations, update.generation),
                                ..l
                            },
                            update,
                        ),
                    )
                },
            }
        },
    }
}

/// A generation in which a conflict was found.
pub open spec fn marked_conflicted(g: FleetGenerationModel, owner: OwnerModel, now: u64) -> FleetGenerationModel {
    FleetGenerationModel {
        sync_state: FleetSyncState::Conflicted,
        owner_instance_id: owner.instance_id,
        owner_incarnation_id: owner.incarnation_id,
        fencing_token: owner.fencing_token,
        updated_unix_seconds: now,
        ..g
    }
}

/// Recording a conflict of the current generation of its source. A conflict
/// that is recorded already changes nothing.
pub open spec fn conflict_recorded(
    l: LedgerModel,
    t: LeasesModel,
    c: CoordinatorModel,
    input: FleetConflictInputModel,
    fencing_token: u64,
    now: u64,
) -> Result<(LedgerModel, FleetConflictWriteModel), FleetCoordinationError> {
    match checked_conflict(input) {
        Err(error) => Err(error),
        Ok(valid) => match fence_error(t, c, fencing_token, now) {
            Some(error) => Err(FleetCoordinationError::Fence(error)),
            None => match find_generation(l.generations, valid.source_instance_id) {
                None => Err(FleetCoordinationError::GenerationMissing),
                Some(g) => if g.generation != valid.generation {
                    Err(FleetCoordinationError::StaleGeneration)
                } else {
                    match find_conflict(l.conflicts, valid.conflict_id) {
                        Some(c) => if same_conflict(c, valid) {
                            Ok((l, FleetConflictWriteModel { duplicate: true, conflict: c }))
                        } else {
                            Err(FleetCoordinationError::ConflictBound)
                        },
                        None => Ok(
                            (
                                LedgerModel {
                                    generations: with_generation(
                                        l.generations,
                                        marked_conflicted(g, owner_of(c, fencing_token), now),
                                    ),
                                    conflicts: l.conflicts.push(opened_conflict(valid, now)),
                                },
                                FleetConflictWriteModel {
                                    duplicate: false,
                                    conflict: opened_conflict(valid, now),
                                },
                            ),
                        ),
                    }
                },
            }
        },
    }
}

/// Resolving a conflict. A conflict is resolved once; resolving it again with
/// the same resolution changes nothing.
pub open spec fn conflict_resolved(
    l: LedgerModel,
    t: LeasesModel,
    c: CoordinatorModel,
    id: u128,
    resolution: Seq<char>,
    fencing_token: u64,
    now: u64,
) -> Result<(LedgerModel, Option<FleetConflictWriteModel>), FleetCoordinationError> {
    match summary_of(
        resolution,
        FieldLabel::ConflictResolution,
        MAX_RESOLUTION_CHARS as nat,
    ) {
        Err(error) => Err(error),
        Ok(text) => match fence_error(t, c, fencing_token, now) {
            Some(error) => Err(FleetCoordinationError::Fence(error)),
            None => match find_conflict(l.conflicts, id) {
                None => Ok((l, None)),
                Some(c) => if c.state == FleetConflictState::Resolved {
                    if c.resolution == Some(text) {
                        Ok((l, Some(FleetConflictWriteModel { duplicate: true, conflict: c })))
                    } else {
                        Err(FleetCoordinationError::DifferentResolution)
                    }
                } else {
                    let resolved = FleetConflictModel {
                        state: FleetConflictState::Resolved,
                        resolved_unix_seconds: Some(now),
                        resolution: Some(text),
                        ..c
                    };
                    Ok(
                        (
                            LedgerModel {
                                conflicts: l.conflicts.update(
                                    first_id(conflict_ids(l.conflicts), id),
                                    resolved,
                                ),
                                ..l
                            },
                            Some(
                                FleetConflictWriteModel { duplicate: false, conflict: resolved },
                            ),
                        ),
                    )
                },
            }
        },
    }
}

/// Whether a conflict is listed for a wish.
pub open spec fn wanted_conflict(
    c: FleetConflictModel,
    source: Option<Seq<char>>,
    state: Option<FleetConflictState>,
) -> bool {
    (source is None || source == Some(c.source_instance_id)) && (state is None || state == Some(
        c.state,
    ))
}

/// Conflicts are listed from the latest on, those of the same time by their
/// identifiers.
pub open spec fn conflict_before(a: FleetConflictModel, b: FleetConflictModel) -> bool {
    a.detected_unix_seconds > b.detected_unix_seconds || a.detected_unix_seconds
        == b.detected_unix_seconds && a.conflict_id < b.conflict_id
}

/// Where a conflict goes in a list.
pub open spec fn conflict_position(s: Seq<FleetConflictModel>, c: FleetConflictModel) -> int
    decreases s.len(),
{
    if s.len() == 0 || conflict_before(c, s[0]) {
        0
    } else {
        1 + conflict_position(s.drop_first(), c)
    }
}

/// The wanted conflicts in the order in which they are listed.
pub open spec fn listed_conflicts(
    s: Seq<FleetConflictModel>,
    source: Option<Seq<char>>,
    state: Option<FleetConflictState>,
) -> Seq<FleetConflictModel>
    decreases s.len(),
{
    if s.len() == 0 {
        s
    } else {
        let rest = listed_conflicts(s.drop_last(), source, state);
        if wanted_conflict(s.last(), source, state) {
            rest.insert(conflict_position(rest, s.last()), s.last())
        } else {
            rest
        }
    }
}

/// Where a generation goes in a list ordered by sources.
pub open spec fn listing_position(s: Seq<FleetGenerationModel>, g: FleetGenerationModel) -> int
    decreases s.len(),
{
    if s.len() == 0 || lex_less(g.source_instance_id, s[0].source_instance_id) {
        0
    } else {
        1 + listing_position(s.drop_first(), g)
    }
}

/// The generations in the order of their sources.
pub open spec fn listed_generations(s: Seq<FleetGenerationModel>) -> Seq<FleetGenerationModel>
    decreases s.len(),
{
    if s.len() == 0 {
        s
    } else {
        let rest = listed_generations(s.drop_last());
        rest.insert(listing_position(rest, s.last()), s.last())
    }
}

fn generation_position(v: &Vec<FleetGeneration>, source: &str) -> (r: Option<usize>)
    ensures
        match r {
            Some(i) => i < v@.len() && i == source_position(generation_models(v@), source@),
            None => source_position(generation_models(v@), source@) == v@.len(),
        },
{
    let ghost s = generation_models(v@);
    let mut i: usize = 0;
    assert(s.skip(0) =~= s);
    while i < v.len()
        invariant
            i <= v@.len(),
            s == generation_models(v@),
            source_position(s, source@) == i + source_position(s.skip(i as int), source@),
        decreases v@.len() - i,
    {
        assert(s.skip(i as int)[0] == v@[i as int]@);
        assert(s.skip(i as int).drop_first() =~= s.skip(i + 1));
        if same_text(v[i].source_instance_id.as_str(), source) {
            return Some(i);
        }
        i = i + 1;
    }
    None
}

fn conflict_index(v: &Vec<FleetConflict>, id: u128) -> (r: Option<usize>)
    ensures
        match r {
            Some(i) => i < v@.len() && i == first_id(conflict_ids(conflict_models(v@)), id),
            None => first_id(conflict_ids(conflict_models(v@)), id) == v@.len(),
        },
{
    let ghost ids = conflict_ids(conflict_models(v@));
    assert(ids.len() == v@.len());
    assert(forall|j: int| 0 <= j < v@.len() ==> ids[j] == v@[j].conflict_id);
    let mut i: usize = 0;
    while i < v.len()
        invariant
            i <= v@.len(),
            ids == conflict_ids(conflict_models(v@)),
            ids.len() == v@.len(),
            forall|j: int| 0 <= j < v@.len() ==> ids[j] == v@[j].conflict_id,
            forall|j: int| 0 <= j < i ==> ids[j] != id,
        decreases v@.len() - i,
    {
        if v[i].conflict_id == id {
            proof {
                lemma_first_id_unique(ids, id, i as int);
            }
            return Some(i);
        }
        i = i + 1;
    }
    proof {
        lemma_first_id_unique(ids, id, v@.len() as int);
    }
    None
}

/// The generations and conflicts of a fleet.
#[derive(Debug)]
pub struct FleetCoordination {
    pub generations: Vec<FleetGeneration>,
    pub conflicts: Vec<FleetConflict>,
}

impl View for FleetCoordination {
    type V = LedgerModel;

    open spec fn view(&self) -> LedgerModel {
        LedgerModel {
            generations: generation_models(self.generations@),
            conflicts: conflict_models(self.conflicts@),
        }
    }
}

impl FleetCoordination {
    /// An empty ledger.
    pub fn open() -> (r: Self)
        ensures
            r@ == (LedgerModel { generations: Seq::empty(), conflicts: Seq::empty() }),
    {
        let r = FleetCoordination { generations: Vec::new(), conflicts: Vec::new() };
        assert(r@.generations =~= Seq::empty());
        assert(r@.conflicts =~= Seq::empty());
        r
    }

    fn write_generation(&mut self, g: FleetGeneration)
        ensures
            final(self)@ == (LedgerModel {
                generations: with_generation(old(self)@.generations, g@),
                ..old(self)@
            }),
    {
        let ghost before = self.generations@;
        let ghost gm = g@;
        match generation_position(&self.generations, g.source_instance_id.as_str()) {
            Some(i) => {
                self.generations.set(i, g);
                assert(generation_models(self.generations@) =~= generation_models(before).update(
                    i as int,
                    gm,
                ));
            },
            None => {
                self.generations.push(g);
                assert(generation_models(self.generations@) =~= generation_models(before).push(
                    gm,
                ));
            },
        }
    }

    fn has_open(&self, source: &str, generation: u64) -> (r: bool)
        ensures
            r == has_open_conflict(self@.conflicts, source@, generation),
    {
        let ghost s = self@.conflicts;
        let mut i: usize = 0;
        while i < self.conflicts.len()
            invariant
                i <= self.conflicts@.len(),
                s == self@.conflicts,
                forall|j: int|
                    0 <= j < i ==> !((#[trigger] s[j]).source_instance_id == source@
                        && s[j].generation == generation && s[j].state
                        == FleetConflictState::Open),
            decreases self.conflicts@.len() - i,
        {
            assert(s[i as int] == self.conflicts@[i as int]@);
            if same_text(self.conflicts[i].source_instance_id.as_str(), source)
                && self.conflicts[i].generation == generation && self.conflicts[i].state
                == FleetConflictState::Open {
                return true;
            }
            i = i + 1;
        }
        false
    }

    /// Records a report about a generation.
    pub fn record_generation(
        &mut self,
        leases: &HaLeases,
        coordinator: &HaCoordinator,
        input: FleetGenerationInput,
        fencing_token: u64,
        now: u64,
    ) -> (r:
        Result<FleetGenerationUpdate, FleetCoordinationError>)
        ensures
            match generation_recorded(
                old(self)@,
                leases@,
                coordinator@,
                input@,
                fencing_token,
                now,
            ) {
                Ok((after, update)) => r is Ok && r->Ok_0@ == update && final(self)@ == after,
                Err(error) => r is Err && r->Err_0 == error && final(self)@ == old(self)@,
            },
    {
        let valid = match normalize_generation_input(input) {
            Ok(valid) => valid,
            Err(error) => {
                return Err(error);
            },
        };
        if let Err(error) = coordinator.assert_transaction_fence(leases, fencing_token, now) {
            return Err(FleetCoordinationError::Fence(error));
        }
        let position = generation_position(&self.generations, valid.source_instance_id.as_str());
        let update = match position {
            Some(i) => {
                assert(self@.generations[i as int] == self.generations@[i as int]@);
                calculate_generation_update(Some(&self.generations[i]), &valid, coordinator, fencing_token, now)
            },
            None => calculate_generation_update(None, &valid, coordinator, fencing_token, now),
        };
        let update = match update {
            Ok(update) => update,
            Err(error) => {
                return Err(error);
            },
        };
        if update.accepted {
            if valid.sync_state == FleetSyncState::Ready && self.has_open(
                valid.source_instance_id.as_str(),
                valid.generation,
            ) {
                return Err(FleetCoordinationError::OpenConflicts);
            }
            let copy = update.generation.duplicate();
            self.write_generation(copy);
        }
        Ok(update)
    }

    /// Records a conflict.
    pub fn record_conflict(
        &mut self,
        leases: &HaLeases,
        coordinator: &HaCoordinator,
        input: FleetConflictInput,
        fencing_token: u64,
        now: u64,
    ) -> (r:
        Result<FleetConflictWrite, FleetCoordinationError>)
        ensures
            match conflict_recorded(
                old(self)@,
                leases@,
                coordinator@,
                input@,
                fencing_token,
                now,
            ) {
                Ok((after, write)) => r is Ok && r->Ok_0@ == write && final(self)@ == after,
                Err(error) => r is Err && r->Err_0 == error && final(self)@ == old(self)@,
            },
    {
        let valid = match normalize_conflict_input(input) {
            Ok(valid) => valid,
            Err(error) => {
                return Err(error);
            },
        };
        if let Err(error) = coordinator.assert_transaction_fence(leases, fencing_token, now) {
            return Err(FleetCoordinationError::Fence(error));
        }
        let g: usize = match generation_position(
            &self.generations,
            valid.source_instance_id.as_str(),
        ) {
            Some(g) => g,
            None => {
                return Err(FleetCoordinationError::GenerationMissing);
            },
        };
        assert(self@.generations[g as int] == self.generations@[g as int]@);
        if self.generations[g].generation != valid.generation {
            return Err(FleetCoordinationError::StaleGeneration);
        }
        if let Some(i) = conflict_index(&self.conflicts, valid.conflict_id) {
            assert(self@.conflicts[i as int] == self.conflicts@[i as int]@);
            if !is_same_conflict(&self.conflicts[i], &valid) {
                return Err(FleetCoordinationError::ConflictBound);
            }
            return Ok(
                FleetConflictWrite { duplicate: true, conflict: self.conflicts[i].duplicate() },
            );
        }
        let mut marked = self.generations[g].duplicate();
        marked.sync_state = FleetSyncState::Conflicted;
        marked.owner_instance_id = coordinator.instance_id.clone();
        marked.owner_incarnation_id = coordinator.incarnation_id.clone();
        marked.fencing_token = fencing_token;
        marked.updated_unix_seconds = now;
        self.write_generation(marked);
        let conflict = new_conflict(valid, now);
        let copy = conflict.duplicate();
        let ghost before = self.conflicts@;
        let ghost cm = conflict@;
        self.conflicts.push(conflict);
        assert(conflict_models(self.conflicts@) =~= conflict_models(before).push(cm));
        Ok(FleetConflictWrite { duplicate: false, conflict: copy })
    }

    /// Resolves a conflict.
    pub fn resolve_conflict(
        &mut self,
        leases: &HaLeases,
        coordinator: &HaCoordinator,
        conflict_id: u128,
        resolution: &str,
        fencing_token: u64,
        now: u64,
    ) -> (r: Result<Option<FleetConflictWrite>, FleetCoordinationError>)
        ensures
            match conflict_resolved(
                old(self)@,
                leases@,
                coordinator@,
                conflict_id,
                resolution@,
                fencing_token,
                now,
            ) {
                Ok((after, write)) => r is Ok && final(self)@ == after && match r->Ok_0 {
                    Some(x) => write == Some(x@),
                    None => write is None,
                },
                Err(error) => r is Err && r->Err_0 == error && final(self)@ == old(self)@,
            },
    {
        let text = match normalize_summary(
            resolution,
            FieldLabel::ConflictResolution,
            MAX_RESOLUTION_CHARS,
        ) {
            Ok(text) => text,
            Err(error) => {
                return Err(error);
            },
        };
        if let Err(error) = coordinator.assert_transaction_fence(leases, fencing_token, now) {
            return Err(FleetCoordinationError::Fence(error));
        }
        let i: usize = match conflict_index(&self.conflicts, conflict_id) {
            Some(i) => i,
            None => {
                return Ok(None);
            },
        };
        assert(self@.conflicts[i as int] == self.conflicts@[i as int]@);
        let mut conflict = self.conflicts[i].duplicate();
        if conflict.state == FleetConflictState::Resolved {
            if !optional_is(&conflict.resolution, text.as_str()) {
                return Err(FleetCoordinationError::DifferentResolution);
            }
            return Ok(Some(FleetConflictWrite { duplicate: true, conflict }));
        }
        conflict.state = FleetConflictState::Resolved;
        conflict.resolved_unix_seconds = Some(now);
        conflict.resolution = Some(text);
        let copy = conflict.duplicate();
        let ghost before = self.conflicts@;
        self.conflicts.set(i, conflict);
        assert(conflict_models(self.conflicts@) =~= conflict_models(before).update(
            i as int,
            copy@,
        ));
        Ok(Some(FleetConflictWrite { duplicate: false, conflict: copy }))
    }

    /// The generations in the order of their sources.
    pub fn generations(&self) -> (r: Vec<FleetGeneration>)
        ensures
            generation_models(r@) == listed_generations(self@.generations),
    {
        let ghost s = self@.generations;
        let mut out: Vec<FleetGeneration> = Vec::new();
        let mut i: usize = 0;
        assert(generation_models(out@) =~= listed_generations(s.take(0)));
        while i < self.generations.len()
            invariant
                i <= self.generations@.len(),
                s == self@.generations,
                generation_models(out@) == listed_generations(s.take(i as int)),
            decreases self.generations@.len() - i,
        {
            let g = &self.generations[i];
            assert(s.take(i + 1).drop_last() =~= s.take(i as int));
            assert(s.take(i + 1).last() == g@);
            let ghost models = generation_models(out@);
            let mut at: usize = 0;
            assert(models.skip(0) =~= models);
            while at < out.len() && !text_before(
                g.source_instance_id.as_str(),
                out[at].source_instance_id.as_str(),
            )
                invariant
                    at <= out@.len(),
                    models == generation_models(out@),
                    listing_position(models, g@) == at + listing_position(
                        models.skip(at as int),
                        g@,
                    ),
                decreases out@.len() - at,
            {
                assert(models.skip(at as int)[0] == out@[at as int]@);
                assert(models.skip(at as int).drop_first() =~= models.skip(at + 1));
                at = at + 1;
            }
            proof {
                if at < out@.len() {
                    assert(models.skip(at as int)[0] == out@[at as int]@);
                }
            }
            let copy = g.duplicate();
            let ghost before = out@;
            out.insert(at, copy);
            assert(generation_models(out@) =~= generation_models(before).insert(at as int, g@));
            i = i + 1;
        }
        assert(s.take(s.len() as int) =~= s);
        out
    }

    /// The conflicts of a source, or of all, in a state, or in any.
    #[verifier::rlimit(40)]
    pub fn conflicts(&self, source_instance_id: Option<&str>, state: Option<FleetConflictState>) -> (r:
        Result<Vec<FleetConflict>, FleetCoordinationError>)
        ensures
            match source_instance_id {
                Some(value) => match identifier_of(
                    value@,
                    FieldLabel::SourceInstanceId,
                    MAX_INSTANCE_ID_BYTES,
                ) {
                    Ok(source) => r is Ok && conflict_models(r->Ok_0@) == listed_conflicts(
                        self@.conflicts,
                        Some(source),
                        state,
                    ),
                    Err(error) => r is Err && r->Err_0 == error,
                },
                None => r is Ok && conflict_models(r->Ok_0@) == listed_conflicts(
                    self@.conflicts,
                    None,
                    state,
                ),
            },
    {
        let source: Option<String> = match source_instance_id {
            Some(value) => match normalize_identifier(
                value,
                FieldLabel::SourceInstanceId,
                MAX_INSTANCE_ID_BYTES,
            ) {
                Ok(source) => Some(source),
                Err(error) => {
                    return Err(error);
                },
            },
            None => None,
        };
        let ghost wanted = opt_view(source);
        let ghost s = self@.conflicts;
        let mut out: Vec<FleetConflict> = Vec::new();
        let mut i: usize = 0;
        assert(conflict_models(out@) =~= listed_conflicts(s.take(0), wanted, state));
        while i < self.conflicts.len()
            invariant
                i <= self.conflicts@.len(),
                s == self@.conflicts,
                wanted == opt_view(source),
                conflict_models(out@) == listed_conflicts(s.take(i as int), wanted, state),
            decreases self.conflicts@.len() - i,
        {
            let c = &self.conflicts[i];
            proof {
                assert(s.take(i + 1).drop_last() =~= s.take(i as int));
                assert(s.take(i + 1).last() == c@);
            }
            let source_fits = match &source {
                Some(value) => c.source_instance_id == *value,
                None => true,
            };
            let state_fits = match state {
                Some(value) => c.state == value,
                None => true,
            };
            if source_fits && state_fits {
                let ghost models = conflict_models(out@);
                let mut at: usize = 0;
                assert(models.skip(0) =~= models);
                while at < out.len() && !(c.detected_unix_seconds > out[at].detected_unix_seconds
                    || (c.detected_unix_seconds == out[at].detected_unix_seconds && c.conflict_id
                    < out[at].conflict_id))
                    invariant
                        at <= out@.len(),
                        models == conflict_models(out@),
                        conflict_position(models, c@) == at + conflict_position(
                            models.skip(at as int),
                            c@,
                        ),
                    decreases out@.len() - at,
                {
                    assert(models.skip(at as int)[0] == out@[at as int]@);
                    assert(models.skip(at as int).drop_first() =~= models.skip(at + 1));
                    at = at + 1;
                }
                proof {
                    if at < out@.len() {
                        assert(models.skip(at as int)[0] == out@[at as int]@);
                    }
                }
                let copy = c.duplicate();
                let ghost before = out@;
                out.insert(at, copy);
                assert(conflict_models(out@) =~= conflict_models(before).insert(at as int, c@));
            }
            i = i + 1;
        }
        assert(s.take(s.len() as int) =~= s);
        Ok(out)
    }
}

// ---------------------------------------------------------------------------
// Laws
// ---------------------------------------------------------------------------

proof fn lemma_source_position(s: Seq<FleetGenerationModel>, source: Seq<char>)
    ensures
        0 <= source_position(s, source) <= s.len(),
        source_position(s, source) < s.len() ==> s[source_position(s, source)].source_instance_id
            == source,
        forall|j: int|
            0 <= j < source_position(s, source) ==> (#[trigger] s[j]).source_instance_id != source,
    decreases s.len(),
{
    if s.len() > 0 && s[0].source_instance_id != source {
        let t = s.drop_first();
        lemma_source_position(t, source);
        assert forall|j: int| 0 <= j < source_position(s, source) implies (
        #[trigger] s[j]).source_instance_id != source by {
            if j > 0 {
                assert(t[j - 1] == s[j]);
            }
        }
        if source_position(s, source) < s.len() {
            assert(s[source_position(s, source)] == t[source_position(t, source)]);
        }
    }
}

proof fn lemma_source_position_unique(s: Seq<FleetGenerationModel>, source: Seq<char>, i: int)
    requires
        0 <= i <= s.len(),
        i < s.len() ==> s[i].source_instance_id == source,
        forall|j: int| 0 <= j < i ==> (#[trigger] s[j]).source_instance_id != source,
    ensures
        source_position(s, source) == i,
{
    lemma_source_position(s, source);
    let k = source_position(s, source);
    if k < i {
        assert(s[k].source_instance_id != source);
    } else if i < k {
        assert(s[i].source_instance_id != source);
    }
}

proof fn lemma_with_generation(s: Seq<FleetGenerationModel>, g: FleetGenerationModel, other: Seq<char>)
    ensures
        find_generation(with_generation(s, g), other) == if other == g.source_instance_id {
            Some(g)
        } else {
            find_generation(s, other)
        },
{
    let t = with_generation(s, g);
    let i = source_position(s, g.source_instance_id);
    lemma_source_position(s, g.source_instance_id);
    lemma_source_position(s, other);
    let k = source_position(s, other);
    if other == g.source_instance_id {
        lemma_source_position_unique(t, other, i);
    } else if k < s.len() {
        assert forall|j: int| 0 <= j < k implies (#[trigger] t[j]).source_instance_id != other by {
            if j != i {
                assert(t[j] == s[j]);
            }
        }
        assert(t[k] == s[k]);
        lemma_source_position_unique(t, other, k);
    } else {
        assert forall|j: int| 0 <= j < t.len() implies (#[trigger] t[j]).source_instance_id
            != other by {
            if j < s.len() && j != i {
                assert(t[j] == s[j]);
            }
        }
        lemma_source_position_unique(t, other, t.len() as int);
    }
}

/// The generation of a source never goes back, and within a generation neither
/// does its progress nor its fencing token.
pub proof fn law_generations_only_move_on(
    l: LedgerModel,
    t: LeasesModel,
    c: CoordinatorModel,
    input: FleetGenerationInputModel,
    fencing_token: u64,
    now: u64,
    source: Seq<char>,
)
    requires
        generation_recorded(l, t, c, input, fencing_token, now) is Ok,
        find_generation(l.generations, source) is Some,
    ensures
        ({
            let after = generation_recorded(l, t, c, input, fencing_token, now)->Ok_0.0;
            let g0 = find_generation(l.generations, source)->0;
            &&& find_generation(after.generations, source) is Some
            &&& {
                let g1 = find_generation(after.generations, source)->0;
                &&& g1.generation >= g0.generation
                &&& g1.generation == g0.generation ==> g1.sync_progress >= g0.sync_progress
                    && g1.fencing_token >= g0.fencing_token && g1.revision == g0.revision
                    && may_follow(g0.sync_state, g1.sync_state)
            }
        }),
{
    let valid = checked_generation(input)->Ok_0;
    let g = reported(valid, owner_of(c, fencing_token), now);
    lemma_with_generation(l.generations, g, source);
}

/// Repeating an accepted report changes nothing and is reported as a duplicate.
pub proof fn law_repeated_reports_are_duplicates(
    l: LedgerModel,
    t: LeasesModel,
    c: CoordinatorModel,
    input: FleetGenerationInputModel,
    fencing_token: u64,
    now: u64,
    later: u64,
)
    requires
        fence_error(t, c, fencing_token, later) is None,
        generation_recorded(l, t, c, input, fencing_token, now) is Ok,
        generation_recorded(l, t, c, input, fencing_token, now)->Ok_0.1.accepted,
    ensures
        ({
            let after = generation_recorded(l, t, c, input, fencing_token, now)->Ok_0.0;
            let again = generation_recorded(after, t, c, input, fencing_token, later);
            &&& again is Ok
            &&& again->Ok_0.0 == after
            &&& again->Ok_0.1.duplicate
            &&& !again->Ok_0.1.accepted
        }),
{
    let valid = checked_generation(input)->Ok_0;
    let g = reported(valid, owner_of(c, fencing_token), now);
    lemma_with_generation(l.generations, g, valid.source_instance_id);
}

/// A generation with an open conflict does not become ready.
pub proof fn law_conflicted_generations_are_not_ready(
    l: LedgerModel,
    t: LeasesModel,
    c: CoordinatorModel,
    input: FleetGenerationInputModel,
    fencing_token: u64,
    now: u64,
)
    requires
        generation_recorded(l, t, c, input, fencing_token, now) is Ok,
        generation_recorded(l, t, c, input, fencing_token, now)->Ok_0.1.accepted,
        generation_recorded(l, t, c, input, fencing_token, now)->Ok_0.1.generation.sync_state
            == FleetSyncState::Ready,
    ensures
        ({
            let g = generation_recorded(l, t, c, input, fencing_token, now)->Ok_0.1.generation;
            !has_open_conflict(l.conflicts, g.source_instance_id, g.generation)
        }),
{
}

/// Recording the same conflict again changes nothing and is reported as a
/// duplicate, as long as its generation is current.
pub proof fn law_repeated_conflicts_are_duplicates(
    l: LedgerModel,
    t: LeasesModel,
    c: CoordinatorModel,
    input: FleetConflictInputModel,
    fencing_token: u64,
    now: u64,
    later: u64,
)
    requires
        fence_error(t, c, fencing_token, later) is None,
        conflict_recorded(l, t, c, input, fencing_token, now) is Ok,
    ensures
        ({
            let after = conflict_recorded(l, t, c, input, fencing_token, now)->Ok_0.0;
            let again = conflict_recorded(after, t, c, input, fencing_token, later);
            &&& again is Ok
            &&& again->Ok_0.0 == after
            &&& again->Ok_0.1.duplicate
        }),
{
    let valid = checked_conflict(input)->Ok_0;
    let g = find_generation(l.generations, valid.source_instance_id)->0;
    lemma_source_position(l.generations, valid.source_instance_id);
    lemma_with_generation(
        l.generations,
        marked_conflicted(g, owner_of(c, fencing_token), now),
        valid.source_instance_id,
    );
    let ids = conflict_ids(l.conflicts);
    lemma_first_id(ids, valid.conflict_id);
    if find_conflict(l.conflicts, valid.conflict_id) is None {
        let after = conflict_recorded(l, t, c, input, fencing_token, now)->Ok_0.0;
        let new_ids = conflict_ids(after.conflicts);
        assert forall|j: int| 0 <= j < l.conflicts.len() implies new_ids[j]
            != valid.conflict_id by {
            assert(new_ids[j] == ids[j]);
        }
        lemma_first_id_unique(new_ids, valid.conflict_id, l.conflicts.len() as int);
    }
}

/// A conflict is resolved once: the same resolution again changes nothing, and
/// another one is refused.
pub proof fn law_conflicts_are_resolved_once(
    l: LedgerModel,
    t: LeasesModel,
    c: CoordinatorModel,
    id: u128,
    resolution: Seq<char>,
    token: u64,
    now: u64,
    later_leases: LeasesModel,
    other_process: CoordinatorModel,
    other: Seq<char>,
    other_token: u64,
    later: u64,
)
    requires
        conflict_resolved(l, t, c, id, resolution, token, now) is Ok,
        conflict_resolved(l, t, c, id, resolution, token, now)->Ok_0.1 is Some,
        fence_error(later_leases, other_process, other_token, later) is None,
        summary_of(other, FieldLabel::ConflictResolution, MAX_RESOLUTION_CHARS as nat) is Ok,
    ensures
        ({
            let after = conflict_resolved(l, t, c, id, resolution, token, now)->Ok_0.0;
            let again = conflict_resolved(
                after,
                later_leases,
                other_process,
                id,
                other,
                other_token,
                later,
            );
            if summary_of(other, FieldLabel::ConflictResolution, MAX_RESOLUTION_CHARS as nat)
                == summary_of(
                resolution,
                FieldLabel::ConflictResolution,
                MAX_RESOLUTION_CHARS as nat,
            ) {
                again is Ok && again->Ok_0.0 == after && again->Ok_0.1 is Some
                    && again->Ok_0.1->0.duplicate
            } else {
                again is Err && again->Err_0 == FleetCoordinationError::DifferentResolution
            }
        }),
{
    let after = conflict_resolved(l, t, c, id, resolution, token, now)->Ok_0.0;
    let ids = conflict_ids(l.conflicts);
    lemma_first_id(ids, id);
    assert(conflict_ids(after.conflicts) =~= ids);
}

/// A process that does not lead under its token writes nothing.
pub proof fn law_fenced_processes_write_nothing(
    l: LedgerModel,
    t: LeasesModel,
    c: CoordinatorModel,
    generation: FleetGenerationInputModel,
    conflict: FleetConflictInputModel,
    id: u128,
    resolution: Seq<char>,
    fencing_token: u64,
    now: u64,
)
    requires
        fence_error(t, c, fencing_token, now) is Some,
    ensures
        generation_recorded(l, t, c, generation, fencing_token, now) is Err,
        conflict_recorded(l, t, c, conflict, fencing_token, now) is Err,
        conflict_resolved(l, t, c, id, resolution, fencing_token, now) is Err,
{
}

/// An identifier is taken without the blanks around it, exactly if that leaves between
/// one and the maximum of bytes and no control character.
pub proof fn law_identifiers_are_short_and_plain(
    value: Seq<char>,
    label: FieldLabel,
    maximum: usize,
)
    ensures
        ({
            let r = identifier_of(value, label, maximum);
            let s = trim(value);
            let plain = forall|i: int| 0 <= i < s.len() ==> !control(#[trigger] s[i]);
            &&& r is Ok <==> s.len() > 0 && utf8_len(s) <= maximum && plain
            &&& r is Ok ==> r->Ok_0 == s
            &&& s.len() == 0 ==> r->Err_0 == FleetCoordinationError::Required(label)
            &&& s.len() > 0 && utf8_len(s) > maximum ==> r->Err_0 == (
            FleetCoordinationError::TooLong { label, maximum })
            &&& s.len() > 0 && utf8_len(s) <= maximum && !plain ==> r->Err_0
                == FleetCoordinationError::ControlCharacters(label)
        }),
{
    let s = trim(value);
    if has_control(s) {
        let i = choose|i: int| 0 <= i < s.len() && control(#[trigger] s[i]);
        assert(control(s[i]));
    }
}

/// The progress of a generation is at most 100, none while it is pending, less than
/// 100 while it is applied, and 100 once it is ready.
pub proof fn law_progress_fits_the_state(state: FleetSyncState, progress: u8)
    ensures
        ({
            let e = progress_error(state, progress);
            &&& e is None <==> {
                &&& progress <= 100
                &&& state is Pending ==> progress == 0
                &&& state is Applying ==> progress < 100
                &&& state is Ready ==> progress == 100
            }
            &&& progress > 100 ==> e->0 is ProgressTooLarge
            &&& progress <= 100 && e is Some && state is Pending ==> e->0 is PendingProgress
            &&& progress <= 100 && e is Some && state is Applying ==> e->0 is ApplyingProgress
            &&& progress <= 100 && e is Some && state is Ready ==> e->0 is ReadyProgress
        }),
{
}

/// A generation is never pending again, and once ready or failed it stays so. It
/// becomes ready only from being applied or conflicted, and may fail or conflict until
/// it is settled.
pub proof fn law_states_move_towards_an_end(current: FleetSyncState, next: FleetSyncState)
    requires
        current != next,
    ensures
        next is Pending ==> !may_follow(current, next),
        current is Ready || current is Failed ==> !may_follow(current, next),
        next is Ready ==> (may_follow(current, next) <==> current is Applying || current
            is Conflicted),
        next is Applying ==> (may_follow(current, next) <==> current is Pending || current
            is Conflicted),
        next is Conflicted ==> (may_follow(current, next) <==> current is Pending || current
            is Applying),
        next is Failed ==> (may_follow(current, next) <==> !(current is Ready)),
        may_follow(current, current),
{
}

/// A report is sound exactly if its source and its revision are sound identifiers of at
/// most 128 and 256 bytes, its numbers can be stored and its progress fits its state.
pub proof fn law_reports_are_bounded(input: FleetGenerationInputModel)
    ensures
        ({
            let r = checked_generation(input);
            let source = identifier_of(input.source_instance_id, FieldLabel::SourceInstanceId, 128);
            let revision = identifier_of(input.revision, FieldLabel::Revision, 256);
            &&& r is Ok <==> source is Ok && revision is Ok && input.generation
                <= 0x7fff_ffff_ffff_ffff && input.resource_count <= 0x7fff_ffff_ffff_ffff
                && progress_error(input.sync_state, input.sync_progress) is None
            &&& r is Ok ==> r->Ok_0 == (FleetGenerationInputModel {
                source_instance_id: source->Ok_0,
                revision: revision->Ok_0,
                ..input
            })
            &&& source is Err ==> r->Err_0 == source->Err_0
            &&& source is Ok && revision is Err ==> r->Err_0 == revision->Err_0
        }),
{
}

/// A conflict is sound exactly if it has an identifier, its source, resource and code
/// are sound identifiers of at most 128, 64, 256 and 96 bytes, its owner, if it has
/// one, is a sound identifier of at most 128 bytes, and something is said of it. Of
/// that, 512 characters are kept.
pub proof fn law_conflicts_are_bounded(input: FleetConflictInputModel)
    ensures
        ({
            let r = checked_conflict(input);
            let source = identifier_of(input.source_instance_id, FieldLabel::SourceInstanceId, 128);
            let kind = identifier_of(input.resource_kind, FieldLabel::ResourceKind, 64);
            let id = identifier_of(input.resource_id, FieldLabel::ResourceId, 256);
            let code = identifier_of(input.conflict_code, FieldLabel::ConflictCode, 96);
            let detail = summary_of(input.detail_summary, FieldLabel::ConflictDetail, 512);
            let owner = identifier_of(input.owner_instance_id->0, FieldLabel::ResourceOwner, 128);
            &&& r is Ok <==> input.conflict_id != 0 && source is Ok && kind is Ok && id is Ok
                && code is Ok && detail is Ok && (input.owner_instance_id is Some ==> owner is Ok)
                && input.generation <= 0x7fff_ffff_ffff_ffff
            &&& r is Ok ==> r->Ok_0 == (FleetConflictInputModel {
                source_instance_id: source->Ok_0,
                resource_kind: kind->Ok_0,
                resource_id: id->Ok_0,
                owner_instance_id: if input.owner_instance_id is Some {
                    Some(owner->Ok_0)
                } else {
                    None
                },
                conflict_code: code->Ok_0,
                detail_summary: detail->Ok_0,
                ..input
            })
            &&& input.conflict_id == 0 ==> r->Err_0 is NilConflictId
        }),
{
}

/// A report of an older generation than the recorded one is not taken, one of a newer
/// generation is. One of the same generation has to agree in revision and resources,
/// to move neither progress nor state backwards, and to come under no older token, nor
/// under the same token from another process; it is a duplicate if it says nothing new.
pub proof fn law_reports_are_judged(
    current: Option<FleetGenerationModel>,
    input: FleetGenerationInputModel,
    owner: OwnerModel,
    now: u64,
)
    ensures
        ({
            let r = generation_update(current, input, owner, now);
            let g = current->0;
            let own = g.owner_instance_id == owner.instance_id && g.owner_incarnation_id
                == owner.incarnation_id;
            let older = current is Some && input.generation < g.generation;
            let newer = current is None || input.generation > g.generation;
            let fits = input.revision == g.revision && input.resource_count == g.resource_count
                && input.sync_progress >= g.sync_progress && may_follow(
                g.sync_state,
                input.sync_state,
            ) && (g.fencing_token < owner.fencing_token || g.fencing_token == owner.fencing_token
                && own);
            let said = input.sync_state == g.sync_state && input.sync_progress == g.sync_progress
                && own && g.fencing_token == owner.fencing_token;
            &&& r is Ok <==> older || newer || fits
            &&& r is Ok ==> {
                &&& r->Ok_0.accepted <==> newer || !older && !said
                &&& r->Ok_0.duplicate <==> !older && !newer && said
                &&& !r->Ok_0.accepted ==> r->Ok_0.generation == g
                &&& r->Ok_0.accepted ==> {
                    let n = r->Ok_0.generation;
                    &&& n.source_instance_id == input.source_instance_id && n.generation
                        == input.generation && n.revision == input.revision
                    &&& n.resource_count == input.resource_count && n.sync_state
                        == input.sync_state && n.sync_progress == input.sync_progress
                    &&& n.owner_instance_id == owner.instance_id && n.owner_incarnation_id
                        == owner.incarnation_id && n.fencing_token == owner.fencing_token
                    &&& n.updated_unix_seconds == now
                }
            }
        }),
{
}

/// What is wrong with a report of the recorded generation is told of the first thing
/// that is wrong.
pub proof fn law_refused_reports_tell_why(
    g: FleetGenerationModel,
    input: FleetGenerationInputModel,
    owner: OwnerModel,
)
    requires
        same_generation_error(g, input, owner) is Some,
    ensures
        ({
            let e = same_generation_error(g, input, owner)->0;
            let revision = input.revision == g.revision;
            let count = input.resource_count == g.resource_count;
            let progress = input.sync_progress >= g.sync_progress;
            let moves = may_follow(g.sync_state, input.sync_state);
            &&& e is RevisionBound <==> !revision
            &&& e is ResourceCountBound <==> revision && !count
            &&& e is ProgressBackwards <==> revision && count && !progress
            &&& e is InvalidTransition <==> revision && count && progress && !moves
            &&& e is NewerFencingToken <==> revision && count && progress && moves
                && g.fencing_token > owner.fencing_token
            &&& e is FencingTokenReused <==> revision && count && progress && moves
                && g.fencing_token <= owner.fencing_token
        }),
{
}

/// A generation is found exactly if one of that source is recorded, and it is of that
/// source.
pub proof fn law_generations_are_found_by_source(s: Seq<FleetGenerationModel>, source: Seq<char>)
    ensures
        find_generation(s, source) is Some <==> exists|i: int|
            0 <= i < s.len() && (#[trigger] s[i]).source_instance_id == source,
        find_generation(s, source) is Some ==> s.contains(find_generation(s, source)->0)
            && find_generation(s, source)->0.source_instance_id == source,
{
    lemma_source_position_at(s, source);
    if exists|i: int| 0 <= i < s.len() && (#[trigger] s[i]).source_instance_id == source {
        let i = choose|i: int| 0 <= i < s.len() && (#[trigger] s[i]).source_instance_id == source;
        if find_generation(s, source) is None {
            assert(s[i].source_instance_id != source);
        }
    }
    if find_generation(s, source) is Some {
        assert(s[source_position(s, source)].source_instance_id == source);
    }
}

proof fn lemma_source_position_at(s: Seq<FleetGenerationModel>, source: Seq<char>)
    ensures
        0 <= source_position(s, source) <= s.len(),
        source_position(s, source) < s.len() ==> s[source_position(s, source)].source_instance_id
            == source,
        forall|i: int|
            0 <= i < source_position(s, source) ==> (#[trigger] s[i]).source_instance_id != source,
    decreases s.len(),
{
    if s.len() > 0 && s[0].source_instance_id != source {
        let t = s.drop_first();
        lemma_source_position_at(t, source);
        assert forall|i: int| 0 <= i < source_position(s, source) implies (
        #[trigger] s[i]).source_instance_id != source by {
            if i > 0 {
                assert(t[i - 1] == s[i]);
            }
        }
    }
}

/// A recorded generation replaces the one of its source, and leaves all others.
pub proof fn law_other_sources_keep_their_generation(
    s: Seq<FleetGenerationModel>,
    g: FleetGenerationModel,
    i: int,
)
    ensures
        ({
            let t = with_generation(s, g);
            &&& find_generation(t, g.source_instance_id) == Some(g)
            &&& 0 <= i < s.len() && s[i].source_instance_id != g.source_instance_id ==> t[i] == s[i]
            &&& t.len() == s.len() || t.len() == s.len() + 1 && find_generation(
                s,
                g.source_instance_id,
            ) is None
        }),
{
    let t = with_generation(s, g);
    lemma_source_position_at(s, g.source_instance_id);
    lemma_source_position_at(t, g.source_instance_id);
    let p = source_position(s, g.source_instance_id);
    let q = source_position(t, g.source_instance_id);
    if q < p {
        assert(t[q] == s[q]);
    }
    if p < q {
        assert(t[p] == g);
    }
}

/// A report is recorded only under the fence, and not as ready while a conflict of its
/// generation is open.
pub proof fn law_reports_are_recorded_under_the_fence(
    l: LedgerModel,
    t: LeasesModel,
    c: CoordinatorModel,
    input: FleetGenerationInputModel,
    fencing_token: u64,
    now: u64,
)
    requires
        checked_generation(input) is Ok,
    ensures
        ({
            let r = generation_recorded(l, t, c, input, fencing_token, now);
            let v = checked_generation(input)->Ok_0;
            let fence = fence_error(t, c, fencing_token, now);
            let u = generation_update(
                find_generation(l.generations, v.source_instance_id),
                v,
                OwnerModel {
                    instance_id: c.instance_id,
                    incarnation_id: c.incarnation_id,
                    fencing_token,
                },
                now,
            );
            let blocked = v.sync_state is Ready && exists|i: int|
                0 <= i < l.conflicts.len() && (#[trigger] l.conflicts[i]).source_instance_id
                    == v.source_instance_id && l.conflicts[i].generation == v.generation
                    && l.conflicts[i].state is Open;
            &&& fence is Some ==> r is Err && r->Err_0 == FleetCoordinationError::Fence(fence->0)
            &&& fence is None && u is Err ==> r is Err && r->Err_0 == u->Err_0
            &&& fence is None && u is Ok && !u->Ok_0.accepted ==> r is Ok && r->Ok_0.0 == l
                && r->Ok_0.1 == u->Ok_0
            &&& fence is None && u is Ok && u->Ok_0.accepted && blocked ==> r is Err
                && r->Err_0 is OpenConflicts
            &&& fence is None && u is Ok && u->Ok_0.accepted && !blocked ==> r is Ok && r->Ok_0.1
                == u->Ok_0 && r->Ok_0.0.conflicts == l.conflicts && r->Ok_0.0.generations
                == with_generation(l.generations, u->Ok_0.generation)
        }),
{
    let v = checked_generation(input)->Ok_0;
    if has_open_conflict(l.conflicts, v.source_instance_id, v.generation) {
        let i = choose|i: int|
            0 <= i < l.conflicts.len() && (#[trigger] l.conflicts[i]).source_instance_id
                == v.source_instance_id && l.conflicts[i].generation == v.generation
                && l.conflicts[i].state == FleetConflictState::Open;
        assert(l.conflicts[i].state is Open);
    }
    if exists|i: int|
        0 <= i < l.conflicts.len() && (#[trigger] l.conflicts[i]).source_instance_id
            == v.source_instance_id && l.conflicts[i].generation == v.generation
            && l.conflicts[i].state is Open {
        let i = choose|i: int|
            0 <= i < l.conflicts.len() && (#[trigger] l.conflicts[i]).source_instance_id
                == v.source_instance_id && l.conflicts[i].generation == v.generation
                && l.conflicts[i].state is Open;
        assert(l.conflicts[i].state == FleetConflictState::Open);
    }
}

/// A conflict is recorded against the recorded generation of its source, which it
/// marks as conflicted. It opens at that moment, with what was said of it; an
/// identifier that is in use stands for the same conflict or is refused.
pub proof fn law_conflicts_mark_their_generation(
    l: LedgerModel,
    t: LeasesModel,
    c: CoordinatorModel,
    input: FleetConflictInputModel,
    fencing_token: u64,
    now: u64,
)
    requires
        checked_conflict(input) is Ok,
        fence_error(t, c, fencing_token, now) is None,
    ensures
        ({
            let r = conflict_recorded(l, t, c, input, fencing_token, now);
            let v = checked_conflict(input)->Ok_0;
            let g = find_generation(l.generations, v.source_instance_id);
            let k = find_conflict(l.conflicts, v.conflict_id);
            let o = k->0;
            let same = o.source_instance_id == v.source_instance_id && o.generation == v.generation
                && o.resource_kind == v.resource_kind && o.resource_id == v.resource_id
                && o.owner_instance_id == v.owner_instance_id && o.conflict_code
                == v.conflict_code && o.detail_summary == v.detail_summary;
            let current = g is Some && g->0.generation == v.generation;
            &&& g is None ==> r is Err && r->Err_0 is GenerationMissing
            &&& g is Some && !current ==> r is Err && r->Err_0 is StaleGeneration
            &&& current && k is Some && !same ==> r is Err && r->Err_0 is ConflictBound
            &&& current && k is Some && same ==> r is Ok && r->Ok_0.0 == l && r->Ok_0.1.duplicate
                && r->Ok_0.1.conflict == o
            &&& current && k is None ==> {
                let (after, w) = r->Ok_0;
                let n = w.conflict;
                &&& r is Ok && !w.duplicate
                &&& after.conflicts == l.conflicts.push(n)
                &&& n.conflict_id == v.conflict_id && n.source_instance_id == v.source_instance_id
                    && n.generation == v.generation
                &&& n.resource_kind == v.resource_kind && n.resource_id == v.resource_id
                    && n.owner_instance_id == v.owner_instance_id
                &&& n.conflict_code == v.conflict_code && n.detail_summary == v.detail_summary
                &&& n.state is Open && n.detected_unix_seconds == now && n.resolved_unix_seconds
                    is None && n.resolution is None
                &&& after.generations == with_generation(
                    l.generations,
                    FleetGenerationModel {
                        sync_state: FleetSyncState::Conflicted,
                        owner_instance_id: c.instance_id,
                        owner_incarnation_id: c.incarnation_id,
                        fencing_token,
                        updated_unix_seconds: now,
                        ..g->0
                    },
                )
            }
        }),
{
}

/// A conflict is found exactly if one of that identifier is recorded.
pub proof fn law_conflicts_are_found_by_identifier(s: Seq<FleetConflictModel>, id: u128)
    ensures
        find_conflict(s, id) is Some <==> exists|i: int|
            0 <= i < s.len() && (#[trigger] s[i]).conflict_id == id,
        find_conflict(s, id) is Some ==> s.contains(find_conflict(s, id)->0) && find_conflict(
            s,
            id,
        )->0.conflict_id == id,
{
    crate::ids::lemma_first_id(conflict_ids(s), id);
    if exists|i: int| 0 <= i < s.len() && (#[trigger] s[i]).conflict_id == id {
        let i = choose|i: int| 0 <= i < s.len() && (#[trigger] s[i]).conflict_id == id;
        assert(conflict_ids(s)[i] == id);
    }
    if find_conflict(s, id) is Some {
        let i = first_id(conflict_ids(s), id);
        assert(conflict_ids(s)[i] == s[i].conflict_id);
    }
}

/// An open conflict is resolved with the first 512 characters of the resolution; all
/// other conflicts and all generations stay as they are.
pub proof fn law_open_conflicts_are_resolved(
    l: LedgerModel,
    t: LeasesModel,
    c: CoordinatorModel,
    id: u128,
    resolution: Seq<char>,
    fencing_token: u64,
    now: u64,
)
    requires
        fence_error(t, c, fencing_token, now) is None,
    ensures
        ({
            let r = conflict_resolved(l, t, c, id, resolution, fencing_token, now);
            let text = summary_of(resolution, FieldLabel::ConflictResolution, 512);
            let k = find_conflict(l.conflicts, id);
            let at = first_id(conflict_ids(l.conflicts), id);
            &&& text is Err ==> r is Err && r->Err_0 == text->Err_0
            &&& text is Ok && k is None ==> r is Ok && r->Ok_0.1 is None && r->Ok_0.0 == l
            &&& text is Ok && k is Some && k->0.state is Open ==> {
                let (after, w) = r->Ok_0;
                &&& r is Ok && w is Some && !w->0.duplicate
                &&& w->0.conflict == (FleetConflictModel {
                    state: FleetConflictState::Resolved,
                    resolved_unix_seconds: Some(now),
                    resolution: Some(text->Ok_0),
                    ..k->0
                })
                &&& after.generations == l.generations
                &&& after.conflicts.len() == l.conflicts.len()
                &&& after.conflicts[at] == w->0.conflict
                &&& forall|i: int|
                    0 <= i < l.conflicts.len() && i != at ==> (#[trigger] after.conflicts[i])
                        == l.conflicts[i]
            }
            &&& text is Ok && k is Some && k->0.state is Resolved ==> {
                &&& k->0.resolution == Some(text->Ok_0) ==> r is Ok && r->Ok_0.0 == l
                    && r->Ok_0.1 is Some && r->Ok_0.1->0.duplicate && r->Ok_0.1->0.conflict == k->0
                &&& k->0.resolution != Some(text->Ok_0) ==> r is Err
                    && r->Err_0 is DifferentResolution
            }
        }),
{
    crate::ids::lemma_first_id(conflict_ids(l.conflicts), id);
}

/// The listed conflicts are those of the wanted source and state, the latest detected
/// first and those of one moment by identifier.
#[verifier::spinoff_prover]
#[verifier::rlimit(60)]
pub proof fn law_conflicts_are_listed_from_the_latest(
    s: Seq<FleetConflictModel>,
    source: Option<Seq<char>>,
    state: Option<FleetConflictState>,
    x: FleetConflictModel,
)
    ensures
        ({
            let r = listed_conflicts(s, source, state);
            &&& r.contains(x) <==> s.contains(x) && (source is None || source->0
                == x.source_instance_id) && (state is None || state->0 == x.state)
            &&& forall|i: int, j: int|
                #![trigger r[i], r[j]]
                0 <= i < j < r.len() ==> r[i].detected_unix_seconds > r[j].detected_unix_seconds
                    || r[i].detected_unix_seconds == r[j].detected_unix_seconds && r[i].conflict_id
                    <= r[j].conflict_id
        }),
    decreases s.len(),
{
    let r = listed_conflicts(s, source, state);
    if s.len() > 0 {
        let t = s.drop_last();
        let rest = listed_conflicts(t, source, state);
        let last = s.last();
        law_conflicts_are_listed_from_the_latest(t, source, state, x);
        assert(s.contains(x) <==> t.contains(x) || x == last) by {
            if s.contains(x) {
                let i = choose|i: int| 0 <= i < s.len() && s[i] == x;
                if i < t.len() {
                    assert(t[i] == x);
                }
            }
            if t.contains(x) {
                let i = choose|i: int| 0 <= i < t.len() && t[i] == x;
                assert(s[i] == x);
            }
            if x == last {
                assert(s[s.len() - 1] == x);
            }
        }
        if wanted_conflict(last, source, state) {
            let p = conflict_position(rest, last);
            lemma_conflict_position_at(rest, last);
            assert(r[p] == last);
            assert(r.contains(x) <==> rest.contains(x) || x == last) by {
                if r.contains(x) && x != last {
                    let i = choose|i: int| 0 <= i < r.len() && r[i] == x;
                    if i < p {
                        assert(rest[i] == x);
                    } else {
                        assert(rest[i - 1] == x);
                    }
                }
                if rest.contains(x) {
                    let i = choose|i: int| 0 <= i < rest.len() && rest[i] == x;
                    if i < p {
                        assert(r[i] == x);
                    } else {
                        assert(r[i + 1] == x);
                    }
                }
            }
            assert forall|i: int, j: int|
                #![trigger r[i], r[j]]
                0 <= i < j < r.len() implies r[i].detected_unix_seconds > r[j].detected_unix_seconds
                || r[i].detected_unix_seconds == r[j].detected_unix_seconds && r[i].conflict_id
                <= r[j].conflict_id by {
                let a = if i < p {
                    i
                } else {
                    i - 1
                };
                let b = if j < p {
                    j
                } else {
                    j - 1
                };
                if i != p && j != p {
                    assert(r[i] == rest[a] && r[j] == rest[b]);
                } else if j == p {
                    assert(r[i] == rest[i]);
                    assert(!conflict_before(last, rest[i]));
                } else {
                    assert(r[j] == rest[j - 1]);
                    assert(conflict_before(last, rest[p]));
                    if p < j - 1 {
                        assert(rest[p].detected_unix_seconds > rest[j - 1].detected_unix_seconds
                            || rest[p].detected_unix_seconds == rest[j - 1].detected_unix_seconds
                            && rest[p].conflict_id <= rest[j - 1].conflict_id);
                    }
                }
            }
        }
    }
}

proof fn lemma_conflict_position_at(s: Seq<FleetConflictModel>, c: FleetConflictModel)
    ensures
        0 <= conflict_position(s, c) <= s.len(),
        conflict_position(s, c) < s.len() ==> conflict_before(c, s[conflict_position(s, c)]),
        forall|i: int| 0 <= i < conflict_position(s, c) ==> !conflict_before(c, #[trigger] s[i]),
    decreases s.len(),
{
    if s.len() > 0 && !conflict_before(c, s[0]) {
        let t = s.drop_first();
        lemma_conflict_position_at(t, c);
        assert forall|i: int| 0 <= i < conflict_position(s, c) implies !conflict_before(
            c,
            #[trigger] s[i],
        ) by {
            if i > 0 {
                assert(t[i - 1] == s[i]);
            }
        }
    }
}

/// Every generation is listed, in the order of the sources.
#[verifier::spinoff_prover]
#[verifier::rlimit(60)]
pub proof fn law_generations_are_listed_by_source(
    s: Seq<FleetGenerationModel>,
    x: FleetGenerationModel,
)
    ensures
        ({
            let r = listed_generations(s);
            &&& r.len() == s.len()
            &&& r.contains(x) <==> s.contains(x)
            &&& forall|i: int, j: int|
                #![trigger r[i], r[j]]
                0 <= i < j < r.len() ==> !lex_less(
                    r[j].source_instance_id,
                    r[i].source_instance_id,
                )
        }),
    decreases s.len(),
{
    let r = listed_generations(s);
    if s.len() > 0 {
        let t = s.drop_last();
        let rest = listed_generations(t);
        let last = s.last();
        law_generations_are_listed_by_source(t, x);
        assert(s.contains(x) <==> t.contains(x) || x == last) by {
            if s.contains(x) {
                let i = choose|i: int| 0 <= i < s.len() && s[i] == x;
                if i < t.len() {
                    assert(t[i] == x);
                }
            }
            if t.contains(x) {
                let i = choose|i: int| 0 <= i < t.len() && t[i] == x;
                assert(s[i] == x);
            }
            if x == last {
                assert(s[s.len() - 1] == x);
            }
        }
        let p = listing_position(rest, last);
        lemma_listing_position_at(rest, last);
        assert(r[p] == last);
        assert(r.contains(x) <==> rest.contains(x) || x == last) by {
            if r.contains(x) && x != last {
                let i = choose|i: int| 0 <= i < r.len() && r[i] == x;
                if i < p {
                    assert(rest[i] == x);
                } else {
                    assert(rest[i - 1] == x);
                }
            }
            if rest.contains(x) {
                let i = choose|i: int| 0 <= i < rest.len() && rest[i] == x;
                if i < p {
                    assert(r[i] == x);
                } else {
                    assert(r[i + 1] == x);
                }
            }
        }
        assert forall|i: int, j: int|
            #![trigger r[i], r[j]]
            0 <= i < j < r.len() implies !lex_less(
            r[j].source_instance_id,
            r[i].source_instance_id,
        ) by {
            let a = if i < p {
                i
            } else {
                i - 1
            };
            let b = if j < p {
                j
            } else {
                j - 1
            };
            if i != p && j != p {
                assert(r[i] == rest[a] && r[j] == rest[b]);
            } else if j == p {
                assert(r[i] == rest[i]);
                assert(!lex_less(last.source_instance_id, rest[i].source_instance_id));
            } else {
                assert(r[j] == rest[j - 1]);
                let k = rest[j - 1].source_instance_id;
                let h = rest[p].source_instance_id;
                let y = last.source_instance_id;
                assert(lex_less(y, h));
                if lex_less(k, y) {
                    crate::text::lemma_lex_transitive(k, y, h);
                    if p < j - 1 {
                        assert(!lex_less(rest[j - 1].source_instance_id, rest[p].source_instance_id));
                    } else {
                        crate::text::lemma_lex_total(h, h);
                    }
                }
            }
        }
    }
}

proof fn lemma_listing_position_at(s: Seq<FleetGenerationModel>, g: FleetGenerationModel)
    ensures
        0 <= listing_position(s, g) <= s.len(),
        listing_position(s, g) < s.len() ==> lex_less(
            g.source_instance_id,
            s[listing_position(s, g)].source_instance_id,
        ),
        forall|i: int|
            0 <= i < listing_position(s, g) ==> !lex_less(
                g.source_instance_id,
                (#[trigger] s[i]).source_instance_id,
            ),
    decreases s.len(),
{
    if s.len() > 0 && !lex_less(g.source_instance_id, s[0].source_instance_id) {
        let t = s.drop_first();
        lemma_listing_position_at(t, g);
        assert forall|i: int| 0 <= i < listing_position(s, g) implies !lex_less(
            g.source_instance_id,
            (#[trigger] s[i]).source_instance_id,
        ) by {
            if i > 0 {
                assert(t[i - 1] == s[i]);
            }
        }
    }
}

/// States have the names under which they are stored, and no other name is one.
pub proof fn law_state_names_are_fixed(name: Seq<char>)
    ensures
        sync_state_name(FleetSyncState::Pending) == "pending"@,
        sync_state_name(FleetSyncState::Applying) == "applying"@,
        sync_state_name(FleetSyncState::Ready) == "ready"@,
        sync_state_name(FleetSyncState::Conflicted) == "conflicted"@,
        sync_state_name(FleetSyncState::Failed) == "failed"@,
        conflict_state_name(FleetConflictState::Open) == "open"@,
        conflict_state_name(FleetConflictState::Resolved) == "resolved"@,
        sync_state_of(name) is Some ==> sync_state_name(sync_state_of(name)->0) == name,
        conflict_state_of(name) is Some ==> conflict_state_name(conflict_state_of(name)->0) == name,
{
}

} // verus!
