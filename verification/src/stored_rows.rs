//! Rows of the database: how values are written into columns and read back.

use crate::fleet::{FleetPeer, FleetPeerModel};
use crate::fleet_coordination::{
    FleetConflict, FleetConflictModel, FleetConflictState, FleetGeneration, FleetGenerationModel,
    FleetSyncState, conflict_state_name, conflict_state_of, law_states_read_back, sync_state_name,
    sync_state_of,
};
use crate::fleet_dns::{
    FleetDnsFailover, FleetDnsFailoverModel, FleetDnsRecordType, law_record_type_reads_back,
    record_type_name, record_type_of,
};
use crate::fleet_health::{
    FleetHealthConfig, FleetHealthSnapshot, FleetHealthSnapshotModel, FleetHealthState,
    FleetPeerHealth, FleetPeerHealthModel, health_state_name, health_state_of,
    law_health_state_reads_back,
};
use crate::ha_coordination::{
    HaMember, HaMemberModel, LeadershipLease, LeadershipLeaseModel, json_object, metadata_error,
    validate_metadata_json,
};
use crate::ha_management::StorageBackend;
use crate::stored_numbers::MAX_STORED;
use crate::text::{copy_optional, opt_view};
use crate::uuids::{
    hyphenated, law_written_identifier_reads_back, parse_uuid, uuid_error, uuid_of, uuid_text,
};
use vstd::prelude::*;
use vstd::string::*;

verus! {

/// What a number stands for.
#[derive(Clone, Copy, Debug, PartialEq, Eq, Structural)]
pub enum ColumnLabel {
    Generation,
    FencingToken,
    ResourceCount,
    UpdateTime,
    ConflictGeneration,
    ConflictTime,
    ResolutionTime,
    MemberStart,
    MemberLastSeen,
    MemberLease,
    LeaderToken,
    LeaderAcquired,
    LeaderRenewed,
    LeaderLease,
}

pub open spec fn column_text(l: ColumnLabel) -> Seq<char> {
    match l {
        ColumnLabel::Generation => "Fleet generation"@,
        ColumnLabel::FencingToken => "Fleet fencing token"@,
        ColumnLabel::ResourceCount => "Fleet resource count"@,
        ColumnLabel::UpdateTime => "Fleet update time"@,
        ColumnLabel::ConflictGeneration => "Fleet conflict generation"@,
        ColumnLabel::ConflictTime => "Fleet conflict time"@,
        ColumnLabel::ResolutionTime => "Fleet resolution time"@,
        ColumnLabel::MemberStart => "member start time"@,
        ColumnLabel::MemberLastSeen => "member last seen time"@,
        ColumnLabel::MemberLease => "member lease time"@,
        ColumnLabel::LeaderToken => "fencing token"@,
        ColumnLabel::LeaderAcquired => "leader acquired time"@,
        ColumnLabel::LeaderRenewed => "leader renewed time"@,
        ColumnLabel::LeaderLease => "leader lease time"@,
    }
}

impl ColumnLabel {
    pub fn as_str(self) -> (r: &'static str)
        ensures
            r@ == column_text(self),
    {
        match self {
            ColumnLabel::Generation => "Fleet generation",
            ColumnLabel::FencingToken => "Fleet fencing token",
            ColumnLabel::ResourceCount => "Fleet resource count",
            ColumnLabel::UpdateTime => "Fleet update time",
            ColumnLabel::ConflictGeneration => "Fleet conflict generation",
            ColumnLabel::ConflictTime => "Fleet conflict time",
            ColumnLabel::ResolutionTime => "Fleet resolution time",
            ColumnLabel::MemberStart => "member start time",
            ColumnLabel::MemberLastSeen => "member last seen time",
            ColumnLabel::MemberLease => "member lease time",
            ColumnLabel::LeaderToken => "fencing token",
            ColumnLabel::LeaderAcquired => "leader acquired time",
            ColumnLabel::LeaderRenewed => "leader renewed time",
            ColumnLabel::LeaderLease => "leader lease time",
        }
    }

    /// The place of the number within its row.
    pub fn column(self) -> (r: usize)
        ensures
            r == label_column(self),
    {
        match self {
            ColumnLabel::Generation => 1,
            ColumnLabel::FencingToken => 5,
            ColumnLabel::ResourceCount => 6,
            ColumnLabel::UpdateTime => 9,
            ColumnLabel::ConflictGeneration => 2,
            ColumnLabel::ConflictTime => 9,
            ColumnLabel::ResolutionTime => 10,
            ColumnLabel::MemberStart => 2,
            ColumnLabel::MemberLastSeen => 3,
            ColumnLabel::MemberLease => 4,
            ColumnLabel::LeaderToken => 2,
            ColumnLabel::LeaderAcquired => 3,
            ColumnLabel::LeaderRenewed => 4,
            ColumnLabel::LeaderLease => 5,
        }
    }
}

/// What is wrong with a column.
#[derive(Clone, Debug, PartialEq, Eq)]
pub enum RowError {
    /// No identifier, and what the parser said of it.
    Identifier { column: usize, text: String },
    HealthState,
    RecordType,
    SyncState,
    ConflictState,
    Progress,
    Negative(ColumnLabel),
    NotPositive(ColumnLabel),
    Invalid(ColumnLabel),
    /// What is wrong with the metadata of a member.
    Metadata(String),
}

/// What a [`RowError`] says.
pub enum RowErrorModel {
    Identifier { column: usize, text: Seq<char> },
    HealthState,
    RecordType,
    SyncState,
    ConflictState,
    Progress,
    Negative(ColumnLabel),
    NotPositive(ColumnLabel),
    Invalid(ColumnLabel),
    Metadata(Seq<char>),
}

impl View for RowError {
    type V = RowErrorModel;

    open spec fn view(&self) -> RowErrorModel {
        match *self {
            RowError::Identifier { column, text } => RowErrorModel::Identifier {
                column,
                text: text@,
            },
            RowError::HealthState => RowErrorModel::HealthState,
            RowError::RecordType => RowErrorModel::RecordType,
            RowError::SyncState => RowErrorModel::SyncState,
            RowError::ConflictState => RowErrorModel::ConflictState,
            RowError::Progress => RowErrorModel::Progress,
            RowError::Negative(label) => RowErrorModel::Negative(label),
            RowError::NotPositive(label) => RowErrorModel::NotPositive(label),
            RowError::Invalid(label) => RowErrorModel::Invalid(label),
            RowError::Metadata(text) => RowErrorModel::Metadata(text@),
        }
    }
}

pub open spec fn row_error_text(e: RowErrorModel) -> Seq<char> {
    match e {
        RowErrorModel::Identifier { text, .. } => text,
        RowErrorModel::HealthState => "unknown fleet health state"@,
        RowErrorModel::RecordType => "fleet DNS record type is invalid"@,
        RowErrorModel::SyncState => "unknown Fleet sync state"@,
        RowErrorModel::ConflictState => "unknown Fleet conflict state"@,
        RowErrorModel::Progress => "Fleet sync progress is invalid"@,
        RowErrorModel::Negative(label) => column_text(label) + " must not be negative"@,
        RowErrorModel::NotPositive(label) => column_text(label) + " must be positive"@,
        RowErrorModel::Invalid(label) => column_text(label) + " is invalid"@,
        RowErrorModel::Metadata(text) => text,
    }
}

/// The place of a number within its row.
pub open spec fn label_column(l: ColumnLabel) -> usize {
    match l {
        ColumnLabel::Generation => 1,
        ColumnLabel::FencingToken => 5,
        ColumnLabel::ResourceCount => 6,
        ColumnLabel::UpdateTime => 9,
        ColumnLabel::ConflictGeneration => 2,
        ColumnLabel::ConflictTime => 9,
        ColumnLabel::ResolutionTime => 10,
        ColumnLabel::MemberStart => 2,
        ColumnLabel::MemberLastSeen => 3,
        ColumnLabel::MemberLease => 4,
        ColumnLabel::LeaderToken => 2,
        ColumnLabel::LeaderAcquired => 3,
        ColumnLabel::LeaderRenewed => 4,
        ColumnLabel::LeaderLease => 5,
    }
}

/// The place of the column within its row.
pub open spec fn row_error_column(e: RowErrorModel) -> usize {
    match e {
        RowErrorModel::Identifier { column, .. } => column,
        RowErrorModel::HealthState => 5,
        RowErrorModel::RecordType => 3,
        RowErrorModel::SyncState => 7,
        RowErrorModel::ConflictState => 8,
        RowErrorModel::Progress => 8,
        RowErrorModel::Negative(label) => label_column(label),
        RowErrorModel::NotPositive(label) => label_column(label),
        RowErrorModel::Invalid(label) => label_column(label),
        RowErrorModel::Metadata(_) => 5,
    }
}

/// Whether the column holds a number and not a text.
pub open spec fn is_numeric(e: RowErrorModel) -> bool {
    e is Progress || e is Negative || e is NotPositive || e is Invalid
}

impl RowError {
    /// The text shown to operators.
    pub fn message(&self) -> (r: String)
        ensures
            r@ == row_error_text(self@),
    {
        match self {
            RowError::Identifier { text, .. } => text.clone(),
            RowError::HealthState => "unknown fleet health state".to_owned(),
            RowError::RecordType => "fleet DNS record type is invalid".to_owned(),
            RowError::SyncState => "unknown Fleet sync state".to_owned(),
            RowError::ConflictState => "unknown Fleet conflict state".to_owned(),
            RowError::Progress => "Fleet sync progress is invalid".to_owned(),
            RowError::Negative(label) => {
                let mut out = label.as_str().to_owned();
                out.append(" must not be negative");
                out
            },
            RowError::NotPositive(label) => {
                let mut out = label.as_str().to_owned();
                out.append(" must be positive");
                out
            },
            RowError::Invalid(label) => {
                let mut out = label.as_str().to_owned();
                out.append(" is invalid");
                out
            },
            RowError::Metadata(text) => text.clone(),
        }
    }

    /// The place of the column within its row.
    pub fn column(&self) -> (r: usize)
        ensures
            r == row_error_column(self@),
    {
        match self {
            RowError::Identifier { column, .. } => *column,
            RowError::HealthState => 5,
            RowError::RecordType => 3,
            RowError::SyncState => 7,
            RowError::ConflictState => 8,
            RowError::Progress => 8,
            RowError::Negative(label) => label.column(),
            RowError::NotPositive(label) => label.column(),
            RowError::Invalid(label) => label.column(),
            RowError::Metadata(_) => 5,
        }
    }

    /// Whether the column holds a number and not a text.
    pub fn numeric(&self) -> (r: bool)
        ensures
            r == is_numeric(self@),
    {
        match self {
            RowError::Progress => true,
            RowError::Negative(_) => true,
            RowError::NotPositive(_) => true,
            RowError::Invalid(_) => true,
            _ => false,
        }
    }
}

/// Whether a column was read as it should be.
pub open spec fn read_as<T>(r: Result<T, RowError>, expected: Result<T, RowErrorModel>) -> bool {
    match expected {
        Ok(x) => r is Ok && r->Ok_0 == x,
        Err(error) => r is Err && r->Err_0@ == error,
    }
}

/// A column that counts from zero. What is below zero counts as zero.
pub open spec fn clamped(value: i64) -> u64 {
    if value < 0 {
        0
    } else {
        value as u64
    }
}

pub open spec fn clamped_opt(value: Option<i64>) -> Option<u64> {
    match value {
        Some(n) => Some(clamped(n)),
        None => None,
    }
}

/// A number as a column holds it. Where nothing keeps them out, numbers beyond 63
/// bits wrap around.
pub open spec fn written(value: u64) -> i64 {
    if value <= MAX_STORED {
        value as i64
    } else {
        (value - 0x1_0000_0000_0000_0000) as i64
    }
}

pub open spec fn written_opt(value: Option<u64>) -> Option<i64> {
    match value {
        Some(n) => Some(written(n)),
        None => None,
    }
}

pub open spec fn flag(value: bool) -> i64 {
    if value {
        1
    } else {
        0
    }
}

pub open spec fn id_opt(value: Option<Seq<char>>, column: usize) -> Result<
    Option<u128>,
    RowErrorModel,
> {
    match value {
        None => Ok(None),
        Some(s) => match uuid_of(s) {
            Some(id) => Ok(Some(id)),
            None => Err(RowErrorModel::Identifier { column, text: uuid_error(s) }),
        },
    }
}

pub open spec fn written_id(value: Option<u128>) -> Option<Seq<char>> {
    match value {
        Some(id) => Some(hyphenated(id)),
        None => None,
    }
}

/// Whether an optional number fits into a column.
pub open spec fn fits(value: Option<u64>) -> bool {
    value is Some ==> value->0 <= MAX_STORED
}

/// A stored time or count; what is below zero reads as zero.
pub fn nonnegative(value: i64) -> (r: u64)
    ensures
        r == clamped(value),
{
    if value < 0 {
        0
    } else {
        value as u64
    }
}

/// A stored time or count that may be missing.
pub fn optional_nonnegative(value: Option<i64>) -> (r: Option<u64>)
    ensures
        r == clamped_opt(value),
{
    match value {
        Some(n) => Some(nonnegative(n)),
        None => None,
    }
}

fn to_column(value: u64) -> (r: i64)
    ensures
        r == written(value),
{
    if value <= MAX_STORED {
        value as i64
    } else {
        -((0xffff_ffff_ffff_ffff - value) as i64) - 1
    }
}

fn to_optional_column(value: Option<u64>) -> (r: Option<i64>)
    ensures
        r == written_opt(value),
{
    match value {
        Some(n) => Some(to_column(n)),
        None => None,
    }
}

fn optional_fits(value: Option<u64>) -> (r: bool)
    ensures
        r == fits(value),
{
    match value {
        Some(n) => n <= MAX_STORED,
        None => true,
    }
}

fn to_flag(value: bool) -> (r: i64)
    ensures
        r == flag(value),
{
    if value {
        1
    } else {
        0
    }
}

fn optional_uuid(value: &Option<String>, column: usize) -> (r: Result<Option<u128>, RowError>)
    ensures
        read_as(r, id_opt(opt_view(*value), column)),
{
    match value {
        None => Ok(None),
        Some(s) => match parse_uuid(s.as_str()) {
            Ok(id) => Ok(Some(id)),
            Err(text) => Err(RowError::Identifier { column, text }),
        },
    }
}

fn optional_text(value: Option<u128>) -> (r: Option<String>)
    ensures
        opt_view(r) == written_id(value),
{
    match value {
        Some(id) => Some(uuid_text(id)),
        None => None,
    }
}

pub open spec fn strict(value: i64, label: ColumnLabel) -> Result<u64, RowErrorModel> {
    if value >= 0 {
        Ok(value as u64)
    } else {
        Err(RowErrorModel::Negative(label))
    }
}

/// A number of the ledger. The two databases name a negative one differently.
pub open spec fn counted(value: i64, label: ColumnLabel, backend: StorageBackend) -> Result<
    u64,
    RowErrorModel,
> {
    if value >= 0 {
        Ok(value as u64)
    } else {
        match backend {
            StorageBackend::Sqlite => Err(RowErrorModel::Invalid(label)),
            StorageBackend::Postgres => Err(RowErrorModel::Negative(label)),
        }
    }
}

pub open spec fn counted_opt(
    value: Option<i64>,
    label: ColumnLabel,
    backend: StorageBackend,
) -> Result<Option<u64>, RowErrorModel> {
    match value {
        None => Ok(None),
        Some(n) => match counted(n, label, backend) {
            Ok(x) => Ok(Some(x)),
            Err(error) => Err(error),
        },
    }
}

pub open spec fn strict_positive(value: i64, label: ColumnLabel) -> Result<u64, RowErrorModel> {
    if value > 0 {
        Ok(value as u64)
    } else {
        Err(RowErrorModel::NotPositive(label))
    }
}

pub open spec fn percent(value: i64) -> Result<u8, RowErrorModel> {
    if 0 <= value <= 100 {
        Ok(value as u8)
    } else {
        Err(RowErrorModel::Progress)
    }
}

fn read_nonnegative(value: i64, label: ColumnLabel) -> (r: Result<u64, RowError>)
    ensures
        read_as(r, strict(value, label)),
{
    if value >= 0 {
        Ok(value as u64)
    } else {
        Err(RowError::Negative(label))
    }
}

fn read_counted(value: i64, label: ColumnLabel, backend: StorageBackend) -> (r: Result<
    u64,
    RowError,
>)
    ensures
        read_as(r, counted(value, label, backend)),
{
    if value >= 0 {
        Ok(value as u64)
    } else {
        match backend {
            StorageBackend::Sqlite => Err(RowError::Invalid(label)),
            StorageBackend::Postgres => Err(RowError::Negative(label)),
        }
    }
}

fn read_optional(value: Option<i64>, label: ColumnLabel, backend: StorageBackend) -> (r: Result<
    Option<u64>,
    RowError,
>)
    ensures
        read_as(r, counted_opt(value, label, backend)),
{
    match value {
        None => Ok(None),
        Some(n) => match read_counted(n, label, backend) {
            Ok(x) => Ok(Some(x)),
            Err(error) => Err(error),
        },
    }
}

fn read_positive(value: i64, label: ColumnLabel) -> (r: Result<u64, RowError>)
    ensures
        read_as(r, strict_positive(value, label)),
{
    if value > 0 {
        Ok(value as u64)
    } else {
        Err(RowError::NotPositive(label))
    }
}

fn read_percent(value: i64) -> (r: Result<u8, RowError>)
    ensures
        read_as(r, percent(value)),
{
    if 0 <= value && value <= 100 {
        Ok(value as u8)
    } else {
        Err(RowError::Progress)
    }
}

/// The identifier in the first column.
fn read_id(value: &str) -> (r: Result<u128, RowError>)
    ensures
        read_as(r, id_of(value@)),
{
    match parse_uuid(value) {
        Ok(id) => Ok(id),
        Err(text) => Err(RowError::Identifier { column: 0, text }),
    }
}

/// The identifier in the first column.
pub open spec fn id_of(value: Seq<char>) -> Result<u128, RowErrorModel> {
    match uuid_of(value) {
        Some(id) => Ok(id),
        None => Err(RowErrorModel::Identifier { column: 0, text: uuid_error(value) }),
    }
}

pub open spec fn health_state_column(value: Seq<char>) -> Result<FleetHealthState, RowErrorModel> {
    match health_state_of(value) {
        Some(x) => Ok(x),
        None => Err(RowErrorModel::HealthState),
    }
}

fn read_health_state(value: &str) -> (r: Result<FleetHealthState, RowError>)
    ensures
        read_as(r, health_state_column(value@)),
{
    match FleetHealthState::parse(value) {
        Some(x) => Ok(x),
        None => Err(RowError::HealthState),
    }
}

pub open spec fn record_type_column(value: Seq<char>) -> Result<FleetDnsRecordType, RowErrorModel> {
    match record_type_of(value) {
        Some(x) => Ok(x),
        None => Err(RowErrorModel::RecordType),
    }
}

fn read_record_type(value: &str) -> (r: Result<FleetDnsRecordType, RowError>)
    ensures
        read_as(r, record_type_column(value@)),
{
    match FleetDnsRecordType::parse(value) {
        Some(x) => Ok(x),
        None => Err(RowError::RecordType),
    }
}

pub open spec fn sync_state_column(value: Seq<char>) -> Result<FleetSyncState, RowErrorModel> {
    match sync_state_of(value) {
        Some(x) => Ok(x),
        None => Err(RowErrorModel::SyncState),
    }
}

fn read_sync_state(value: &str) -> (r: Result<FleetSyncState, RowError>)
    ensures
        read_as(r, sync_state_column(value@)),
{
    match FleetSyncState::parse(value) {
        Some(x) => Ok(x),
        None => Err(RowError::SyncState),
    }
}

pub open spec fn conflict_state_column(value: Seq<char>) -> Result<FleetConflictState, RowErrorModel> {
    match conflict_state_of(value) {
        Some(x) => Ok(x),
        None => Err(RowErrorModel::ConflictState),
    }
}

fn read_conflict_state(value: &str) -> (r: Result<FleetConflictState, RowError>)
    ensures
        read_as(r, conflict_state_column(value@)),
{
    match FleetConflictState::parse(value) {
        Some(x) => Ok(x),
        None => Err(RowError::ConflictState),
    }
}

/// A row of the directory of peers.
#[derive(Clone, Debug, PartialEq, Eq)]
pub struct FleetPeerRow {
    pub id: String,
    pub name: String,
    pub url: String,
    pub region: String,
    pub weight: u16,
    pub priority: u16,
    pub token_env: String,
    pub enabled: i64,
    pub created_unix_seconds: i64,
    pub updated_unix_seconds: i64,
}

/// What a [`FleetPeerRow`] says.
pub struct FleetPeerRowModel {
    pub id: Seq<char>,
    pub name: Seq<char>,
    pub url: Seq<char>,
    pub region: Seq<char>,
    pub weight: u16,
    pub priority: u16,
    pub token_env: Seq<char>,
    pub enabled: i64,
    pub created_unix_seconds: i64,
    pub updated_unix_seconds: i64,
}

impl View for FleetPeerRow {
    type V = FleetPeerRowModel;

    open spec fn view(&self) -> FleetPeerRowModel {
        FleetPeerRowModel {
            id: self.id@,
            name: self.name@,
            url: self.url@,
            region: self.region@,
            weight: self.weight,
            priority: self.priority,
            token_env: self.token_env@,
            enabled: self.enabled,
            created_unix_seconds: self.created_unix_seconds,
            updated_unix_seconds: self.updated_unix_seconds,
        }
    }
}

/// A value as it is read from a row.
pub open spec fn peer_of(row: FleetPeerRowModel, token_configured: bool) -> Result<FleetPeerModel, RowErrorModel> {
    match id_of(row.id) {
        Err(error) => Err(error),
        Ok(id) => Ok(
            FleetPeerModel {
                id,
                name: row.name,
                url: row.url,
                region: row.region,
                weight: row.weight,
                priority: row.priority,
                token_env: row.token_env,
                enabled: row.enabled != 0,
                created_unix_seconds: clamped(row.created_unix_seconds),
                updated_unix_seconds: clamped(row.updated_unix_seconds),
                token_configured: token_configured,
            },
        ),
    }
}

impl FleetPeerRow {
    /// Reads a value.
    pub fn read(&self, token_configured: bool) -> (r: Result<FleetPeer, RowError>)
        ensures
            match peer_of(self@, token_configured) {
                Ok(x) => r is Ok && r->Ok_0@ == x,
                Err(error) => r is Err && r->Err_0@ == error,
            },
    {
        let row = self;
        let id: u128 = match read_id(row.id.as_str()) {
            Ok(x) => x,
            Err(error) => {
                return Err(error);
            },
        };
        let r = FleetPeer {
            id,
            name: row.name.clone(),
            url: row.url.clone(),
            region: row.region.clone(),
            weight: row.weight,
            priority: row.priority,
            token_env: row.token_env.clone(),
            enabled: row.enabled != 0,
            created_unix_seconds: nonnegative(row.created_unix_seconds),
            updated_unix_seconds: nonnegative(row.updated_unix_seconds),
            token_configured: token_configured,
        };
        Ok(r)
    }

    /// Writes a value.
    pub fn write(x: &FleetPeer) -> (r: Self)
        ensures
            r@ == peer_row(x@),
    {
        FleetPeerRow {
            id: uuid_text(x.id),
            name: x.name.clone(),
            url: x.url.clone(),
            region: x.region.clone(),
            weight: x.weight,
            priority: x.priority,
            token_env: x.token_env.clone(),
            enabled: to_flag(x.enabled),
            created_unix_seconds: to_column(x.created_unix_seconds),
            updated_unix_seconds: to_column(x.updated_unix_seconds),
        }
    }
}

/// The row that a value is written into.
pub open spec fn peer_row(x: FleetPeerModel) -> FleetPeerRowModel {
    FleetPeerRowModel {
        id: hyphenated(x.id),
        name: x.name,
        url: x.url,
        region: x.region,
        weight: x.weight,
        priority: x.priority,
        token_env: x.token_env,
        enabled: flag(x.enabled),
        created_unix_seconds: written(x.created_unix_seconds),
        updated_unix_seconds: written(x.updated_unix_seconds),
    }
}

/// A peer that was written reads back as it was, as long as its token variable is
/// as it was.
pub proof fn law_peers_read_back(x: FleetPeerModel)
    requires
        x.created_unix_seconds <= MAX_STORED,
        x.updated_unix_seconds <= MAX_STORED,
    ensures
        peer_of(peer_row(x), x.token_configured) == Ok::<FleetPeerModel, RowErrorModel>(x),
{
    law_written_identifier_reads_back(x.id);
}

/// A row of the health of peers.
#[derive(Clone, Debug, PartialEq, Eq)]
pub struct FleetHealthRow {
    pub peer_id: String,
    pub success_threshold: u16,
    pub failure_threshold: u16,
    pub cooldown_seconds: u32,
    pub updated_unix_seconds: i64,
    pub state: String,
    pub consecutive_successes: u16,
    pub consecutive_failures: u16,
    pub last_probe_unix_seconds: Option<i64>,
    pub last_success_unix_seconds: Option<i64>,
    pub last_failure_unix_seconds: Option<i64>,
    pub last_latency_millis: Option<i64>,
    pub last_error_summary: Option<String>,
    pub state_changed_unix_seconds: i64,
    pub cooldown_until_unix_seconds: i64,
    pub last_transition_reason: String,
    pub revision: i64,
    pub active_connections: i64,
    pub bytes_total: i64,
    pub clients: i64,
    pub policies: i64,
}

/// What a [`FleetHealthRow`] says.
pub struct FleetHealthRowModel {
    pub peer_id: Seq<char>,
    pub success_threshold: u16,
    pub failure_threshold: u16,
    pub cooldown_seconds: u32,
    pub updated_unix_seconds: i64,
    pub state: Seq<char>,
    pub consecutive_successes: u16,
    pub consecutive_failures: u16,
    pub last_probe_unix_seconds: Option<i64>,
    pub last_success_unix_seconds: Option<i64>,
    pub last_failure_unix_seconds: Option<i64>,
    pub last_latency_millis: Option<i64>,
    pub last_error_summary: Option<Seq<char>>,
    pub state_changed_unix_seconds: i64,
    pub cooldown_until_unix_seconds: i64,
    pub last_transition_reason: Seq<char>,
    pub revision: i64,
    pub active_connections: i64,
    pub bytes_total: i64,
    pub clients: i64,
    pub policies: i64,
}

impl View for FleetHealthRow {
    type V = FleetHealthRowModel;

    open spec fn view(&self) -> FleetHealthRowModel {
        FleetHealthRowModel {
            peer_id: self.peer_id@,
            success_threshold: self.success_threshold,
            failure_threshold: self.failure_threshold,
            cooldown_seconds: self.cooldown_seconds,
            updated_unix_seconds: self.updated_unix_seconds,
            state: self.state@,
            consecutive_successes: self.consecutive_successes,
            consecutive_failures: self.consecutive_failures,
            last_probe_unix_seconds: self.last_probe_unix_seconds,
            last_success_unix_seconds: self.last_success_unix_seconds,
            last_failure_unix_seconds: self.last_failure_unix_seconds,
            last_latency_millis: self.last_latency_millis,
            last_error_summary: opt_view(self.last_error_summary),
            state_changed_unix_seconds: self.state_changed_unix_seconds,
            cooldown_until_unix_seconds: self.cooldown_until_unix_seconds,
            last_transition_reason: self.last_transition_reason@,
            revision: self.revision,
            active_connections: self.active_connections,
            bytes_total: self.bytes_total,
            clients: self.clients,
            policies: self.policies,
        }
    }
}

/// A value as it is read from a row.
pub open spec fn snapshot_of(row: FleetHealthRowModel) -> Result<FleetHealthSnapshotModel, RowErrorModel> {
    match id_of(row.peer_id) {
        Err(error) => Err(error),
        Ok(peer_id) => match health_state_column(row.state) {
            Err(error) => Err(error),
            Ok(state) => Ok(
                FleetHealthSnapshotModel {
                    config: FleetHealthConfig {
                        peer_id,
                        success_threshold: row.success_threshold,
                        failure_threshold: row.failure_threshold,
                        cooldown_seconds: row.cooldown_seconds,
                        updated_unix_seconds: clamped(row.updated_unix_seconds),
                    },
                    health: FleetPeerHealthModel {
                        peer_id,
                        state,
                        consecutive_successes: row.consecutive_successes,
                        consecutive_failures: row.consecutive_failures,
                        last_probe_unix_seconds: clamped_opt(row.last_probe_unix_seconds),
                        last_success_unix_seconds: clamped_opt(row.last_success_unix_seconds),
                        last_failure_unix_seconds: clamped_opt(row.last_failure_unix_seconds),
                        last_latency_millis: clamped_opt(row.last_latency_millis),
                        last_error_summary: row.last_error_summary,
                        state_changed_unix_seconds: clamped(row.state_changed_unix_seconds),
                        cooldown_until_unix_seconds: clamped(row.cooldown_until_unix_seconds),
                        last_transition_reason: row.last_transition_reason,
                        revision: clamped(row.revision),
                        active_connections: clamped(row.active_connections),
                        bytes_total: clamped(row.bytes_total),
                        clients: clamped(row.clients),
                        policies: clamped(row.policies),
                    },
                },
            ),
        },
    }
}

impl FleetHealthRow {
    /// Reads a value.
    pub fn read(&self) -> (r: Result<FleetHealthSnapshot, RowError>)
        ensures
            match snapshot_of(self@) {
                Ok(x) => r is Ok && r->Ok_0@ == x,
                Err(error) => r is Err && r->Err_0@ == error,
            },
    {
        let row = self;
        let peer_id: u128 = match read_id(row.peer_id.as_str()) {
            Ok(x) => x,
            Err(error) => {
                return Err(error);
            },
        };
        let state: FleetHealthState = match read_health_state(row.state.as_str()) {
            Ok(x) => x,
            Err(error) => {
                return Err(error);
            },
        };
        let r = FleetHealthSnapshot {
            config: FleetHealthConfig {
                peer_id,
                success_threshold: row.success_threshold,
                failure_threshold: row.failure_threshold,
                cooldown_seconds: row.cooldown_seconds,
                updated_unix_seconds: nonnegative(row.updated_unix_seconds),
            },
            health: FleetPeerHealth {
                peer_id,
                state,
                consecutive_successes: row.consecutive_successes,
                consecutive_failures: row.consecutive_failures,
                last_probe_unix_seconds: optional_nonnegative(row.last_probe_unix_seconds),
                last_success_unix_seconds: optional_nonnegative(row.last_success_unix_seconds),
                last_failure_unix_seconds: optional_nonnegative(row.last_failure_unix_seconds),
                last_latency_millis: optional_nonnegative(row.last_latency_millis),
                last_error_summary: copy_optional(&row.last_error_summary),
                state_changed_unix_seconds: nonnegative(row.state_changed_unix_seconds),
                cooldown_until_unix_seconds: nonnegative(row.cooldown_until_unix_seconds),
                last_transition_reason: row.last_transition_reason.clone(),
                revision: nonnegative(row.revision),
                active_connections: nonnegative(row.active_connections),
                bytes_total: nonnegative(row.bytes_total),
                clients: nonnegative(row.clients),
                policies: nonnegative(row.policies),
            },
        };
        Ok(r)
    }

    /// Writes a value.
    pub fn write(x: &FleetHealthSnapshot) -> (r: Self)
        ensures
            r@ == snapshot_row(x@),
    {
        FleetHealthRow {
            peer_id: uuid_text(x.health.peer_id),
            success_threshold: x.config.success_threshold,
            failure_threshold: x.config.failure_threshold,
            cooldown_seconds: x.config.cooldown_seconds,
            updated_unix_seconds: to_column(x.config.updated_unix_seconds),
            state: x.health.state.as_str().to_owned(),
            consecutive_successes: x.health.consecutive_successes,
            consecutive_failures: x.health.consecutive_failures,
            last_probe_unix_seconds: to_optional_column(x.health.last_probe_unix_seconds),
            last_success_unix_seconds: to_optional_column(x.health.last_success_unix_seconds),
            last_failure_unix_seconds: to_optional_column(x.health.last_failure_unix_seconds),
            last_latency_millis: to_optional_column(x.health.last_latency_millis),
            last_error_summary: copy_optional(&x.health.last_error_summary),
            state_changed_unix_seconds: to_column(x.health.state_changed_unix_seconds),
            cooldown_until_unix_seconds: to_column(x.health.cooldown_until_unix_seconds),
            last_transition_reason: x.health.last_transition_reason.clone(),
            revision: to_column(x.health.revision),
            active_connections: to_column(x.health.active_connections),
            bytes_total: to_column(x.health.bytes_total),
            clients: to_column(x.health.clients),
            policies: to_column(x.health.policies),
        }
    }
}

/// The row that a value is written into.
pub open spec fn snapshot_row(x: FleetHealthSnapshotModel) -> FleetHealthRowModel {
    FleetHealthRowModel {
        peer_id: hyphenated(x.health.peer_id),
        success_threshold: x.config.success_threshold,
        failure_threshold: x.config.failure_threshold,
        cooldown_seconds: x.config.cooldown_seconds,
        updated_unix_seconds: written(x.config.updated_unix_seconds),
        state: health_state_name(x.health.state),
        consecutive_successes: x.health.consecutive_successes,
        consecutive_failures: x.health.consecutive_failures,
        last_probe_unix_seconds: written_opt(x.health.last_probe_unix_seconds),
        last_success_unix_seconds: written_opt(x.health.last_success_unix_seconds),
        last_failure_unix_seconds: written_opt(x.health.last_failure_unix_seconds),
        last_latency_millis: written_opt(x.health.last_latency_millis),
        last_error_summary: x.health.last_error_summary,
        state_changed_unix_seconds: written(x.health.state_changed_unix_seconds),
        cooldown_until_unix_seconds: written(x.health.cooldown_until_unix_seconds),
        last_transition_reason: x.health.last_transition_reason,
        revision: written(x.health.revision),
        active_connections: written(x.health.active_connections),
        bytes_total: written(x.health.bytes_total),
        clients: written(x.health.clients),
        policies: written(x.health.policies),
    }
}

/// The health of a peer that was written reads back as it was.
pub proof fn law_snapshots_read_back(x: FleetHealthSnapshotModel)
    requires
        x.config.updated_unix_seconds <= MAX_STORED,
        fits(x.health.last_probe_unix_seconds),
        fits(x.health.last_success_unix_seconds),
        fits(x.health.last_failure_unix_seconds),
        fits(x.health.last_latency_millis),
        x.health.state_changed_unix_seconds <= MAX_STORED,
        x.health.cooldown_until_unix_seconds <= MAX_STORED,
        x.health.revision <= MAX_STORED,
        x.health.active_connections <= MAX_STORED,
        x.health.bytes_total <= MAX_STORED,
        x.health.clients <= MAX_STORED,
        x.health.policies <= MAX_STORED,
        x.config.peer_id == x.health.peer_id,
    ensures
        snapshot_of(snapshot_row(x)) == Ok::<FleetHealthSnapshotModel, RowErrorModel>(x),
{
    law_written_identifier_reads_back(x.health.peer_id);
    law_health_state_reads_back(x.health.state);
}

/// A row of the DNS failovers. Their targets have rows of their own.
#[derive(Clone, Debug, PartialEq, Eq)]
pub struct FleetDnsFailoverRow {
    pub id: String,
    pub name: String,
    pub hostname: String,
    pub record_type: String,
    pub zone_id: String,
    pub record_id: String,
    pub token_env: String,
    pub ttl: u32,
    pub proxied: i64,
    pub enabled: i64,
    pub reconcile_required: i64,
    pub cooldown_seconds: u32,
    pub frozen: i64,
    pub freeze_reason: Option<String>,
    pub current_peer_id: Option<String>,
    pub current_target: Option<String>,
    pub last_switch_unix_seconds: Option<i64>,
    pub next_change_not_before_unix_seconds: i64,
    pub last_switch_reason: Option<String>,
    pub last_error_summary: Option<String>,
    pub pending_operation_id: Option<String>,
    pub pending_peer_id: Option<String>,
    pub pending_target: Option<String>,
    pub pending_reason: Option<String>,
    pub pending_started_unix_seconds: Option<i64>,
    pub pending_lease_until_unix_seconds: Option<i64>,
    pub created_unix_seconds: i64,
    pub updated_unix_seconds: i64,
}

/// What a [`FleetDnsFailoverRow`] says.
pub struct FleetDnsFailoverRowModel {
    pub id: Seq<char>,
    pub name: Seq<char>,
    pub hostname: Seq<char>,
    pub record_type: Seq<char>,
    pub zone_id: Seq<char>,
    pub record_id: Seq<char>,
    pub token_env: Seq<char>,
    pub ttl: u32,
    pub proxied: i64,
    pub enabled: i64,
    pub reconcile_required: i64,
    pub cooldown_seconds: u32,
    pub frozen: i64,
    pub freeze_reason: Option<Seq<char>>,
    pub current_peer_id: Option<Seq<char>>,
    pub current_target: Option<Seq<char>>,
    pub last_switch_unix_seconds: Option<i64>,
    pub next_change_not_before_unix_seconds: i64,
    pub last_switch_reason: Option<Seq<char>>,
    pub last_error_summary: Option<Seq<char>>,
    pub pending_operation_id: Option<Seq<char>>,
    pub pending_peer_id: Option<Seq<char>>,
    pub pending_target: Option<Seq<char>>,
    pub pending_reason: Option<Seq<char>>,
    pub pending_started_unix_seconds: Option<i64>,
    pub pending_lease_until_unix_seconds: Option<i64>,
    pub created_unix_seconds: i64,
    pub updated_unix_seconds: i64,
}

impl View for FleetDnsFailoverRow {
    type V = FleetDnsFailoverRowModel;

    open spec fn view(&self) -> FleetDnsFailoverRowModel {
        FleetDnsFailoverRowModel {
            id: self.id@,
            name: self.name@,
            hostname: self.hostname@,
            record_type: self.record_type@,
            zone_id: self.zone_id@,
            record_id: self.record_id@,
            token_env: self.token_env@,
            ttl: self.ttl,
            proxied: self.proxied,
            enabled: self.enabled,
            reconcile_required: self.reconcile_required,
            cooldown_seconds: self.cooldown_seconds,
            frozen: self.frozen,
            freeze_reason: opt_view(self.freeze_reason),
            current_peer_id: opt_view(self.current_peer_id),
            current_target: opt_view(self.current_target),
            last_switch_unix_seconds: self.last_switch_unix_seconds,
            next_change_not_before_unix_seconds: self.next_change_not_before_unix_seconds,
            last_switch_reason: opt_view(self.last_switch_reason),
            last_error_summary: opt_view(self.last_error_summary),
            pending_operation_id: opt_view(self.pending_operation_id),
            pending_peer_id: opt_view(self.pending_peer_id),
            pending_target: opt_view(self.pending_target),
            pending_reason: opt_view(self.pending_reason),
            pending_started_unix_seconds: self.pending_started_unix_seconds,
            pending_lease_until_unix_seconds: self.pending_lease_until_unix_seconds,
            created_unix_seconds: self.created_unix_seconds,
            updated_unix_seconds: self.updated_unix_seconds,
        }
    }
}

/// A value as it is read from a row.
pub open spec fn failover_of(row: FleetDnsFailoverRowModel, token_configured: bool) -> Result<FleetDnsFailoverModel, RowErrorModel> {
    match id_of(row.id) {
        Err(error) => Err(error),
        Ok(id) => match record_type_column(row.record_type) {
            Err(error) => Err(error),
            Ok(record_type) => match id_opt(row.current_peer_id, 14) {
                Err(error) => Err(error),
                Ok(current_peer_id) => match id_opt(row.pending_operation_id, 20) {
                    Err(error) => Err(error),
                    Ok(pending_operation_id) => match id_opt(row.pending_peer_id, 21) {
                        Err(error) => Err(error),
                        Ok(pending_peer_id) => Ok(
                            FleetDnsFailoverModel {
                                id,
                                name: row.name,
                                hostname: row.hostname,
                                record_type,
                                zone_id: row.zone_id,
                                record_id: row.record_id,
                                token_env: row.token_env,
                                ttl: row.ttl,
                                proxied: row.proxied != 0,
                                enabled: row.enabled != 0,
                                reconcile_required: row.reconcile_required != 0,
                                cooldown_seconds: row.cooldown_seconds,
                                frozen: row.frozen != 0,
                                freeze_reason: row.freeze_reason,
                                current_peer_id,
                                current_target: row.current_target,
                                last_switch_unix_seconds: clamped_opt(row.last_switch_unix_seconds),
                                next_change_not_before_unix_seconds: clamped(row.next_change_not_before_unix_seconds),
                                last_switch_reason: row.last_switch_reason,
                                last_error_summary: row.last_error_summary,
                                pending_operation_id,
                                pending_peer_id,
                                pending_target: row.pending_target,
                                pending_reason: row.pending_reason,
                                pending_started_unix_seconds: clamped_opt(row.pending_started_unix_seconds),
                                pending_lease_until_unix_seconds: clamped_opt(row.pending_lease_until_unix_seconds),
                                created_unix_seconds: clamped(row.created_unix_seconds),
                                updated_unix_seconds: clamped(row.updated_unix_seconds),
                                token_configured: token_configured,
                                targets: Seq::empty(),
                            },
                        ),
                    },
                },
            },
        },
    }
}

impl FleetDnsFailoverRow {
    /// Reads a value.
    pub fn read(&self, token_configured: bool) -> (r: Result<FleetDnsFailover, RowError>)
        ensures
            match failover_of(self@, token_configured) {
                Ok(x) => r is Ok && r->Ok_0@ == x,
                Err(error) => r is Err && r->Err_0@ == error,
            },
    {
        let row = self;
        let id: u128 = match read_id(row.id.as_str()) {
            Ok(x) => x,
            Err(error) => {
                return Err(error);
            },
        };
        let record_type: FleetDnsRecordType = match read_record_type(row.record_type.as_str()) {
            Ok(x) => x,
            Err(error) => {
                return Err(error);
            },
        };
        let current_peer_id: Option<u128> = match optional_uuid(&row.current_peer_id, 14) {
            Ok(x) => x,
            Err(error) => {
                return Err(error);
            },
        };
        let pending_operation_id: Option<u128> = match optional_uuid(&row.pending_operation_id, 20) {
            Ok(x) => x,
            Err(error) => {
                return Err(error);
            },
        };
        let pending_peer_id: Option<u128> = match optional_uuid(&row.pending_peer_id, 21) {
            Ok(x) => x,
            Err(error) => {
                return Err(error);
            },
        };
        let r = FleetDnsFailover {
            id,
            name: row.name.clone(),
            hostname: row.hostname.clone(),
            record_type,
            zone_id: row.zone_id.clone(),
            record_id: row.record_id.clone(),
            token_env: row.token_env.clone(),
            ttl: row.ttl,
            proxied: row.proxied != 0,
            enabled: row.enabled != 0,
            reconcile_required: row.reconcile_required != 0,
            cooldown_seconds: row.cooldown_seconds,
            frozen: row.frozen != 0,
            freeze_reason: copy_optional(&row.freeze_reason),
            current_peer_id,
            current_target: copy_optional(&row.current_target),
            last_switch_unix_seconds: optional_nonnegative(row.last_switch_unix_seconds),
            next_change_not_before_unix_seconds: nonnegative(row.next_change_not_before_unix_seconds),
            last_switch_reason: copy_optional(&row.last_switch_reason),
            last_error_summary: copy_optional(&row.last_error_summary),
            pending_operation_id,
            pending_peer_id,
            pending_target: copy_optional(&row.pending_target),
            pending_reason: copy_optional(&row.pending_reason),
            pending_started_unix_seconds: optional_nonnegative(row.pending_started_unix_seconds),
            pending_lease_until_unix_seconds: optional_nonnegative(row.pending_lease_until_unix_seconds),
            created_unix_seconds: nonnegative(row.created_unix_seconds),
            updated_unix_seconds: nonnegative(row.updated_unix_seconds),
            token_configured: token_configured,
            targets: Vec::new(),
        };
        assert(r@.targets =~= Seq::empty());
        Ok(r)
    }

    /// Writes a value.
    pub fn write(x: &FleetDnsFailover) -> (r: Self)
        ensures
            r@ == failover_row(x@),
    {
        FleetDnsFailoverRow {
            id: uuid_text(x.id),
            name: x.name.clone(),
            hostname: x.hostname.clone(),
            record_type: x.record_type.as_str().to_owned(),
            zone_id: x.zone_id.clone(),
            record_id: x.record_id.clone(),
            token_env: x.token_env.clone(),
            ttl: x.ttl,
            proxied: to_flag(x.proxied),
            enabled: to_flag(x.enabled),
            reconcile_required: to_flag(x.reconcile_required),
            cooldown_seconds: x.cooldown_seconds,
            frozen: to_flag(x.frozen),
            freeze_reason: copy_optional(&x.freeze_reason),
            current_peer_id: optional_text(x.current_peer_id),
            current_target: copy_optional(&x.current_target),
            last_switch_unix_seconds: to_optional_column(x.last_switch_unix_seconds),
            next_change_not_before_unix_seconds: to_column(x.next_change_not_before_unix_seconds),
            last_switch_reason: copy_optional(&x.last_switch_reason),
            last_error_summary: copy_optional(&x.last_error_summary),
            pending_operation_id: optional_text(x.pending_operation_id),
            pending_peer_id: optional_text(x.pending_peer_id),
            pending_target: copy_optional(&x.pending_target),
            pending_reason: copy_optional(&x.pending_reason),
            pending_started_unix_seconds: to_optional_column(x.pending_started_unix_seconds),
            pending_lease_until_unix_seconds: to_optional_column(x.pending_lease_until_unix_seconds),
            created_unix_seconds: to_column(x.created_unix_seconds),
            updated_unix_seconds: to_column(x.updated_unix_seconds),
        }
    }
}

/// The row that a value is written into.
pub open spec fn failover_row(x: FleetDnsFailoverModel) -> FleetDnsFailoverRowModel {
    FleetDnsFailoverRowModel {
        id: hyphenated(x.id),
        name: x.name,
        hostname: x.hostname,
        record_type: record_type_name(x.record_type),
        zone_id: x.zone_id,
        record_id: x.record_id,
        token_env: x.token_env,
        ttl: x.ttl,
        proxied: flag(x.proxied),
        enabled: flag(x.enabled),
        reconcile_required: flag(x.reconcile_required),
        cooldown_seconds: x.cooldown_seconds,
        frozen: flag(x.frozen),
        freeze_reason: x.freeze_reason,
        current_peer_id: written_id(x.current_peer_id),
        current_target: x.current_target,
        last_switch_unix_seconds: written_opt(x.last_switch_unix_seconds),
        next_change_not_before_unix_seconds: written(x.next_change_not_before_unix_seconds),
        last_switch_reason: x.last_switch_reason,
        last_error_summary: x.last_error_summary,
        pending_operation_id: written_id(x.pending_operation_id),
        pending_peer_id: written_id(x.pending_peer_id),
        pending_target: x.pending_target,
        pending_reason: x.pending_reason,
        pending_started_unix_seconds: written_opt(x.pending_started_unix_seconds),
        pending_lease_until_unix_seconds: written_opt(x.pending_lease_until_unix_seconds),
        created_unix_seconds: written(x.created_unix_seconds),
        updated_unix_seconds: written(x.updated_unix_seconds),
    }
}

/// A failover that was written reads back as it was, but for its targets.
pub proof fn law_failovers_read_back(x: FleetDnsFailoverModel)
    requires
        fits(x.last_switch_unix_seconds),
        x.next_change_not_before_unix_seconds <= MAX_STORED,
        fits(x.pending_started_unix_seconds),
        fits(x.pending_lease_until_unix_seconds),
        x.created_unix_seconds <= MAX_STORED,
        x.updated_unix_seconds <= MAX_STORED,
    ensures
        failover_of(failover_row(x), x.token_configured) == Ok::<FleetDnsFailoverModel, RowErrorModel>(
            (FleetDnsFailoverModel { targets: Seq::empty(), ..x }),
        ),
{
    law_written_identifier_reads_back(x.id);
    law_record_type_reads_back(x.record_type);
    if x.current_peer_id is Some {
        law_written_identifier_reads_back(x.current_peer_id->0);
    }
    if x.pending_operation_id is Some {
        law_written_identifier_reads_back(x.pending_operation_id->0);
    }
    if x.pending_peer_id is Some {
        law_written_identifier_reads_back(x.pending_peer_id->0);
    }
}

/// A row of the generations.
#[derive(Clone, Debug, PartialEq, Eq)]
pub struct FleetGenerationRow {
    pub source_instance_id: String,
    pub generation: i64,
    pub revision: String,
    pub owner_instance_id: String,
    pub owner_incarnation_id: String,
    pub fencing_token: i64,
    pub resource_count: i64,
    pub sync_state: String,
    pub sync_progress: i64,
    pub updated_unix_seconds: i64,
}

/// What a [`FleetGenerationRow`] says.
pub struct FleetGenerationRowModel {
    pub source_instance_id: Seq<char>,
    pub generation: i64,
    pub revision: Seq<char>,
    pub owner_instance_id: Seq<char>,
    pub owner_incarnation_id: Seq<char>,
    pub fencing_token: i64,
    pub resource_count: i64,
    pub sync_state: Seq<char>,
    pub sync_progress: i64,
    pub updated_unix_seconds: i64,
}

impl View for FleetGenerationRow {
    type V = FleetGenerationRowModel;

    open spec fn view(&self) -> FleetGenerationRowModel {
        FleetGenerationRowModel {
            source_instance_id: self.source_instance_id@,
            generation: self.generation,
            revision: self.revision@,
            owner_instance_id: self.owner_instance_id@,
            owner_incarnation_id: self.owner_incarnation_id@,
            fencing_token: self.fencing_token,
            resource_count: self.resource_count,
            sync_state: self.sync_state@,
            sync_progress: self.sync_progress,
            updated_unix_seconds: self.updated_unix_seconds,
        }
    }
}

/// A value as it is read from a row.
pub open spec fn generation_of(row: FleetGenerationRowModel, backend: StorageBackend) -> Result<
    FleetGenerationModel,
    RowErrorModel,
> {
    match counted(row.generation, ColumnLabel::Generation, backend) {
        Err(error) => Err(error),
        Ok(generation) => match strict_positive(row.fencing_token, ColumnLabel::FencingToken) {
            Err(error) => Err(error),
            Ok(fencing_token) => match counted(row.resource_count, ColumnLabel::ResourceCount, backend) {
                Err(error) => Err(error),
                Ok(resource_count) => match sync_state_column(row.sync_state) {
                    Err(error) => Err(error),
                    Ok(sync_state) => match percent(row.sync_progress) {
                        Err(error) => Err(error),
                        Ok(sync_progress) => match counted(row.updated_unix_seconds, ColumnLabel::UpdateTime, backend) {
                            Err(error) => Err(error),
                            Ok(updated_unix_seconds) => Ok(
                                FleetGenerationModel {
                                    source_instance_id: row.source_instance_id,
                                    generation,
                                    revision: row.revision,
                                    owner_instance_id: row.owner_instance_id,
                                    owner_incarnation_id: row.owner_incarnation_id,
                                    fencing_token,
                                    resource_count,
                                    sync_state,
                                    sync_progress,
                                    updated_unix_seconds,
                                },
                            ),
                        },
                    },
                },
            },
        },
    }
}

impl FleetGenerationRow {
    /// Reads a value.
    pub fn read(&self, backend: StorageBackend) -> (r: Result<FleetGeneration, RowError>)
        ensures
            match generation_of(self@, backend) {
                Ok(x) => r is Ok && r->Ok_0@ == x,
                Err(error) => r is Err && r->Err_0@ == error,
            },
    {
        let row = self;
        let generation: u64 = match read_counted(row.generation, ColumnLabel::Generation, backend) {
            Ok(x) => x,
            Err(error) => {
                return Err(error);
            },
        };
        let fencing_token: u64 = match read_positive(row.fencing_token, ColumnLabel::FencingToken) {
            Ok(x) => x,
            Err(error) => {
                return Err(error);
            },
        };
        let resource_count: u64 = match read_counted(row.resource_count, ColumnLabel::ResourceCount, backend) {
            Ok(x) => x,
            Err(error) => {
                return Err(error);
            },
        };
        let sync_state: FleetSyncState = match read_sync_state(row.sync_state.as_str()) {
            Ok(x) => x,
            Err(error) => {
                return Err(error);
            },
        };
        let sync_progress: u8 = match read_percent(row.sync_progress) {
            Ok(x) => x,
            Err(error) => {
                return Err(error);
            },
        };
        let updated_unix_seconds: u64 = match read_counted(row.updated_unix_seconds, ColumnLabel::UpdateTime, backend) {
            Ok(x) => x,
            Err(error) => {
                return Err(error);
            },
        };
        let r = FleetGeneration {
            source_instance_id: row.source_instance_id.clone(),
            generation,
            revision: row.revision.clone(),
            owner_instance_id: row.owner_instance_id.clone(),
            owner_incarnation_id: row.owner_incarnation_id.clone(),
            fencing_token,
            resource_count,
            sync_state,
            sync_progress,
            updated_unix_seconds,
        };
        Ok(r)
    }

    /// Writes a value whose numbers the columns hold.
    pub fn write(x: &FleetGeneration) -> (r: Result<Self, &'static str>)
        ensures
            if generation_fits(x@) {
                r is Ok && r->Ok_0@ == generation_row(x@)
            } else {
                r is Err && r->Err_0@ == "value exceeds database integer range"@
            },
    {
        if x.generation > MAX_STORED || x.fencing_token > MAX_STORED || x.resource_count > MAX_STORED || x.updated_unix_seconds > MAX_STORED {
            return Err("value exceeds database integer range");
        }
        let row = FleetGenerationRow {
            source_instance_id: x.source_instance_id.clone(),
            generation: to_column(x.generation),
            revision: x.revision.clone(),
            owner_instance_id: x.owner_instance_id.clone(),
            owner_incarnation_id: x.owner_incarnation_id.clone(),
            fencing_token: to_column(x.fencing_token),
            resource_count: to_column(x.resource_count),
            sync_state: x.sync_state.as_str().to_owned(),
            sync_progress: x.sync_progress as i64,
            updated_unix_seconds: to_column(x.updated_unix_seconds),
        };
        Ok(row)
    }
}

/// Whether the columns hold the numbers of a value.
pub open spec fn generation_fits(x: FleetGenerationModel) -> bool {
    &&& x.generation <= MAX_STORED
    &&& x.fencing_token <= MAX_STORED
    &&& x.resource_count <= MAX_STORED
    &&& x.updated_unix_seconds <= MAX_STORED
}

/// The row that a value is written into.
pub open spec fn generation_row(x: FleetGenerationModel) -> FleetGenerationRowModel {
    FleetGenerationRowModel {
        source_instance_id: x.source_instance_id,
        generation: written(x.generation),
        revision: x.revision,
        owner_instance_id: x.owner_instance_id,
        owner_incarnation_id: x.owner_incarnation_id,
        fencing_token: written(x.fencing_token),
        resource_count: written(x.resource_count),
        sync_state: sync_state_name(x.sync_state),
        sync_progress: x.sync_progress as i64,
        updated_unix_seconds: written(x.updated_unix_seconds),
    }
}

/// A generation that was written reads back as it was.
pub proof fn law_generations_read_back(x: FleetGenerationModel, backend: StorageBackend)
    requires
        generation_fits(x),
        0 < x.fencing_token,
        x.sync_progress <= 100,
    ensures
        generation_of(generation_row(x), backend) == Ok::<FleetGenerationModel, RowErrorModel>(x),
{
    law_states_read_back(x.sync_state, FleetConflictState::Open);
}

/// A row of the conflicts.
#[derive(Clone, Debug, PartialEq, Eq)]
pub struct FleetConflictRow {
    pub conflict_id: String,
    pub source_instance_id: String,
    pub generation: i64,
    pub resource_kind: String,
    pub resource_id: String,
    pub owner_instance_id: Option<String>,
    pub conflict_code: String,
    pub detail_summary: String,
    pub state: String,
    pub detected_unix_seconds: i64,
    pub resolved_unix_seconds: Option<i64>,
    pub resolution: Option<String>,
}

/// What a [`FleetConflictRow`] says.
pub struct FleetConflictRowModel {
    pub conflict_id: Seq<char>,
    pub source_instance_id: Seq<char>,
    pub generation: i64,
    pub resource_kind: Seq<char>,
    pub resource_id: Seq<char>,
    pub owner_instance_id: Option<Seq<char>>,
    pub conflict_code: Seq<char>,
    pub detail_summary: Seq<char>,
    pub state: Seq<char>,
    pub detected_unix_seconds: i64,
    pub resolved_unix_seconds: Option<i64>,
    pub resolution: Option<Seq<char>>,
}

impl View for FleetConflictRow {
    type V = FleetConflictRowModel;

    open spec fn view(&self) -> FleetConflictRowModel {
        FleetConflictRowModel {
            conflict_id: self.conflict_id@,
            source_instance_id: self.source_instance_id@,
            generation: self.generation,
            resource_kind: self.resource_kind@,
            resource_id: self.resource_id@,
            owner_instance_id: opt_view(self.owner_instance_id),
            conflict_code: self.conflict_code@,
            detail_summary: self.detail_summary@,
            state: self.state@,
            detected_unix_seconds: self.detected_unix_seconds,
            resolved_unix_seconds: self.resolved_unix_seconds,
            resolution: opt_view(self.resolution),
        }
    }
}

/// A value as it is read from a row.
pub open spec fn conflict_of(row: FleetConflictRowModel, backend: StorageBackend) -> Result<
    FleetConflictModel,
    RowErrorModel,
> {
    match id_of(row.conflict_id) {
        Err(error) => Err(error),
        Ok(conflict_id) => match counted(row.generation, ColumnLabel::ConflictGeneration, backend) {
            Err(error) => Err(error),
            Ok(generation) => match conflict_state_column(row.state) {
                Err(error) => Err(error),
                Ok(state) => match counted(row.detected_unix_seconds, ColumnLabel::ConflictTime, backend) {
                    Err(error) => Err(error),
                    Ok(detected_unix_seconds) => match counted_opt(row.resolved_unix_seconds, ColumnLabel::ResolutionTime, backend) {
                        Err(error) => Err(error),
                        Ok(resolved_unix_seconds) => Ok(
                            FleetConflictModel {
                                conflict_id,
                                source_instance_id: row.source_instance_id,
                                generation,
                                resource_kind: row.resource_kind,
                                resource_id: row.resource_id,
                                owner_instance_id: row.owner_instance_id,
                                conflict_code: row.conflict_code,
                                detail_summary: row.detail_summary,
                                state,
                                detected_unix_seconds,
                                resolved_unix_seconds,
                                resolution: row.resolution,
                            },
                        ),
                    },
                },
            },
        },
    }
}

impl FleetConflictRow {
    /// Reads a value.
    pub fn read(&self, backend: StorageBackend) -> (r: Result<FleetConflict, RowError>)
        ensures
            match conflict_of(self@, backend) {
                Ok(x) => r is Ok && r->Ok_0@ == x,
                Err(error) => r is Err && r->Err_0@ == error,
            },
    {
        let row = self;
        let conflict_id: u128 = match read_id(row.conflict_id.as_str()) {
            Ok(x) => x,
            Err(error) => {
                return Err(error);
            },
        };
        let generation: u64 = match read_counted(row.generation, ColumnLabel::ConflictGeneration, backend) {
            Ok(x) => x,
            Err(error) => {
                return Err(error);
            },
        };
        let state: FleetConflictState = match read_conflict_state(row.state.as_str()) {
            Ok(x) => x,
            Err(error) => {
                return Err(error);
            },
        };
        let detected_unix_seconds: u64 = match read_counted(row.detected_unix_seconds, ColumnLabel::ConflictTime, backend) {
            Ok(x) => x,
            Err(error) => {
                return Err(error);
            },
        };
        let resolved_unix_seconds: Option<u64> = match read_optional(row.resolved_unix_seconds, ColumnLabel::ResolutionTime, backend) {
            Ok(x) => x,
            Err(error) => {
                return Err(error);
            },
        };
        let r = FleetConflict {
            conflict_id,
            source_instance_id: row.source_instance_id.clone(),
            generation,
            resource_kind: row.resource_kind.clone(),
            resource_id: row.resource_id.clone(),
            owner_instance_id: copy_optional(&row.owner_instance_id),
            conflict_code: row.conflict_code.clone(),
            detail_summary: row.detail_summary.clone(),
            state,
            detected_unix_seconds,
            resolved_unix_seconds,
            resolution: copy_optional(&row.resolution),
        };
        Ok(r)
    }

    /// Writes a value whose numbers the columns hold.
    pub fn write(x: &FleetConflict) -> (r: Result<Self, &'static str>)
        ensures
            if conflict_fits(x@) {
                r is Ok && r->Ok_0@ == conflict_row(x@)
            } else {
                r is Err && r->Err_0@ == "value exceeds database integer range"@
            },
    {
        if x.generation > MAX_STORED || x.detected_unix_seconds > MAX_STORED || !optional_fits(x.resolved_unix_seconds) {
            return Err("value exceeds database integer range");
        }
        let row = FleetConflictRow {
            conflict_id: uuid_text(x.conflict_id),
            source_instance_id: x.source_instance_id.clone(),
            generation: to_column(x.generation),
            resource_kind: x.resource_kind.clone(),
            resource_id: x.resource_id.clone(),
            owner_instance_id: copy_optional(&x.owner_instance_id),
            conflict_code: x.conflict_code.clone(),
            detail_summary: x.detail_summary.clone(),
            state: x.state.as_str().to_owned(),
            detected_unix_seconds: to_column(x.detected_unix_seconds),
            resolved_unix_seconds: to_optional_column(x.resolved_unix_seconds),
            resolution: copy_optional(&x.resolution),
        };
        Ok(row)
    }
}

/// Whether the columns hold the numbers of a value.
pub open spec fn conflict_fits(x: FleetConflictModel) -> bool {
    &&& x.generation <= MAX_STORED
    &&& x.detected_unix_seconds <= MAX_STORED
    &&& fits(x.resolved_unix_seconds)
}

/// The row that a value is written into.
pub open spec fn conflict_row(x: FleetConflictModel) -> FleetConflictRowModel {
    FleetConflictRowModel {
        conflict_id: hyphenated(x.conflict_id),
        source_instance_id: x.source_instance_id,
        generation: written(x.generation),
        resource_kind: x.resource_kind,
        resource_id: x.resource_id,
        owner_instance_id: x.owner_instance_id,
        conflict_code: x.conflict_code,
        detail_summary: x.detail_summary,
        state: conflict_state_name(x.state),
        detected_unix_seconds: written(x.detected_unix_seconds),
        resolved_unix_seconds: written_opt(x.resolved_unix_seconds),
        resolution: x.resolution,
    }
}

/// A conflict that was written reads back as it was.
pub proof fn law_conflicts_read_back(x: FleetConflictModel, backend: StorageBackend)
    requires
        conflict_fits(x),
    ensures
        conflict_of(conflict_row(x), backend) == Ok::<FleetConflictModel, RowErrorModel>(x),
{
    law_written_identifier_reads_back(x.conflict_id);
    law_states_read_back(FleetSyncState::Pending, x.state);
}

/// The row of the leader.
#[derive(Clone, Debug, PartialEq, Eq)]
pub struct LeaderRow {
    pub instance_id: String,
    pub incarnation_id: String,
    pub fencing_token: i64,
    pub acquired_unix_seconds: i64,
    pub renewed_unix_seconds: i64,
    pub lease_until_unix_seconds: i64,
}

/// What a [`LeaderRow`] says.
pub struct LeaderRowModel {
    pub instance_id: Seq<char>,
    pub incarnation_id: Seq<char>,
    pub fencing_token: i64,
    pub acquired_unix_seconds: i64,
    pub renewed_unix_seconds: i64,
    pub lease_until_unix_seconds: i64,
}

impl View for LeaderRow {
    type V = LeaderRowModel;

    open spec fn view(&self) -> LeaderRowModel {
        LeaderRowModel {
            instance_id: self.instance_id@,
            incarnation_id: self.incarnation_id@,
            fencing_token: self.fencing_token,
            acquired_unix_seconds: self.acquired_unix_seconds,
            renewed_unix_seconds: self.renewed_unix_seconds,
            lease_until_unix_seconds: self.lease_until_unix_seconds,
        }
    }
}

/// A value as it is read from a row.
pub open spec fn leader_of(row: LeaderRowModel) -> Result<LeadershipLeaseModel, RowErrorModel> {
    match strict_positive(row.fencing_token, ColumnLabel::LeaderToken) {
        Err(error) => Err(error),
        Ok(fencing_token) => match strict(row.acquired_unix_seconds, ColumnLabel::LeaderAcquired) {
            Err(error) => Err(error),
            Ok(acquired_unix_seconds) => match strict(row.renewed_unix_seconds, ColumnLabel::LeaderRenewed) {
                Err(error) => Err(error),
                Ok(renewed_unix_seconds) => match strict(row.lease_until_unix_seconds, ColumnLabel::LeaderLease) {
                    Err(error) => Err(error),
                    Ok(lease_until_unix_seconds) => Ok(
                        LeadershipLeaseModel {
                            instance_id: row.instance_id,
                            incarnation_id: row.incarnation_id,
                            fencing_token,
                            acquired_unix_seconds,
                            renewed_unix_seconds,
                            lease_until_unix_seconds,
                        },
                    ),
                },
            },
        },
    }
}

impl LeaderRow {
    /// Reads a value.
    pub fn read(&self) -> (r: Result<LeadershipLease, RowError>)
        ensures
            match leader_of(self@) {
                Ok(x) => r is Ok && r->Ok_0@ == x,
                Err(error) => r is Err && r->Err_0@ == error,
            },
    {
        let row = self;
        let fencing_token: u64 = match read_positive(row.fencing_token, ColumnLabel::LeaderToken) {
            Ok(x) => x,
            Err(error) => {
                return Err(error);
            },
        };
        let acquired_unix_seconds: u64 = match read_nonnegative(row.acquired_unix_seconds, ColumnLabel::LeaderAcquired) {
            Ok(x) => x,
            Err(error) => {
                return Err(error);
            },
        };
        let renewed_unix_seconds: u64 = match read_nonnegative(row.renewed_unix_seconds, ColumnLabel::LeaderRenewed) {
            Ok(x) => x,
            Err(error) => {
                return Err(error);
            },
        };
        let lease_until_unix_seconds: u64 = match read_nonnegative(row.lease_until_unix_seconds, ColumnLabel::LeaderLease) {
            Ok(x) => x,
            Err(error) => {
                return Err(error);
            },
        };
        let r = LeadershipLease {
            instance_id: row.instance_id.clone(),
            incarnation_id: row.incarnation_id.clone(),
            fencing_token,
            acquired_unix_seconds,
            renewed_unix_seconds,
            lease_until_unix_seconds,
        };
        Ok(r)
    }

    /// Writes a value whose numbers the columns hold.
    pub fn write(x: &LeadershipLease) -> (r: Result<Self, &'static str>)
        ensures
            if leader_fits(x@) {
                r is Ok && r->Ok_0@ == leader_row(x@)
            } else {
                r is Err && r->Err_0@ == "value exceeds database integer range"@
            },
    {
        if x.fencing_token > MAX_STORED || x.acquired_unix_seconds > MAX_STORED || x.renewed_unix_seconds > MAX_STORED || x.lease_until_unix_seconds > MAX_STORED {
            return Err("value exceeds database integer range");
        }
        let row = LeaderRow {
            instance_id: x.instance_id.clone(),
            incarnation_id: x.incarnation_id.clone(),
            fencing_token: to_column(x.fencing_token),
            acquired_unix_seconds: to_column(x.acquired_unix_seconds),
            renewed_unix_seconds: to_column(x.renewed_unix_seconds),
            lease_until_unix_seconds: to_column(x.lease_until_unix_seconds),
        };
        Ok(row)
    }
}

/// Whether the columns hold the numbers of a value.
pub open spec fn leader_fits(x: LeadershipLeaseModel) -> bool {
    &&& x.fencing_token <= MAX_STORED
    &&& x.acquired_unix_seconds <= MAX_STORED
    &&& x.renewed_unix_seconds <= MAX_STORED
    &&& x.lease_until_unix_seconds <= MAX_STORED
}

/// The row that a value is written into.
pub open spec fn leader_row(x: LeadershipLeaseModel) -> LeaderRowModel {
    LeaderRowModel {
        instance_id: x.instance_id,
        incarnation_id: x.incarnation_id,
        fencing_token: written(x.fencing_token),
        acquired_unix_seconds: written(x.acquired_unix_seconds),
        renewed_unix_seconds: written(x.renewed_unix_seconds),
        lease_until_unix_seconds: written(x.lease_until_unix_seconds),
    }
}

/// A lease of the leader that was written reads back as it was.
pub proof fn law_leaders_read_back(x: LeadershipLeaseModel)
    requires
        leader_fits(x),
        0 < x.fencing_token,
    ensures
        leader_of(leader_row(x)) == Ok::<LeadershipLeaseModel, RowErrorModel>(x),
{
    
}

/// A row of the members.
#[derive(Clone, Debug, PartialEq, Eq)]
pub struct HaMemberRow {
    pub instance_id: String,
    pub incarnation_id: String,
    pub started_unix_seconds: i64,
    pub last_seen_unix_seconds: i64,
    pub lease_until_unix_seconds: i64,
    pub metadata_json: String,
}

/// What a [`HaMemberRow`] says.
pub struct HaMemberRowModel {
    pub instance_id: Seq<char>,
    pub incarnation_id: Seq<char>,
    pub started_unix_seconds: i64,
    pub last_seen_unix_seconds: i64,
    pub lease_until_unix_seconds: i64,
    pub metadata_json: Seq<char>,
}

impl View for HaMemberRow {
    type V = HaMemberRowModel;

    open spec fn view(&self) -> HaMemberRowModel {
        HaMemberRowModel {
            instance_id: self.instance_id@,
            incarnation_id: self.incarnation_id@,
            started_unix_seconds: self.started_unix_seconds,
            last_seen_unix_seconds: self.last_seen_unix_seconds,
            lease_until_unix_seconds: self.lease_until_unix_seconds,
            metadata_json: self.metadata_json@,
        }
    }
}

/// A value as it is read from a row.
pub open spec fn member_of(row: HaMemberRowModel) -> Result<HaMemberModel, RowErrorModel> {
    match strict(row.started_unix_seconds, ColumnLabel::MemberStart) {
        Err(error) => Err(error),
        Ok(started_unix_seconds) => match strict(row.last_seen_unix_seconds, ColumnLabel::MemberLastSeen) {
            Err(error) => Err(error),
            Ok(last_seen_unix_seconds) => match strict(row.lease_until_unix_seconds, ColumnLabel::MemberLease) {
                Err(error) => Err(error),
                Ok(lease_until_unix_seconds) => Ok(
                    HaMemberModel {
                        instance_id: row.instance_id,
                        incarnation_id: row.incarnation_id,
                        started_unix_seconds,
                        last_seen_unix_seconds,
                        lease_until_unix_seconds,
                        metadata_json: row.metadata_json,
                    },
                ),
            },
        },
    }
}

impl HaMemberRow {
    /// Reads a value.
    pub fn read(&self) -> (r: Result<HaMember, RowError>)
        ensures
            match member_of(self@) {
                Ok(x) => r is Ok && r->Ok_0@ == x,
                Err(error) => r is Err && r->Err_0@ == error,
            },
    {
        let row = self;
        let started_unix_seconds: u64 = match read_nonnegative(row.started_unix_seconds, ColumnLabel::MemberStart) {
            Ok(x) => x,
            Err(error) => {
                return Err(error);
            },
        };
        let last_seen_unix_seconds: u64 = match read_nonnegative(row.last_seen_unix_seconds, ColumnLabel::MemberLastSeen) {
            Ok(x) => x,
            Err(error) => {
                return Err(error);
            },
        };
        let lease_until_unix_seconds: u64 = match read_nonnegative(row.lease_until_unix_seconds, ColumnLabel::MemberLease) {
            Ok(x) => x,
            Err(error) => {
                return Err(error);
            },
        };
        let r = HaMember {
            instance_id: row.instance_id.clone(),
            incarnation_id: row.incarnation_id.clone(),
            started_unix_seconds,
            last_seen_unix_seconds,
            lease_until_unix_seconds,
            metadata_json: row.metadata_json.clone(),
        };
        Ok(r)
    }

    /// Writes a value whose numbers the columns hold.
    pub fn write(x: &HaMember) -> (r: Result<Self, &'static str>)
        ensures
            if member_fits(x@) {
                r is Ok && r->Ok_0@ == member_row(x@)
            } else {
                r is Err && r->Err_0@ == "value exceeds database integer range"@
            },
    {
        if x.started_unix_seconds > MAX_STORED || x.last_seen_unix_seconds > MAX_STORED || x.lease_until_unix_seconds > MAX_STORED {
            return Err("value exceeds database integer range");
        }
        let row = HaMemberRow {
            instance_id: x.instance_id.clone(),
            incarnation_id: x.incarnation_id.clone(),
            started_unix_seconds: to_column(x.started_unix_seconds),
            last_seen_unix_seconds: to_column(x.last_seen_unix_seconds),
            lease_until_unix_seconds: to_column(x.lease_until_unix_seconds),
            metadata_json: x.metadata_json.clone(),
        };
        Ok(row)
    }
}

/// Whether the columns hold the numbers of a value.
pub open spec fn member_fits(x: HaMemberModel) -> bool {
    &&& x.started_unix_seconds <= MAX_STORED
    &&& x.last_seen_unix_seconds <= MAX_STORED
    &&& x.lease_until_unix_seconds <= MAX_STORED
}

/// The row that a value is written into.
pub open spec fn member_row(x: HaMemberModel) -> HaMemberRowModel {
    HaMemberRowModel {
        instance_id: x.instance_id,
        incarnation_id: x.incarnation_id,
        started_unix_seconds: written(x.started_unix_seconds),
        last_seen_unix_seconds: written(x.last_seen_unix_seconds),
        lease_until_unix_seconds: written(x.lease_until_unix_seconds),
        metadata_json: x.metadata_json,
    }
}

/// A member that was written reads back as it was.
pub proof fn law_members_read_back(x: HaMemberModel)
    requires
        member_fits(x),
    ensures
        member_of(member_row(x)) == Ok::<HaMemberModel, RowErrorModel>(x),
{
    
}

impl HaMemberRow {
    /// Reads a member whose metadata is still an object.
    pub fn read_checked(&self) -> (r: Result<HaMember, RowError>)
        ensures
            match metadata_error(self@.metadata_json, json_object(self@.metadata_json)) {
                Some(error) => r is Err && r->Err_0@ == RowErrorModel::Metadata(error),
                None => match member_of(self@) {
                    Ok(m) => r is Ok && r->Ok_0@ == m,
                    Err(error) => r is Err && r->Err_0@ == error,
                },
            },
    {
        if let Err(error) = validate_metadata_json(self.metadata_json.as_str()) {
            return Err(RowError::Metadata(error));
        }
        self.read()
    }
}

/// A peer is stored with each of its fields in the column of that name.
pub proof fn law_peer_columns_hold_their_field(x: FleetPeerModel)
    ensures
        ({
            let row = peer_row(x);
            &&& row.id == hyphenated(x.id)
            &&& row.name == x.name
            &&& row.url == x.url
            &&& row.region == x.region
            &&& row.weight == x.weight
            &&& row.priority == x.priority
            &&& row.token_env == x.token_env
            &&& row.enabled == 1 <==> x.enabled
            &&& row.enabled == 0 <==> !x.enabled
            &&& x.created_unix_seconds <= 0x7fff_ffff_ffff_ffff ==> row.created_unix_seconds == x.created_unix_seconds
            &&& x.updated_unix_seconds <= 0x7fff_ffff_ffff_ffff ==> row.updated_unix_seconds == x.updated_unix_seconds
        }),
{
}

/// The health of a peer is stored with each of its fields in the column of that name.
pub proof fn law_health_columns_hold_their_field(x: FleetHealthSnapshotModel)
    ensures
        ({
            let row = snapshot_row(x);
            &&& row.peer_id == hyphenated(x.health.peer_id)
            &&& row.success_threshold == x.config.success_threshold
            &&& row.failure_threshold == x.config.failure_threshold
            &&& row.cooldown_seconds == x.config.cooldown_seconds
            &&& x.config.updated_unix_seconds <= 0x7fff_ffff_ffff_ffff ==> row.updated_unix_seconds == x.config.updated_unix_seconds
            &&& row.state == health_state_name(x.health.state)
            &&& row.consecutive_successes == x.health.consecutive_successes
            &&& row.consecutive_failures == x.health.consecutive_failures
            &&& x.health.last_probe_unix_seconds is None ==> row.last_probe_unix_seconds is None
            &&& x.health.last_probe_unix_seconds is Some && x.health.last_probe_unix_seconds->0 <= 0x7fff_ffff_ffff_ffff ==> row.last_probe_unix_seconds is Some && row.last_probe_unix_seconds->0 == x.health.last_probe_unix_seconds->0
            &&& x.health.last_success_unix_seconds is None ==> row.last_success_unix_seconds is None
            &&& x.health.last_success_unix_seconds is Some && x.health.last_success_unix_seconds->0 <= 0x7fff_ffff_ffff_ffff ==> row.last_success_unix_seconds is Some && row.last_success_unix_seconds->0 == x.health.last_success_unix_seconds->0
            &&& x.health.last_failure_unix_seconds is None ==> row.last_failure_unix_seconds is None
            &&& x.health.last_failure_unix_seconds is Some && x.health.last_failure_unix_seconds->0 <= 0x7fff_ffff_ffff_ffff ==> row.last_failure_unix_seconds is Some && row.last_failure_unix_seconds->0 == x.health.last_failure_unix_seconds->0
            &&& x.health.last_latency_millis is None ==> row.last_latency_millis is None
            &&& x.health.last_latency_millis is Some && x.health.last_latency_millis->0 <= 0x7fff_ffff_ffff_ffff ==> row.last_latency_millis is Some && row.last_latency_millis->0 == x.health.last_latency_millis->0
            &&& row.last_error_summary == x.health.last_error_summary
            &&& x.health.state_changed_unix_seconds <= 0x7fff_ffff_ffff_ffff ==> row.state_changed_unix_seconds == x.health.state_changed_unix_seconds
            &&& x.health.cooldown_until_unix_seconds <= 0x7fff_ffff_ffff_ffff ==> row.cooldown_until_unix_seconds == x.health.cooldown_until_unix_seconds
            &&& row.last_transition_reason == x.health.last_transition_reason
            &&& x.health.revision <= 0x7fff_ffff_ffff_ffff ==> row.revision == x.health.revision
            &&& x.health.active_connections <= 0x7fff_ffff_ffff_ffff ==> row.active_connections == x.health.active_connections
            &&& x.health.bytes_total <= 0x7fff_ffff_ffff_ffff ==> row.bytes_total == x.health.bytes_total
            &&& x.health.clients <= 0x7fff_ffff_ffff_ffff ==> row.clients == x.health.clients
            &&& x.health.policies <= 0x7fff_ffff_ffff_ffff ==> row.policies == x.health.policies
        }),
{
}

/// A failover is stored with each of its fields in the column of that name.
pub proof fn law_failover_columns_hold_their_field(x: FleetDnsFailoverModel)
    ensures
        ({
            let row = failover_row(x);
            &&& row.id == hyphenated(x.id)
            &&& row.name == x.name
            &&& row.hostname == x.hostname
            &&& row.record_type == record_type_name(x.record_type)
            &&& row.zone_id == x.zone_id
            &&& row.record_id == x.record_id
            &&& row.token_env == x.token_env
            &&& row.ttl == x.ttl
            &&& row.proxied == 1 <==> x.proxied
            &&& row.proxied == 0 <==> !x.proxied
            &&& row.enabled == 1 <==> x.enabled
            &&& row.enabled == 0 <==> !x.enabled
            &&& row.reconcile_required == 1 <==> x.reconcile_required
            &&& row.reconcile_required == 0 <==> !x.reconcile_required
            &&& row.cooldown_seconds == x.cooldown_seconds
            &&& row.frozen == 1 <==> x.frozen
            &&& row.frozen == 0 <==> !x.frozen
            &&& row.freeze_reason == x.freeze_reason
            &&& x.current_peer_id is Some ==> row.current_peer_id == Some(hyphenated(x.current_peer_id->0))
            &&& x.current_peer_id is None ==> row.current_peer_id is None
            &&& row.current_target == x.current_target
            &&& x.last_switch_unix_seconds is None ==> row.last_switch_unix_seconds is None
            &&& x.last_switch_unix_seconds is Some && x.last_switch_unix_seconds->0 <= 0x7fff_ffff_ffff_ffff ==> row.last_switch_unix_seconds is Some && row.last_switch_unix_seconds->0 == x.last_switch_unix_seconds->0
            &&& x.next_change_not_before_unix_seconds <= 0x7fff_ffff_ffff_ffff ==> row.next_change_not_before_unix_seconds == x.next_change_not_before_unix_seconds
            &&& row.last_switch_reason == x.last_switch_reason
            &&& row.last_error_summary == x.last_error_summary
            &&& x.pending_operation_id is Some ==> row.pending_operation_id == Some(hyphenated(x.pending_operation_id->0))
            &&& x.pending_operation_id is None ==> row.pending_operation_id is None
            &&& x.pending_peer_id is Some ==> row.pending_peer_id == Some(hyphenated(x.pending_peer_id->0))
            &&& x.pending_peer_id is None ==> row.pending_peer_id is None
            &&& row.pending_target == x.pending_target
            &&& row.pending_reason == x.pending_reason
            &&& x.pending_started_unix_seconds is None ==> row.pending_started_unix_seconds is None
            &&& x.pending_started_unix_seconds is Some && x.pending_started_unix_seconds->0 <= 0x7fff_ffff_ffff_ffff ==> row.pending_started_unix_seconds is Some && row.pending_started_unix_seconds->0 == x.pending_started_unix_seconds->0
            &&& x.pending_lease_until_unix_seconds is None ==> row.pending_lease_until_unix_seconds is None
            &&& x.pending_lease_until_unix_seconds is Some && x.pending_lease_until_unix_seconds->0 <= 0x7fff_ffff_ffff_ffff ==> row.pending_lease_until_unix_seconds is Some && row.pending_lease_until_unix_seconds->0 == x.pending_lease_until_unix_seconds->0
            &&& x.created_unix_seconds <= 0x7fff_ffff_ffff_ffff ==> row.created_unix_seconds == x.created_unix_seconds
            &&& x.updated_unix_seconds <= 0x7fff_ffff_ffff_ffff ==> row.updated_unix_seconds == x.updated_unix_seconds
        }),
{
}

/// A generation is stored with each of its fields in the column of that name.
pub proof fn law_generation_columns_hold_their_field(x: FleetGenerationModel)
    ensures
        ({
            let row = generation_row(x);
            &&& row.source_instance_id == x.source_instance_id
            &&& x.generation <= 0x7fff_ffff_ffff_ffff ==> row.generation == x.generation
            &&& row.revision == x.revision
            &&& row.owner_instance_id == x.owner_instance_id
            &&& row.owner_incarnation_id == x.owner_incarnation_id
            &&& x.fencing_token <= 0x7fff_ffff_ffff_ffff ==> row.fencing_token == x.fencing_token
            &&& x.resource_count <= 0x7fff_ffff_ffff_ffff ==> row.resource_count == x.resource_count
            &&& row.sync_state == sync_state_name(x.sync_state)
            &&& row.sync_progress == x.sync_progress
            &&& x.updated_unix_seconds <= 0x7fff_ffff_ffff_ffff ==> row.updated_unix_seconds == x.updated_unix_seconds
        }),
{
}

/// A conflict is stored with each of its fields in the column of that name.
pub proof fn law_conflict_columns_hold_their_field(x: FleetConflictModel)
    ensures
        ({
            let row = conflict_row(x);
            &&& row.conflict_id == hyphenated(x.conflict_id)
            &&& row.source_instance_id == x.source_instance_id
            &&& x.generation <= 0x7fff_ffff_ffff_ffff ==> row.generation == x.generation
            &&& row.resource_kind == x.resource_kind
            &&& row.resource_id == x.resource_id
            &&& row.owner_instance_id == x.owner_instance_id
            &&& row.conflict_code == x.conflict_code
            &&& row.detail_summary == x.detail_summary
            &&& row.state == conflict_state_name(x.state)
            &&& x.detected_unix_seconds <= 0x7fff_ffff_ffff_ffff ==> row.detected_unix_seconds == x.detected_unix_seconds
            &&& x.resolved_unix_seconds is None ==> row.resolved_unix_seconds is None
            &&& x.resolved_unix_seconds is Some && x.resolved_unix_seconds->0 <= 0x7fff_ffff_ffff_ffff ==> row.resolved_unix_seconds is Some && row.resolved_unix_seconds->0 == x.resolved_unix_seconds->0
            &&& row.resolution == x.resolution
        }),
{
}

/// The leadership is stored with each of its fields in the column of that name.
pub proof fn law_leader_columns_hold_their_field(x: LeadershipLeaseModel)
    ensures
        ({
            let row = leader_row(x);
            &&& row.instance_id == x.instance_id
            &&& row.incarnation_id == x.incarnation_id
            &&& x.fencing_token <= 0x7fff_ffff_ffff_ffff ==> row.fencing_token == x.fencing_token
            &&& x.acquired_unix_seconds <= 0x7fff_ffff_ffff_ffff ==> row.acquired_unix_seconds == x.acquired_unix_seconds
            &&& x.renewed_unix_seconds <= 0x7fff_ffff_ffff_ffff ==> row.renewed_unix_seconds == x.renewed_unix_seconds
            &&& x.lease_until_unix_seconds <= 0x7fff_ffff_ffff_ffff ==> row.lease_until_unix_seconds == x.lease_until_unix_seconds
        }),
{
}

/// A member is stored with each of its fields in the column of that name.
pub proof fn law_member_columns_hold_their_field(x: HaMemberModel)
    ensures
        ({
            let row = member_row(x);
            &&& row.instance_id == x.instance_id
            &&& row.incarnation_id == x.incarnation_id
            &&& x.started_unix_seconds <= 0x7fff_ffff_ffff_ffff ==> row.started_unix_seconds == x.started_unix_seconds
            &&& x.last_seen_unix_seconds <= 0x7fff_ffff_ffff_ffff ==> row.last_seen_unix_seconds == x.last_seen_unix_seconds
            &&& x.lease_until_unix_seconds <= 0x7fff_ffff_ffff_ffff ==> row.lease_until_unix_seconds == x.lease_until_unix_seconds
            &&& row.metadata_json == x.metadata_json
        }),
{
}

/// A stored time is never negative: what is below zero is read as zero where that is
/// put up with, and is refused elsewhere, in the words of the storage.
pub proof fn law_stored_numbers_are_not_negative(
    value: i64,
    label: ColumnLabel,
    backend: StorageBackend,
)
    ensures
        value >= 0 ==> clamped(value) == value && strict(value, label) == Ok::<u64, RowErrorModel>(
            value as u64,
        ) && counted(value, label, backend) == Ok::<u64, RowErrorModel>(value as u64),
        value < 0 ==> clamped(value) == 0 && strict(value, label) == Err::<u64, RowErrorModel>(
            RowErrorModel::Negative(label),
        ),
        value < 0 && backend is Sqlite ==> counted(value, label, backend) == Err::<
            u64,
            RowErrorModel,
        >(RowErrorModel::Invalid(label)),
        value < 0 && backend is Postgres ==> counted(value, label, backend) == Err::<
            u64,
            RowErrorModel,
        >(RowErrorModel::Negative(label)),
        value > 0 ==> strict_positive(value, label) == Ok::<u64, RowErrorModel>(value as u64),
        value <= 0 ==> strict_positive(value, label) == Err::<u64, RowErrorModel>(
            RowErrorModel::NotPositive(label),
        ),
        0 <= value <= 100 ==> percent(value) == Ok::<u8, RowErrorModel>(value as u8),
        value < 0 || value > 100 ==> percent(value) == Err::<u8, RowErrorModel>(
            RowErrorModel::Progress,
        ),
{
}

/// An identifier that cannot be read is refused with the column that holds it.
pub proof fn law_unreadable_identifiers_name_their_column(s: Seq<char>, column: usize)
    ensures
        uuid_of(s) is Some ==> id_opt(Some(s), column) == Ok::<Option<u128>, RowErrorModel>(
            uuid_of(s),
        ) && id_of(s) == Ok::<u128, RowErrorModel>(uuid_of(s)->0),
        uuid_of(s) is None ==> id_opt(Some(s), column) == Err::<Option<u128>, RowErrorModel>(
            RowErrorModel::Identifier { column, text: uuid_error(s) },
        ) && id_of(s) == Err::<u128, RowErrorModel>(
            RowErrorModel::Identifier { column: 0, text: uuid_error(s) },
        ),
        id_opt(None, column) == Ok::<Option<u128>, RowErrorModel>(None),
{
}

/// States and record types are read by the names under which they are stored, and what
/// is no such name is refused.
pub proof fn law_stored_names_are_read(value: Seq<char>)
    ensures
        health_state_column(value) is Ok <==> health_state_of(value) is Some,
        health_state_column(value) is Ok ==> Some(health_state_column(value)->Ok_0)
            == health_state_of(value),
        health_state_column(value) is Err ==> health_state_column(value)->Err_0 is HealthState,
        record_type_column(value) is Ok <==> record_type_of(value) is Some,
        record_type_column(value) is Ok ==> Some(record_type_column(value)->Ok_0)
            == record_type_of(value),
        record_type_column(value) is Err ==> record_type_column(value)->Err_0 is RecordType,
        sync_state_column(value) is Ok <==> sync_state_of(value) is Some,
        sync_state_column(value) is Ok ==> Some(sync_state_column(value)->Ok_0) == sync_state_of(
            value,
        ),
        sync_state_column(value) is Err ==> sync_state_column(value)->Err_0 is SyncState,
        conflict_state_column(value) is Ok <==> conflict_state_of(value) is Some,
        conflict_state_column(value) is Ok ==> Some(conflict_state_column(value)->Ok_0)
            == conflict_state_of(value),
        conflict_state_column(value) is Err ==> conflict_state_column(value)->Err_0
            is ConflictState,
{
}

/// A peer, a health record or a failover is read from every row whose identifiers and
/// names can be read, with a flag set for every number but zero.
pub proof fn law_flags_are_numbers_other_than_zero(
    row: FleetPeerRowModel,
    failover: FleetDnsFailoverRowModel,
    token_configured: bool,
)
    ensures
        peer_of(row, token_configured) is Ok <==> uuid_of(row.id) is Some,
        peer_of(row, token_configured) is Ok ==> {
            let x = peer_of(row, token_configured)->Ok_0;
            &&& Some(x.id) == uuid_of(row.id)
            &&& x.enabled <==> row.enabled != 0
            &&& x.token_configured == token_configured
        },
        failover_of(failover, token_configured) is Ok ==> {
            let x = failover_of(failover, token_configured)->Ok_0;
            &&& Some(x.id) == uuid_of(failover.id)
            &&& x.enabled <==> failover.enabled != 0
            &&& x.proxied <==> failover.proxied != 0
            &&& x.frozen <==> failover.frozen != 0
            &&& x.reconcile_required <==> failover.reconcile_required != 0
            &&& x.token_configured == token_configured
            &&& x.targets.len() == 0
        },
{
}

/// An error is told with the column that it is about, and as a matter of numbers
/// exactly if a number was wrong.
pub proof fn law_row_errors_name_their_column(e: RowErrorModel, label: ColumnLabel)
    ensures
        e is Identifier ==> row_error_column(e) == e->column && row_error_text(e)
            == e->Identifier_text,
        e is HealthState ==> row_error_column(e) == 5,
        e is RecordType ==> row_error_column(e) == 3,
        e is SyncState ==> row_error_column(e) == 7,
        e is ConflictState || e is Progress ==> row_error_column(e) == 8,
        e is Metadata ==> row_error_column(e) == 5 && row_error_text(e) == e->Metadata_0,
        row_error_column(RowErrorModel::Negative(label)) == label_column(label),
        row_error_column(RowErrorModel::NotPositive(label)) == label_column(label),
        row_error_column(RowErrorModel::Invalid(label)) == label_column(label),
        row_error_text(RowErrorModel::Negative(label)) == column_text(label)
            + " must not be negative"@,
        row_error_text(RowErrorModel::NotPositive(label)) == column_text(label)
            + " must be positive"@,
        row_error_text(RowErrorModel::Invalid(label)) == column_text(label) + " is invalid"@,
        is_numeric(e) <==> e is Progress || e is Negative || e is NotPositive || e is Invalid,
{
}

} // verus!
