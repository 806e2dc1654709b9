//! File-move coordination: registry keys, and what to do for registered
//! moves, flash uploads and failures.
use vstd::prelude::*;
use vstd::string::StringExecFns;
use crate::error::KernelError;
use crate::ids::{hyphenated, is_uuid_text, lemma_hyphenated_is_uuid_text, uuid_text};

verus! {

/// How long a registration lives without a write: one day, in milliseconds.
pub const DEFAULT_LEASE_MSECS: i64 = 24 * 60 * 60 * 1000;

/// A net-disk entry to record for a file.
#[derive(Clone, Debug)]
pub struct RecordNetDisk {
    pub file_type: String,
    pub kind: String,
}

/// Where a moved file goes.
#[derive(Clone, Debug)]
pub enum MoveDestination {
    Snapshot { node_id: u128, timestamp: i64, file_id: u128 },
    StorageServer { record_net_disk: Option<RecordNetDisk> },
}

/// One registered move of an uploaded file.
#[derive(Clone, Debug)]
pub struct MoveRegistration {
    pub id: u128,
    pub meta_id: u128,
    pub file_name: String,
    pub destination: MoveDestination,
    pub hash: String,
    pub hash_algorithm: String,
    pub size: u64,
    pub user_id: Option<u128>,
    pub is_upload_failed: bool,
    pub failed_reason: Option<String>,
}

/// A snapshot record to create (the snapshot service assigns its id).
#[derive(Clone, Debug)]
pub struct SnapshotRecord {
    pub meta_id: u128,
    pub node_id: u128,
    pub file_id: u128,
    pub timestamp: i64,
    pub file_name: String,
    pub size: u64,
    pub hash: String,
    pub hash_algorithm: String,
    pub user_id: u128,
}

/// A request to the uploader to move a file to the storage server.
#[derive(Clone, Copy, Debug, PartialEq, Eq, Structural)]
pub struct FileUploadCommand {
    pub move_id: u128,
    pub user_id: u128,
}

/// A net-disk file to create.
#[derive(Clone, Debug)]
pub struct CreateNetDiskFileCommand {
    pub meta_id: u128,
    pub file_name: String,
    pub file_type: String,
    pub kind: String,
}

/// One step for the collaborators to perform.
#[derive(Clone, Debug)]
pub enum MoveAction {
    CreateSnapshot(SnapshotRecord),
    RemoveMultipart { meta_id: u128 },
    RemoveRegistrations { meta_id: u128 },
    SendUpload(FileUploadCommand),
    CreateNetDiskFile(CreateNetDiskFileCommand),
}

/// A flash upload that happened: the file was already stored.
#[derive(Clone, Debug)]
pub struct FlashUpload {
    pub destination: String,
    pub hash: String,
    pub meta_id: u128,
    pub already_id: u128,
}

/// What a flash-upload check decides.
#[derive(Clone, Debug)]
pub enum FlashUploadPlan {
    /// No stored file has this hash: upload normally.
    Miss,
    /// A stored file has this hash: perform `actions`, then signal `signal`.
    Hit { actions: Vec<MoveAction>, signal: FlashUpload },
}

/// The registry key of a move: `movereg_{move_id}_{meta_id}`.
pub open spec fn key_text(move_id: u128, meta_id: u128) -> Seq<char> {
    "movereg_"@ + hyphenated(move_id) + "_"@ + hyphenated(meta_id)
}

/// Whether `s` has the shape `movereg_{uuid}_{uuid}`.
pub open spec fn is_move_key(s: Seq<char>) -> bool {
    &&& s.len() == 81
    &&& s.subrange(0, 8) == "movereg_"@
    &&& s[44] == '_'
    &&& is_uuid_text(s.subrange(8, 44))
    &&& is_uuid_text(s.subrange(45, 81))
}

/// The registry key of a move.
pub fn key(move_id: u128, meta_id: u128) -> (r: String)
    ensures
        r@ == key_text(move_id, meta_id),
{
    let mut r = String::from_str("movereg_");
    r.append(uuid_text(move_id).as_str());
    r.append("_");
    r.append(uuid_text(meta_id).as_str());
    r
}

/// The key pattern of every move of one file: `movereg_*_{meta_id}`.
pub fn meta_id_key_regex(meta_id: u128) -> (r: String)
    ensures
        r@ == "movereg_*_"@ + hyphenated(meta_id),
{
    let mut r = String::from_str("movereg_*_");
    r.append(uuid_text(meta_id).as_str());
    r
}

/// The key pattern of one move: `movereg_{move_id}_*`.
pub fn move_id_key_regex(move_id: u128) -> (r: String)
    ensures
        r@ == "movereg_"@ + hyphenated(move_id) + "_*"@,
{
    let mut r = String::from_str("movereg_");
    r.append(uuid_text(move_id).as_str());
    r.append("_*");
    r
}

/// Key shape: every registry key reads `movereg_`, the move id, `_`, the
/// file's meta id, each id in its 36-character hyphenated form.
pub proof fn lemma_move_key_shape(move_id: u128, meta_id: u128)
    ensures
        is_move_key(key_text(move_id, meta_id)),
        key_text(move_id, meta_id).subrange(8, 44) == hyphenated(move_id),
        key_text(move_id, meta_id).subrange(45, 81) == hyphenated(meta_id),
{
    reveal_strlit("movereg_");
    reveal_strlit("_");
    lemma_hyphenated_is_uuid_text(move_id);
    lemma_hyphenated_is_uuid_text(meta_id);
    let s = key_text(move_id, meta_id);
    assert(s.subrange(0, 8) =~= "movereg_"@);
    assert(s.subrange(8, 44) =~= hyphenated(move_id));
    assert(s.subrange(45, 81) =~= hyphenated(meta_id));
}

/// The name of a destination kind.
pub open spec fn destination_name_text(d: MoveDestination) -> Seq<char> {
    match d {
        MoveDestination::Snapshot { .. } => "Snapshot"@,
        MoveDestination::StorageServer { .. } => "StorageServer"@,
    }
}

impl MoveDestination {
    /// The name of the destination kind.
    pub fn name(&self) -> (r: String)
        ensures
            r@ == destination_name_text(*self),
    {
        match self {
            MoveDestination::Snapshot { .. } => String::from_str("Snapshot"),
            MoveDestination::StorageServer { .. } => String::from_str("StorageServer"),
        }
    }
}

/// Whether `s` records registration `info`'s file under meta id `meta_id`
/// for user `user`.
pub open spec fn is_snapshot_of(s: SnapshotRecord, info: MoveRegistration, meta_id: u128, user: u128) -> bool {
    &&& info.destination matches MoveDestination::Snapshot { node_id, timestamp, file_id }
        && s.node_id == node_id && s.timestamp == timestamp && s.file_id == file_id
    &&& s.meta_id == meta_id
    &&& s.file_name@ == info.file_name@
    &&& s.size == info.size
    &&& s.hash@ == info.hash@
    &&& s.hash_algorithm@ == info.hash_algorithm@
    &&& s.user_id == user
}

/// The snapshot record of a snapshot move, stored under `meta_id`.
fn snapshot_record(info: &MoveRegistration, meta_id: u128, user: u128) -> (r: SnapshotRecord)
    requires
        info.destination is Snapshot,
    ensures
        is_snapshot_of(r, *info, meta_id, user),
{
    let (node_id, timestamp, file_id) = match &info.destination {
        MoveDestination::Snapshot { node_id, timestamp, file_id } => (*node_id, *timestamp, *file_id),
        MoveDestination::StorageServer { .. } => (0, 0, 0),
    };
    SnapshotRecord {
        meta_id,
        node_id,
        file_id,
        timestamp,
        file_name: info.file_name.clone(),
        size: info.size,
        hash: info.hash.clone(),
        hash_algorithm: info.hash_algorithm.clone(),
        user_id: user,
    }
}

/// What to do for one registered move once its file has arrived: for a
/// snapshot, record it, drop the file's multipart pieces and every
/// registration of the file; for the storage server, ask the uploader to
/// move it.
pub fn plan_registered_move(info: &MoveRegistration) -> (r: Result<Vec<MoveAction>, KernelError>)
    ensures
        info.user_id is None ==> r == Err::<Vec<MoveAction>, KernelError>(KernelError::MissingUserId),
        info.user_id matches Some(u) ==> (r matches Ok(a) && match info.destination {
            MoveDestination::Snapshot { .. } => a@.len() == 3 && (a@[0] matches MoveAction::CreateSnapshot(s)
                && is_snapshot_of(s, *info, info.meta_id, u)) && a@[1] == (MoveAction::RemoveMultipart {
                meta_id: info.meta_id,
            }) && a@[2] == (MoveAction::RemoveRegistrations { meta_id: info.meta_id }),
            MoveDestination::StorageServer { .. } => a@.len() == 1 && a@[0] == MoveAction::SendUpload(
                FileUploadCommand { move_id: info.id, user_id: u },
            ),
        }),
{
    let user = match info.user_id {
        Some(u) => u,
        None => {
            return Err(KernelError::MissingUserId);
        },
    };
    let mut actions: Vec<MoveAction> = Vec::new();
    match &info.destination {
        MoveDestination::Snapshot { .. } => {
            actions.push(MoveAction::CreateSnapshot(snapshot_record(info, info.meta_id, user)));
            actions.push(MoveAction::RemoveMultipart { meta_id: info.meta_id });
            actions.push(MoveAction::RemoveRegistrations { meta_id: info.meta_id });
        },
        MoveDestination::StorageServer { .. } => {
            actions.push(MoveAction::SendUpload(FileUploadCommand { move_id: info.id, user_id: user }));
        },
    }
    Ok(actions)
}

/// What a flash-upload check decides, given the id of a stored file with
/// the same hash (if the destination's service found one): on a miss,
/// nothing; on a hit, record the stored file for this destination and
/// signal the flash upload.
pub fn plan_flash_upload(info: &MoveRegistration, already: Option<u128>) -> (r: Result<FlashUploadPlan, KernelError>)
    ensures
        already is None ==> r matches Ok(FlashUploadPlan::Miss),
        already matches Some(a) ==> match info.destination {
            MoveDestination::Snapshot { .. } => match info.user_id {
                None => r == Err::<FlashUploadPlan, KernelError>(KernelError::MissingUserId),
                Some(u) => r matches Ok(FlashUploadPlan::Hit { actions, signal }) && actions@.len() == 1
                    && (actions@[0] matches MoveAction::CreateSnapshot(s) && is_snapshot_of(s, *info, a, u))
                    && signal.already_id == a && signal.meta_id == info.meta_id && signal.hash@
                    == info.hash@ && signal.destination@ == "Snapshot"@,
            },
            MoveDestination::StorageServer { record_net_disk } => r matches Ok(FlashUploadPlan::Hit { actions, signal })
                && signal.already_id == a && signal.meta_id == info.meta_id && signal.hash@ == info.hash@
                && signal.destination@ == "StorageServer"@ && match record_net_disk {
                None => actions@.len() == 0,
                Some(rec) => actions@.len() == 1 && (actions@[0] matches MoveAction::CreateNetDiskFile(c)
                    && c.meta_id == a && c.file_name@ == info.file_name@ && c.file_type@ == rec.file_type@
                    && c.kind@ == rec.kind@),
            },
        },
{
    let a = match already {
        None => {
            return Ok(FlashUploadPlan::Miss);
        },
        Some(a) => a,
    };
    let mut actions: Vec<MoveAction> = Vec::new();
    match &info.destination {
        MoveDestination::Snapshot { .. } => {
            let user = match info.user_id {
                Some(u) => u,
                None => {
                    return Err(KernelError::MissingUserId);
                },
            };
            actions.push(MoveAction::CreateSnapshot(snapshot_record(info, a, user)));
        },
        MoveDestination::StorageServer { record_net_disk } => {
            if let Some(rec) = record_net_disk {
                actions.push(
                    MoveAction::CreateNetDiskFile(
                        CreateNetDiskFileCommand {
                            meta_id: a,
                            file_name: info.file_name.clone(),
                            file_type: rec.file_type.clone(),
                            kind: rec.kind.clone(),
                        },
                    ),
                );
            }
        },
    }
    let signal = FlashUpload { destination: info.destination.name(), hash: info.hash.clone(), meta_id: info.meta_id, already_id: a };
    Ok(FlashUploadPlan::Hit { actions, signal })
}

/// Whether `new` is `old` marked as failed for `reason`.
pub open spec fn is_marked_failed(new: MoveRegistration, old: MoveRegistration, reason: Seq<char>) -> bool {
    &&& new.id == old.id
    &&& new.meta_id == old.meta_id
    &&& new.file_name == old.file_name
    &&& new.destination == old.destination
    &&& new.hash == old.hash
    &&& new.hash_algorithm == old.hash_algorithm
    &&& new.size == old.size
    &&& new.user_id == old.user_id
    &&& new.is_upload_failed
    &&& new.failed_reason matches Some(r) && r@ == reason
}

/// `info` marked as failed for `reason`.
pub fn mark_failed(info: MoveRegistration, reason: &String) -> (r: MoveRegistration)
    ensures
        is_marked_failed(r, info, reason@),
{
    MoveRegistration { is_upload_failed: true, failed_reason: Some(reason.clone()), ..info }
}

/// Every move of one file marked as failed for `reason`, in order.
pub fn mark_all_failed(infos: Vec<MoveRegistration>, reason: &String) -> (r: Vec<MoveRegistration>)
    ensures
        r@.len() == infos@.len(),
        forall|i: int| 0 <= i < r@.len() ==> is_marked_failed(#[trigger] r@[i], infos@[i], reason@),
{
    let ghost orig = infos@;
    let mut infos = infos;
    let mut r: Vec<MoveRegistration> = Vec::new();
    while infos.len() > 0
        invariant
            r@.len() + infos@.len() == orig.len(),
            forall|j: int| 0 <= j < infos@.len() ==> infos@[j] == orig[r@.len() + j],
            forall|j: int| 0 <= j < r@.len() ==> is_marked_failed(#[trigger] r@[j], orig[j], reason@),
        decreases infos@.len(),
    {
        let info = infos.remove(0);
        r.push(mark_failed(info, reason));
    }
    r
}

/// The failure state of a file's moves, read from the first of them.
pub fn get_meta_id_failed_info(all: &Vec<MoveRegistration>) -> (r: Result<(bool, Option<String>), KernelError>)
    ensures
        all@.len() == 0 <==> r is Err,
        r matches Err(e) ==> e == KernelError::NoSuchMove,
        r matches Ok((f, reason)) ==> f == all@[0].is_upload_failed && match (reason, all@[0].failed_reason) {
            (Some(a), Some(b)) => a@ == b@,
            (None, None) => true,
            _ => false,
        },
{
    if all.len() == 0 {
        return Err(KernelError::NoSuchMove);
    }
    let reason = match &all[0].failed_reason {
        Some(s) => Some(s.clone()),
        None => None,
    };
    Ok((all[0].is_upload_failed, reason))
}

/// A move looked up by id, marked as failed for `reason`.
pub fn set_move_as_failed(found: Option<MoveRegistration>, reason: &String) -> (r: Result<MoveRegistration, KernelError>)
    ensures
        found is None ==> r == Err::<MoveRegistration, KernelError>(KernelError::NoSuchMove),
        found matches Some(info) ==> r matches Ok(m) && is_marked_failed(m, info, reason@),
{
    match found {
        Some(info) => Ok(mark_failed(info, reason)),
        None => Err(KernelError::NoSuchMove),
    }
}

} // verus!
