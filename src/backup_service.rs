//! Backup of a manifest's entries into one folder, and their recovery from it,
//! as the filesystem steps that perform them.
use vstd::prelude::*;
use crate::config::{
    config_file_name, config_file_name_str, EElementType, ManifestError, SBackupConfig,
};
use crate::manifest_text::{
    entry_views, lemma_manifest_text_round_trip, manifest_text, parse_manifest, parse_manifest_text,
};
use crate::paths::{
    file_name, join, lemma_file_name_is_name, lemma_file_name_join, lemma_join_parent_file_name,
    no_empty_component, parent, spec_file_name, spec_join, spec_parent,
};
use crate::transfer::{
    file_op, op_source, op_takes_away, op_target, op_views, EFileAction, FsOp, OpView,
};

verus! {

/// Where a backup goes: the folder `folder_name` inside `folder_path`.
#[derive(Debug)]
pub struct SBackupUI {
    pub folder_name: String,
    pub folder_path: String,
}

impl SBackupUI {
    pub fn new() -> (r: SBackupUI)
        ensures
            r.folder_name@ == "backup"@,
            r.folder_path@.len() == 0,
    {
        SBackupUI { folder_name: String::from_str("backup"), folder_path: String::new() }
    }
}

/// Which backup folder to recover from, and whether to copy or move.
#[derive(Debug)]
pub struct SRecoveryPanel {
    pub file_action: EFileAction,
    pub backup_folder: String,
}

impl SRecoveryPanel {
    pub fn new() -> (r: SRecoveryPanel)
        ensures
            r.file_action == EFileAction::Copied,
            r.backup_folder@.len() == 0,
    {
        SRecoveryPanel { file_action: EFileAction::Copied, backup_folder: String::new() }
    }
}

/// An input that a backup needs is missing.
#[derive(PartialEq, Eq, Structural, Clone, Copy, Debug)]
pub enum BackupError {
    MissingFolderName,
    MissingFolderPath,
    NoElements,
}

/// The step that copies one entry into the backup folder.
pub open spec fn backup_entry_op(folder: Seq<char>, e: (Seq<char>, EElementType)) -> OpView {
    if e.1 == EElementType::Folder {
        OpView::TransferTree(e.0, folder, EFileAction::Copied)
    } else {
        match spec_file_name(e.0) {
            Some(n) => OpView::CopyFile(e.0, spec_join(folder, n)),
            None => OpView::Unplaceable(e.0),
        }
    }
}

/// Create the folder, write the manifest into it, then copy each entry.
pub open spec fn backup_plan(folder: Seq<char>, es: Seq<(Seq<char>, EElementType)>) -> Seq<
    OpView,
> {
    seq![
        OpView::EnsureDir(folder),
        OpView::WriteFile(spec_join(folder, config_file_name()), manifest_text(es)),
    ] + es.map_values(|e: (Seq<char>, EElementType)| backup_entry_op(folder, e))
}

/// The step that brings one entry back from the backup folder to its path.
pub open spec fn recovery_entry_op(
    folder: Seq<char>,
    e: (Seq<char>, EElementType),
    action: EFileAction,
) -> OpView {
    match spec_file_name(e.0) {
        None => OpView::Unplaceable(e.0),
        Some(n) => if e.1 == EElementType::Folder {
            OpView::TransferTree(spec_join(folder, n), spec_parent(e.0), action)
        } else {
            file_op(spec_join(folder, n), e.0, action)
        },
    }
}

/// Bring back each entry in order; after a move, remove the backup folder.
pub open spec fn recovery_plan(
    folder: Seq<char>,
    es: Seq<(Seq<char>, EElementType)>,
    action: EFileAction,
) -> Seq<OpView> {
    es.map_values(|e: (Seq<char>, EElementType)| recovery_entry_op(folder, e, action)) + if action
        == EFileAction::Moved {
        seq![OpView::RemoveTree(folder)]
    } else {
        Seq::empty()
    }
}

fn backup_entry_step(folder: &String, path: &String, kind: EElementType) -> (r: FsOp)
    ensures
        r@ == backup_entry_op(folder@, (path@, kind)),
{
    if kind == EElementType::Folder {
        FsOp::TransferTree {
            from: path.clone(),
            to_parent: folder.clone(),
            action: EFileAction::Copied,
        }
    } else {
        match file_name(path.as_str()) {
            Some(n) => FsOp::CopyFile { from: path.clone(), to: join(folder.as_str(), n.as_str()) },
            None => FsOp::Unplaceable { path: path.clone() },
        }
    }
}

/// The steps that back up the entries of `config` into the folder that
/// `details` names.
pub fn backup(config: &SBackupConfig, details: &SBackupUI) -> (r: Result<Vec<FsOp>, BackupError>)
    ensures
        details.folder_name@.len() == 0 ==> r == Err::<Vec<FsOp>, BackupError>(
            BackupError::MissingFolderName,
        ),
        details.folder_name@.len() > 0 && details.folder_path@.len() == 0 ==> r == Err::<
            Vec<FsOp>,
            BackupError,
        >(BackupError::MissingFolderPath),
        details.folder_name@.len() > 0 && details.folder_path@.len() > 0
            && config.elements.len() == 0 ==> r == Err::<Vec<FsOp>, BackupError>(
            BackupError::NoElements,
        ),
        details.folder_name@.len() > 0 && details.folder_path@.len() > 0
            && config.elements.len() > 0 ==> r is Ok && op_views(r->Ok_0@) == backup_plan(
            spec_join(details.folder_path@, details.folder_name@),
            config.entries(),
        ),
{
    if details.folder_name.as_str().unicode_len() == 0 {
        return Err(BackupError::MissingFolderName);
    }
    if details.folder_path.as_str().unicode_len() == 0 {
        return Err(BackupError::MissingFolderPath);
    }
    if config.elements.len() == 0 {
        return Err(BackupError::NoElements);
    }
    let folder = join(details.folder_path.as_str(), details.folder_name.as_str());
    let saved = config.save(folder.clone());
    let mut ops: Vec<FsOp> = Vec::new();
    ops.push(FsOp::EnsureDir { path: folder.clone() });
    ops.push(FsOp::WriteFile { path: saved.path, contents: saved.contents });
    let ghost es = config.entries();
    let ghost head = seq![
        OpView::EnsureDir(folder@),
        OpView::WriteFile(spec_join(folder@, config_file_name()), manifest_text(es)),
    ];
    assert(op_views(ops@) =~= head);
    let mut k: usize = 0;
    while k < config.elements.len()
        invariant
            k <= config.elements.len(),
            es == config.entries(),
            op_views(ops@) == head + es.take(k as int).map_values(
                |e: (Seq<char>, EElementType)| backup_entry_op(folder@, e),
            ),
        decreases config.elements.len() - k,
    {
        let ghost old_ops = ops;
        let e = &config.elements[k];
        ops.push(backup_entry_step(&folder, &e.path, e.content_type));
        proof {
            let cl = |e: (Seq<char>, EElementType)| backup_entry_op(folder@, e);
            assert(es[k as int] == e@);
            assert(es.take(k + 1) =~= es.take(k as int).push(e@));
            assert(es.take(k as int).push(e@).map_values(cl) =~= es.take(k as int).map_values(
                cl,
            ).push(backup_entry_op(folder@, e@)));
            assert(op_views(ops@) =~= op_views(old_ops@).push(ops@.last()@));
        }
        k = k + 1;
    }
    assert(es.take(es.len() as int) =~= es);
    Ok(ops)
}

fn recovery_entry_step(folder: &String, path: &String, kind: EElementType, action: EFileAction) -> (r: FsOp)
    ensures
        r@ == recovery_entry_op(folder@, (path@, kind), action),
{
    match file_name(path.as_str()) {
        None => FsOp::Unplaceable { path: path.clone() },
        Some(n) => {
            let current = join(folder.as_str(), n.as_str());
            if kind == EElementType::Folder {
                FsOp::TransferTree { from: current, to_parent: parent(path.as_str()), action }
            } else {
                match action {
                    EFileAction::Moved => FsOp::MoveFile { from: current, to: path.clone() },
                    EFileAction::Copied => FsOp::CopyFile { from: current, to: path.clone() },
                }
            }
        },
    }
}

/// The manifest file of the backup folder that `config` names.
pub fn recovery_manifest_path(config: &SRecoveryPanel) -> (r: String)
    ensures
        r@ == spec_join(config.backup_folder@, config_file_name()),
{
    join(config.backup_folder.as_str(), config_file_name_str())
}

/// The steps that bring back the entries that `manifest` (the text of the
/// backup folder's manifest file) records.
pub fn recovery(config: &SRecoveryPanel, manifest: &str) -> (r: Result<Vec<FsOp>, ManifestError>)
    ensures
        match parse_manifest_text(manifest@) {
            None => r == Err::<Vec<FsOp>, ManifestError>(ManifestError::ParseError),
            Some(es) => r is Ok && op_views(r->Ok_0@) == recovery_plan(
                config.backup_folder@,
                es,
                config.file_action,
            ),
        },
{
    let elements = match parse_manifest(manifest) {
        None => {
            return Err(ManifestError::ParseError);
        },
        Some(v) => v,
    };
    let folder = &config.backup_folder;
    let action = config.file_action;
    let ghost es = entry_views(elements@);
    let ghost cl = |e: (Seq<char>, EElementType)| recovery_entry_op(folder@, e, action);
    let mut ops: Vec<FsOp> = Vec::new();
    let mut k: usize = 0;
    assert(op_views(ops@) =~= es.take(0).map_values(cl));
    while k < elements.len()
        invariant
            k <= elements.len(),
            es == entry_views(elements@),
            cl == (|e: (Seq<char>, EElementType)| recovery_entry_op(folder@, e, action)),
            op_views(ops@) == es.take(k as int).map_values(cl),
        decreases elements.len() - k,
    {
        let ghost old_ops = ops;
        let e = &elements[k];
        ops.push(recovery_entry_step(folder, &e.path, e.content_type, action));
        proof {
            assert(es[k as int] == e@);
            assert(es.take(k + 1) =~= es.take(k as int).push(e@));
            assert(es.take(k as int).push(e@).map_values(cl) =~= es.take(k as int).map_values(
                cl,
            ).push(recovery_entry_op(folder@, e@, action)));
            assert(op_views(ops@) =~= op_views(old_ops@).push(ops@.last()@));
        }
        k = k + 1;
    }
    let ghost body = op_views(ops@);
    if action == EFileAction::Moved {
        ops.push(FsOp::RemoveTree { path: folder.clone() });
    }
    proof {
        assert(es.take(es.len() as int) =~= es);
        assert(op_views(ops@) =~= recovery_plan(folder@, es, action));
    }
    Ok(ops)
}

/// A recovery reads back the manifest that the backup wrote into the folder,
/// and brings each entry to the path the backup took it from, reading it
/// where the backup put it. By copy it takes nothing away, so the folder keeps
/// its copies; by move it ends by removing the folder.
pub proof fn lemma_backup_then_recovery(
    folder: Seq<char>,
    es: Seq<(Seq<char>, EElementType)>,
    action: EFileAction,
)
    requires
        forall|k: int|
            0 <= k < es.len() ==> spec_file_name(#[trigger] es[k].0) is Some && no_empty_component(
                es[k].0,
            ),
    ensures
        ({
            let b = backup_plan(folder, es);
            let r = recovery_plan(folder, es, action);
            &&& b.len() == es.len() + 2
            &&& b[1] == OpView::WriteFile(spec_join(folder, config_file_name()), manifest_text(es))
            &&& parse_manifest_text(manifest_text(es)) == Some(es)
            &&& r.len() == es.len() + (if action == EFileAction::Moved {
                1int
            } else {
                0int
            })
            &&& forall|k: int|
                0 <= k < es.len() ==> op_source(b[k + 2]) == es[k].0 && op_target(#[trigger] r[k])
                    == es[k].0 && op_source(r[k]) == op_target(b[k + 2])
            &&& action == EFileAction::Copied ==> forall|i: int|
                0 <= i < r.len() ==> !op_takes_away(#[trigger] r[i])
            &&& action == EFileAction::Moved ==> r[r.len() - 1] == OpView::RemoveTree(folder)
        }),
{
    lemma_manifest_text_round_trip(es);
    let b = backup_plan(folder, es);
    let r = recovery_plan(folder, es, action);
    assert forall|k: int| 0 <= k < es.len() implies op_source(b[k + 2]) == es[k].0 && op_target(
        #[trigger] r[k],
    ) == es[k].0 && op_source(r[k]) == op_target(b[k + 2]) by {
        let p = es[k].0;
        let n = spec_file_name(p)->0;
        lemma_file_name_is_name(p);
        lemma_file_name_join(folder, n);
        lemma_join_parent_file_name(p);
        assert(b[k + 2] == backup_entry_op(folder, es[k]));
        assert(r[k] == recovery_entry_op(folder, es[k], action));
    }
}

/// A backup plans one step for every entry, made from that entry alone: an
/// entry that cannot be copied (here `other` in place of the entry at `j`)
/// leaves the steps of all other entries as they were.
pub proof fn lemma_backup_entries_apart(
    folder: Seq<char>,
    es: Seq<(Seq<char>, EElementType)>,
    j: int,
    other: (Seq<char>, EElementType),
)
    requires
        0 <= j < es.len(),
    ensures
        backup_plan(folder, es.update(j, other)).len() == backup_plan(folder, es).len(),
        forall|k: int|
            0 <= k < es.len() && k != j ==> #[trigger] backup_plan(folder, es.update(j, other))[k
                + 2] == backup_plan(folder, es)[k + 2],
{
    let es2 = es.update(j, other);
    assert forall|k: int| 0 <= k < es.len() && k != j implies #[trigger] backup_plan(folder, es2)[k
        + 2] == backup_plan(folder, es)[k + 2] by {
        assert(es2[k] == es[k]);
    }
}

} // verus!
