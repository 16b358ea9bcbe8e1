use sbackup::backup_service::{backup, recovery, recovery_manifest_path, BackupError, SBackupUI, SRecoveryPanel};
use sbackup::config::{EElementType, ManifestError, SBackupConfig, SConfigElement};
use sbackup::transfer::{copy_dir, EFileAction, FsOp, TreeEntry};

fn s(x: &str) -> String {
    x.to_string()
}

fn tree() -> Vec<TreeEntry> {
    vec![
        TreeEntry { rel_path: s("x.txt"), is_dir: false },
        TreeEntry { rel_path: s("b"), is_dir: true },
        TreeEntry { rel_path: s("b/y.txt"), is_dir: false },
    ]
}

fn ops_text(ops: &[FsOp]) -> Vec<String> {
    ops.iter().map(|o| format!("{o:?}")).collect()
}

fn copy(from: &str, to: &str) -> FsOp {
    FsOp::CopyFile { from: s(from), to: s(to) }
}

fn moved(from: &str, to: &str) -> FsOp {
    FsOp::MoveFile { from: s(from), to: s(to) }
}

fn dir(path: &str) -> FsOp {
    FsOp::EnsureDir { path: s(path) }
}

#[test]
fn copying_a_tree_keeps_relative_paths() {
    let ops = copy_dir("/src/a", "/d", true, &tree(), EFileAction::Copied).unwrap();
    let expected = vec![
        dir("/d/a"),
        copy("/src/a/x.txt", "/d/a/x.txt"),
        dir("/d/a/b"),
        copy("/src/a/b/y.txt", "/d/a/b/y.txt"),
    ];
    assert_eq!(ops_text(&ops), ops_text(&expected));
}

#[test]
fn moving_a_tree_moves_every_file() {
    let ops = copy_dir("/src/a", "/d/", true, &tree(), EFileAction::Moved).unwrap();
    let expected = vec![
        dir("/d/a"),
        moved("/src/a/x.txt", "/d/a/x.txt"),
        dir("/d/a/b"),
        moved("/src/a/b/y.txt", "/d/a/b/y.txt"),
    ];
    assert_eq!(ops_text(&ops), ops_text(&expected));
    assert!(!ops.iter().any(|o| matches!(o, FsOp::CopyFile { .. })));
}

#[test]
fn copying_twice_gives_the_same_steps() {
    let first = copy_dir("/src/a", "/d", true, &tree(), EFileAction::Copied).unwrap();
    let second = copy_dir("/src/a", "/d", true, &tree(), EFileAction::Copied).unwrap();
    assert_eq!(ops_text(&first), ops_text(&second));
    assert!(first
        .iter()
        .all(|o| matches!(o, FsOp::EnsureDir { .. } | FsOp::CopyFile { .. })));
}

#[test]
fn a_single_file_goes_under_its_name() {
    let ops = copy_dir("/src/f.txt", "/d", false, &Vec::new(), EFileAction::Moved).unwrap();
    assert_eq!(ops_text(&ops), ops_text(&[moved("/src/f.txt", "/d/f.txt")]));
}

#[test]
fn a_source_without_a_name_cannot_be_placed() {
    assert!(copy_dir("/src/..", "/d", true, &tree(), EFileAction::Copied).is_none());
    assert!(copy_dir("/", "/d", true, &tree(), EFileAction::Copied).is_none());
}

fn manifest() -> SBackupConfig {
    let mut config = SBackupConfig::new(String::new()).unwrap();
    config.add_element(SConfigElement::new(s("/home/u/f.txt"), EElementType::File));
    config.add_element(SConfigElement::new(s("/home/u/docs"), EElementType::Folder));
    config
}

fn details(name: &str, path: &str) -> SBackupUI {
    SBackupUI { folder_name: s(name), folder_path: s(path) }
}

#[test]
fn backup_needs_name_path_and_entries() {
    let config = manifest();
    assert_eq!(backup(&config, &details("", "/b")).err(), Some(BackupError::MissingFolderName));
    assert_eq!(backup(&config, &details("set", "")).err(), Some(BackupError::MissingFolderPath));
    let empty = SBackupConfig::new(String::new()).unwrap();
    assert_eq!(backup(&empty, &details("set", "/b")).err(), Some(BackupError::NoElements));
    let defaults = SBackupUI::new();
    assert_eq!(defaults.folder_name, "backup");
    assert_eq!(backup(&config, &defaults).err(), Some(BackupError::MissingFolderPath));
}

#[test]
fn backup_creates_the_folder_writes_the_manifest_and_copies() {
    let config = manifest();
    let ops = backup(&config, &details("set", "/mnt/b")).unwrap();
    let text = config.save(s("/mnt/b/set")).contents;
    let expected = vec![
        dir("/mnt/b/set"),
        FsOp::WriteFile { path: s("/mnt/b/set/backup_config.toml"), contents: text },
        copy("/home/u/f.txt", "/mnt/b/set/f.txt"),
        FsOp::TransferTree { from: s("/home/u/docs"), to_parent: s("/mnt/b/set"), action: EFileAction::Copied },
    ];
    assert_eq!(ops_text(&ops), ops_text(&expected));
}

#[test]
fn backup_plans_every_entry_even_one_without_a_name() {
    let mut config = manifest();
    config.add_element(SConfigElement::new(s("/home/u/.."), EElementType::File));
    config.add_element(SConfigElement::new(s("/home/u/g.txt"), EElementType::Anything));
    let ops = backup(&config, &details("set", "/b")).unwrap();
    assert_eq!(ops.len(), 6);
    assert_eq!(ops_text(&ops[4..]), ops_text(&[
        FsOp::Unplaceable { path: s("/home/u/..") },
        copy("/home/u/g.txt", "/b/set/g.txt"),
    ]));
}

fn written_manifest(ops: &[FsOp]) -> String {
    match &ops[1] {
        FsOp::WriteFile { contents, .. } => contents.clone(),
        other => panic!("unexpected step {other:?}"),
    }
}

#[test]
fn recovery_by_copy_reverses_the_backup_and_keeps_the_folder() {
    let ops = backup(&manifest(), &details("set", "/mnt/b")).unwrap();
    let panel = SRecoveryPanel { file_action: EFileAction::Copied, backup_folder: s("/mnt/b/set") };
    assert_eq!(recovery_manifest_path(&panel), "/mnt/b/set/backup_config.toml");
    let back = recovery(&panel, &written_manifest(&ops)).unwrap();
    let expected = vec![
        copy("/mnt/b/set/f.txt", "/home/u/f.txt"),
        FsOp::TransferTree { from: s("/mnt/b/set/docs"), to_parent: s("/home/u"), action: EFileAction::Copied },
    ];
    assert_eq!(ops_text(&back), ops_text(&expected));
}

#[test]
fn recovery_by_move_restores_and_removes_the_folder() {
    let ops = backup(&manifest(), &details("set", "/mnt/b")).unwrap();
    let panel = SRecoveryPanel { file_action: EFileAction::Moved, backup_folder: s("/mnt/b/set") };
    let back = recovery(&panel, &written_manifest(&ops)).unwrap();
    let expected = vec![
        moved("/mnt/b/set/f.txt", "/home/u/f.txt"),
        FsOp::TransferTree { from: s("/mnt/b/set/docs"), to_parent: s("/home/u"), action: EFileAction::Moved },
        FsOp::RemoveTree { path: s("/mnt/b/set") },
    ];
    assert_eq!(ops_text(&back), ops_text(&expected));
    let tree_ops = copy_dir("/mnt/b/set/docs", "/home/u", true, &tree(), EFileAction::Moved).unwrap();
    assert_eq!(ops_text(&tree_ops[..2]), ops_text(&[dir("/home/u/docs"), moved("/mnt/b/set/docs/x.txt", "/home/u/docs/x.txt")]));
}

#[test]
fn recovery_needs_a_well_formed_manifest() {
    let panel = SRecoveryPanel::new();
    assert_eq!(panel.file_action, EFileAction::Copied);
    assert_eq!(recovery(&panel, "not a manifest").err(), Some(ManifestError::ParseError));
    assert!(recovery(&panel, "").unwrap().is_empty());
}
