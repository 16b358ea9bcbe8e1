use sbackup::config::{EElementType, ManifestError, SBackupConfig, SConfigElement};
use sbackup::manifest_text::{manifest_text_of, parse_manifest};

fn element(path: &str, kind: EElementType) -> SConfigElement {
    SConfigElement::new(path.to_string(), kind)
}

fn sample() -> SBackupConfig {
    let mut config = SBackupConfig::new(String::new()).unwrap();
    config.add_element(element("/home/u/notes.txt", EElementType::File));
    config.add_element(element("/home/u/photos", EElementType::Folder));
    config
}

fn pairs(config: &SBackupConfig) -> Vec<(String, EElementType)> {
    config
        .elements
        .iter()
        .map(|e| (e.path.clone(), e.content_type))
        .collect()
}

#[test]
fn save_then_load_keeps_entries_in_order() {
    let config = sample();
    let file = config.save("/backups/b".to_string());
    assert_eq!(file.path, "/backups/b/backup_config.toml");
    let loaded = SBackupConfig::new(file.contents).unwrap();
    assert_eq!(pairs(&loaded), pairs(&config));
}

#[test]
fn save_writes_an_array_of_tables() {
    let config = sample();
    let file = config.save("/backups/b/".to_string());
    assert_eq!(file.path, "/backups/b/backup_config.toml");
    assert_eq!(
        file.contents,
        "[[elements]]\npath = \"/home/u/notes.txt\"\ncontent_type = \"File\"\n\n\
         [[elements]]\npath = \"/home/u/photos\"\ncontent_type = \"Folder\"\n\n"
    );
}

#[test]
fn round_trip_with_quotes_backslashes_and_line_breaks() {
    let mut config = SBackupConfig::new(String::new()).unwrap();
    config.add_element(element("/a \"b\"\\c\nd\te\r", EElementType::File));
    config.add_element(element("/x/unicode \u{e9}\u{4e2d}", EElementType::Folder));
    config.add_element(element("/any", EElementType::Anything));
    let text = manifest_text_of(&config.elements);
    assert!(text.contains("path = \"/a \\\"b\\\"\\\\c\\nd\\te\\r\""));
    let back = parse_manifest(&text).unwrap();
    let got: Vec<(String, EElementType)> = back.iter().map(|e| (e.path.clone(), e.content_type)).collect();
    assert_eq!(got, pairs(&config));
}

#[test]
fn empty_manifest_round_trip() {
    let config = SBackupConfig::new(String::new()).unwrap();
    assert!(config.elements.is_empty());
    assert_eq!(config.path, "");
    let file = config.save("/d".to_string());
    assert_eq!(file.contents, "");
    assert!(SBackupConfig::new(file.contents).unwrap().elements.is_empty());
}

#[test]
fn load_accepts_literal_strings_and_blank_lines() {
    let text = "\n\n[[elements]]\npath = '/p/with \"quote\"'\ncontent_type = \"Folder\"\n\n\n\
                [[elements]]\npath = \"/q\\b\\f\"\ncontent_type = 'File'";
    let config = SBackupConfig::new(text.to_string()).unwrap();
    assert_eq!(
        pairs(&config),
        vec![
            ("/p/with \"quote\"".to_string(), EElementType::Folder),
            ("/q\u{8}\u{c}".to_string(), EElementType::File),
        ]
    );
}

#[test]
fn malformed_documents_are_parse_errors() {
    for text in [
        "elements = 3",
        "[[elements]]\npath = \"/a\"\n",
        "[[elements]]\npath = \"/a\"\ncontent_type = \"Disk\"\n",
        "[[elements]]\npath = \"/a\ncontent_type = \"File\"\n",
        "[[elements]]\npath = \"/a\\q\"\ncontent_type = \"File\"\n",
        "[[elements]]\npath = \"/a\"\ncontent_type = \"File\" x\n",
    ] {
        assert_eq!(
            SBackupConfig::new(text.to_string()).err(),
            Some(ManifestError::ParseError),
            "{text:?}"
        );
    }
}

#[test]
fn failed_load_keeps_the_entries() {
    let mut config = sample();
    let before = pairs(&config);
    assert_eq!(config.load_config("[[elements]]"), Err(ManifestError::ParseError));
    assert_eq!(pairs(&config), before);
    let other = "[[elements]]\npath = \"/z\"\ncontent_type = \"File\"\n";
    assert_eq!(config.load_config(other), Ok(()));
    assert_eq!(pairs(&config), vec![("/z".to_string(), EElementType::File)]);
}

#[test]
fn auto_save_remembers_the_first_directory() {
    let mut config = sample();
    let first = config.auto_save("/home/u/sets".to_string());
    assert_eq!(first.path, "/home/u/sets/backup_config.toml");
    assert_eq!(config.path, "/home/u/sets/backup_config.toml");
    let second = config.auto_save("/elsewhere".to_string());
    assert_eq!(second.path, "/home/u/sets/backup_config.toml");
    assert_eq!(second.contents, first.contents);
}

#[test]
fn remove_and_clear_entries() {
    let mut config = sample();
    config.remove_element(5);
    assert_eq!(config.elements.len(), 2);
    config.remove_element(0);
    assert_eq!(pairs(&config), vec![("/home/u/photos".to_string(), EElementType::Folder)]);
    config.clear_elements();
    assert!(config.elements.is_empty());
    config.remove_element(0);
    assert!(config.elements.is_empty());
}
