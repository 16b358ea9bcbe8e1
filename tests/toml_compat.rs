use sbackup::config::{EElementType, SBackupConfig, SConfigElement};
use toml::{Table, Value};

fn sample_paths() -> Vec<(String, EElementType)> {
    vec![
        ("/home/u/notes.txt".to_string(), EElementType::File),
        ("/home/u/my \"quoted\" dir".to_string(), EElementType::Folder),
        ("C:\\data\\file.bin".to_string(), EElementType::File),
        ("/home/u/\u{e9}t\u{e9}".to_string(), EElementType::Anything),
    ]
}

#[test]
fn written_manifest_is_toml_with_the_same_values() {
    let mut config = SBackupConfig::new(String::new()).unwrap();
    for (p, k) in sample_paths() {
        config.add_element(SConfigElement::new(p, k));
    }
    let text = config.save("/b".to_string()).contents;
    let table: Table = toml::from_str(&text).unwrap();
    let elements = table["elements"].as_array().unwrap();
    assert_eq!(elements.len(), 4);
    let tags = ["File", "Folder", "File", "Anything"];
    for (i, (p, _)) in sample_paths().iter().enumerate() {
        assert_eq!(elements[i]["path"].as_str(), Some(p.as_str()));
        assert_eq!(elements[i]["content_type"].as_str(), Some(tags[i]));
    }
}

#[test]
fn manifest_written_by_toml_is_read_back() {
    let mut items = Vec::new();
    for (p, k) in sample_paths() {
        let mut t = Table::new();
        t.insert("path".to_string(), Value::String(p));
        let tag = match k {
            EElementType::File => "File",
            EElementType::Folder => "Folder",
            EElementType::Anything => "Anything",
        };
        t.insert("content_type".to_string(), Value::String(tag.to_string()));
        items.push(Value::Table(t));
    }
    let mut root = Table::new();
    root.insert("elements".to_string(), Value::Array(items));
    let text = toml::to_string(&root).unwrap();
    let config = match SBackupConfig::new(text.clone()) {
        Ok(c) => c,
        Err(e) => panic!("{e:?} on {text:?}"),
    };
    let got: Vec<(String, EElementType)> = config
        .elements
        .iter()
        .map(|e| (e.path.clone(), e.content_type))
        .collect();
    assert_eq!(got, sample_paths());
}
