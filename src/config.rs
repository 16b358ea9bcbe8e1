//! The manifest: which files and folders belong to a backup set.
use vstd::prelude::*;
use crate::manifest_text::{entry_views, manifest_text, manifest_text_of, parse_manifest, parse_manifest_text};
use crate::paths::{join, spec_join};

verus! {

/// How a manifest entry is treated; `Anything` only stands for "any kind"
/// while a path is being picked.
#[derive(PartialEq, Eq, Structural, Clone, Copy, Debug)]
pub enum EElementType {
    File,
    Folder,
    Anything,
}

/// One tracked path and its kind.
#[derive(Debug)]
pub struct SConfigElement {
    pub path: String,
    pub content_type: EElementType,
}

impl View for SConfigElement {
    type V = (Seq<char>, EElementType);

    open spec fn view(&self) -> (Seq<char>, EElementType) {
        (self.path@, self.content_type)
    }
}

impl SConfigElement {
    pub fn new(path: String, content_type: EElementType) -> (r: SConfigElement)
        ensures
            r@ == (path@, content_type),
    {
        SConfigElement { path, content_type }
    }
}

/// Why a manifest could not be read or written.
#[derive(PartialEq, Eq, Structural, Clone, Copy, Debug)]
pub enum ManifestError {
    ReadError,
    ParseError,
    WriteError,
}

/// The name of the manifest document inside its directory.
pub open spec fn config_file_name() -> Seq<char> {
    "backup_config.toml"@
}

pub fn config_file_name_str() -> (r: &'static str)
    ensures
        r@ == config_file_name(),
{
    "backup_config.toml"
}

/// A document to be written: where, and what.
#[derive(Debug)]
pub struct ManifestFile {
    pub path: String,
    pub contents: String,
}

/// The set of tracked entries, and the file they are saved to once known.
#[derive(Debug)]
pub struct SBackupConfig {
    pub elements: Vec<SConfigElement>,
    pub path: String,
}

impl SBackupConfig {
    pub open spec fn entries(&self) -> Seq<(Seq<char>, EElementType)> {
        entry_views(self.elements@)
    }

    /// A manifest holding what the document `config_text` records; an empty
    /// text gives an empty manifest.
    pub fn new(config_text: String) -> (r: Result<SBackupConfig, ManifestError>)
        ensures
            config_text@.len() == 0 ==> r is Ok,
            config_text@.len() > 0 ==> (r is Ok <==> parse_manifest_text(config_text@) is Some),
            match r {
                Ok(c) => c.path@.len() == 0 && (config_text@.len() == 0 ==> c.entries().len()
                    == 0) && (config_text@.len() > 0 ==> parse_manifest_text(config_text@)
                    == Some(c.entries())),
                Err(e) => e == ManifestError::ParseError,
            },
    {
        let mut config = SBackupConfig { elements: Vec::new(), path: String::new() };
        assert(config.entries() =~= Seq::empty());
        if config_text.as_str().unicode_len() > 0 {
            match config.load_config(config_text.as_str()) {
                Ok(()) => {},
                Err(e) => {
                    return Err(e);
                },
            }
        }
        Ok(config)
    }

    /// Replaces the entries with those that `config_text` records; leaves the
    /// manifest as it was when the document is not well formed.
    pub fn load_config(&mut self, config_text: &str) -> (r: Result<(), ManifestError>)
        ensures
            final(self).path == old(self).path,
            match parse_manifest_text(config_text@) {
                Some(es) => r is Ok && final(self).entries() == es,
                None => r == Err::<(), ManifestError>(ManifestError::ParseError) && final(self).elements@
                    == old(self).elements@,
            },
    {
        match parse_manifest(config_text) {
            Some(v) => {
                self.elements = v;
                Ok(())
            },
            None => Err(ManifestError::ParseError),
        }
    }

    /// The document that saves the entries into the directory `config_path`.
    pub fn save(&self, config_path: String) -> (r: ManifestFile)
        ensures
            r.path@ == spec_join(config_path@, config_file_name()),
            r.contents@ == manifest_text(self.entries()),
    {
        ManifestFile {
            path: join(config_path.as_str(), config_file_name_str()),
            contents: manifest_text_of(&self.elements),
        }
    }

    /// Saves to the remembered file; when none is remembered yet, remembers
    /// the manifest file inside `config_path` first.
    pub fn auto_save(&mut self, config_path: String) -> (r: ManifestFile)
        ensures
            old(self).path@.len() == 0 ==> final(self).path@ == spec_join(
                config_path@,
                config_file_name(),
            ),
            old(self).path@.len() > 0 ==> final(self).path == old(self).path,
            final(self).elements@ == old(self).elements@,
            r.path@ == final(self).path@,
            r.contents@ == manifest_text(final(self).entries()),
    {
        if self.path.as_str().unicode_len() == 0 {
            self.path = join(config_path.as_str(), config_file_name_str());
        }
        ManifestFile { path: self.path.clone(), contents: manifest_text_of(&self.elements) }
    }

    /// Appends an entry.
    pub fn add_element(&mut self, element: SConfigElement)
        ensures
            final(self).entries() == old(self).entries().push(element@),
            final(self).path == old(self).path,
    {
        self.elements.push(element);
        assert(self.entries() =~= old(self).entries().push(element@));
    }

    /// Removes the entry at `index`; an index past the end changes nothing.
    pub fn remove_element(&mut self, index: usize)
        ensures
            index < old(self).elements.len() ==> final(self).entries() == old(
                self,
            ).entries().remove(index as int),
            index >= old(self).elements.len() ==> final(self).elements@ == old(self).elements@,
            final(self).path == old(self).path,
    {
        if index < self.elements.len() {
            self.elements.remove(index);
            assert(self.entries() =~= old(self).entries().remove(index as int));
        }
    }

    /// Removes every entry.
    pub fn clear_elements(&mut self)
        ensures
            final(self).entries().len() == 0,
            final(self).path == old(self).path,
    {
        self.elements.clear();
    }
}

} // verus!
