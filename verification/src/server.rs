//! Server registry entries: one managed server directory with its parsed
//! configuration, and the list of them.  The surrounding application reads
//! and writes the on-disk text forms; the library holds the records and the
//! rules for loading, editing, reverting and saving a configuration.

use vstd::prelude::*;
use vstd::string::StrSliceExecFns;
use vstd::string::StringExecFns;

use crate::config::ServerConfig;
use crate::config::config_eq;
use crate::errors::CoreError;
use crate::strutil::last_segment;
use crate::strutil::last_segment_exec;

verus! {

/// Relies on `uuid::Uuid::new_v4` and its hyphenated `Display` form: a
/// freshly generated random identifier rendered as 36 characters.  The value
/// is random; nothing but its length is assumed.
#[verifier::external_body]
fn fresh_id() -> (r: String)
    ensures
        r@.len() == 36,
{
    uuid::Uuid::new_v4().to_string()
}

/// One managed server directory: its generated identity, display name,
/// path, and the loaded and edited configuration with any load error.
#[derive(Debug)]
pub struct ServerEntry {
    pub id: String,
    pub name: String,
    pub path: String,
    pub loaded_config: Option<ServerConfig>,
    pub edited_config: Option<ServerConfig>,
    pub config_error: Option<String>,
}

/// What loading a configuration read/parse outcome into an entry leaves
/// behind: a successful parse fills both configuration slots and clears the
/// error; a failure stores the message and empties both slots.
pub open spec fn load_config_post(
    e: ServerEntry,
    config: Result<ServerConfig, String>,
) -> bool {
    match config {
        Ok(c) => {
            &&& e.loaded_config matches Some(l) && l@ == c@
            &&& e.edited_config matches Some(d) && d@ == c@
            &&& e.config_error is None
        },
        Err(msg) => {
            &&& e.loaded_config is None
            &&& e.edited_config is None
            &&& e.config_error matches Some(m) && m@ == msg@
        },
    }
}

impl ServerEntry {
    /// Builds an entry for a server directory.  `config_file` is what the
    /// caller found on disk: `None` when the configuration file is absent
    /// (the directory is refused), otherwise the outcome of reading and
    /// parsing it.  The display name is the directory's own name (or
    /// `Unknown` when the path yields none), overridden by a nonempty
    /// server name from a successfully parsed configuration.
    pub fn new(path: String, config_file: Option<Result<ServerConfig, String>>) -> (r: Result<
        ServerEntry,
        CoreError,
    >)
        ensures
            config_file is None ==> r == Err::<ServerEntry, CoreError>(CoreError::ConfigNotFound),
            config_file matches Some(cfg) ==> {
                &&& r is Ok
                &&& r->Ok_0.path@ == path@
                &&& r->Ok_0.id@.len() == 36
                &&& load_config_post(r->Ok_0, cfg)
                &&& r->Ok_0.name@ == (match cfg {
                    Ok(c) => if c.general.name@.len() > 0 {
                        c.general.name@
                    } else if last_segment(path@).len() > 0 {
                        last_segment(path@)
                    } else {
                        "Unknown"@
                    },
                    Err(_) => if last_segment(path@).len() > 0 {
                        last_segment(path@)
                    } else {
                        "Unknown"@
                    },
                })
            },
    {
        let cfg = match config_file {
            None => {
                return Err(CoreError::ConfigNotFound);
            },
            Some(cfg) => cfg,
        };
        let seg = last_segment_exec(path.as_str());
        let base_name = if seg.as_str().unicode_len() > 0 {
            seg
        } else {
            String::from_str("Unknown")
        };
        let mut entry = ServerEntry {
            id: fresh_id(),
            name: base_name,
            path,
            loaded_config: None,
            edited_config: None,
            config_error: None,
        };
        entry.load_config(cfg);
        let override_name: Option<String> = match &entry.loaded_config {
            Some(c) => {
                if c.general.name.as_str().unicode_len() > 0 {
                    Some(c.general.name.clone())
                } else {
                    None
                }
            },
            None => None,
        };
        if let Some(n) = override_name {
            entry.name = n;
        }
        Ok(entry)
    }

    /// Stores the outcome of reading and parsing the configuration file:
    /// a parsed configuration fills both the loaded and the edited slot and
    /// clears the error; a read or parse failure stores its message and
    /// empties both slots.  Identity, name and path are untouched.
    pub fn load_config(&mut self, config: Result<ServerConfig, String>)
        ensures
            final(self).id == old(self).id,
            final(self).name == old(self).name,
            final(self).path == old(self).path,
            load_config_post(*final(self), config),
    {
        match config {
            Ok(c) => {
                let copy = c.clone();
                self.loaded_config = Some(copy);
                self.edited_config = Some(c);
                self.config_error = None;
            },
            Err(msg) => {
                self.config_error = Some(msg);
                self.loaded_config = None;
                self.edited_config = None;
            },
        }
    }

    /// Commits the edited configuration and returns the value the caller is
    /// to serialize and write to disk; with nothing edited, reports
    /// `NoConfigToSave` and changes nothing.
    pub fn save_config(&mut self) -> (r: Result<ServerConfig, CoreError>)
        ensures
            old(self).edited_config matches Some(c) ==> {
                &&& r is Ok
                &&& r->Ok_0@ == c@
                &&& final(self).loaded_config matches Some(l) && l@ == c@
                &&& final(self).edited_config == old(self).edited_config
                &&& final(self).id == old(self).id
                &&& final(self).name == old(self).name
                &&& final(self).path == old(self).path
                &&& final(self).config_error == old(self).config_error
            },
            old(self).edited_config is None ==> r == Err::<ServerConfig, CoreError>(
                CoreError::NoConfigToSave,
            ) && *final(self) == *old(self),
    {
        match &self.edited_config {
            Some(c) => {
                let copy = c.clone();
                let out = copy.clone();
                self.loaded_config = Some(copy);
                Ok(out)
            },
            None => Err(CoreError::NoConfigToSave),
        }
    }

    /// Discards edits by restoring the edited configuration from the loaded
    /// one; with nothing loaded, changes nothing.
    pub fn revert_config(&mut self)
        ensures
            final(self).id == old(self).id,
            final(self).name == old(self).name,
            final(self).path == old(self).path,
            final(self).loaded_config == old(self).loaded_config,
            final(self).config_error == old(self).config_error,
            old(self).loaded_config matches Some(l) ==> final(self).edited_config matches Some(e)
                && e@ == l@,
            old(self).loaded_config is None ==> final(self).edited_config == old(
                self,
            ).edited_config,
    {
        let restored: Option<ServerConfig> = match &self.loaded_config {
            Some(l) => Some(l.clone()),
            None => None,
        };
        if let Some(c) = restored {
            self.edited_config = Some(c);
        }
    }

    /// There are unsaved edits: both configurations are present and differ.
    pub fn is_config_dirty(&self) -> (r: bool)
        ensures
            r == match (self.loaded_config, self.edited_config) {
                (Some(l), Some(e)) => l@ != e@,
                _ => false,
            },
    {
        match (&self.loaded_config, &self.edited_config) {
            (Some(l), Some(e)) => !config_eq(l, e),
            _ => false,
        }
    }

    /// The resource folder the edited configuration names, or the stock
    /// `Resources` with nothing edited.
    pub fn get_resource_folder(&self) -> (r: String)
        ensures
            match self.edited_config {
                Some(c) => r@ == c.general.resource_folder@,
                None => r@ == "Resources"@,
            },
    {
        match &self.edited_config {
            Some(c) => c.general.resource_folder.clone(),
            None => String::from_str("Resources"),
        }
    }
}

/// The persisted list of managed servers.
#[derive(Debug)]
pub struct ServerList {
    pub servers: Vec<ServerEntry>,
}

impl Default for ServerList {
    /// An empty list.
    fn default() -> (r: Self)
        ensures
            r.servers@ =~= Seq::<ServerEntry>::empty(),
    {
        ServerList { servers: Vec::new() }
    }
}

impl ServerList {
    /// Appends a built entry and returns its display name.
    pub fn add_server(&mut self, entry: ServerEntry) -> (r: String)
        ensures
            final(self).servers@ == old(self).servers@.push(entry),
            r@ == entry.name@,
    {
        let name = entry.name.clone();
        self.servers.push(entry);
        name
    }

    /// Removes the entry at `index`; an out-of-range index changes nothing.
    pub fn remove_server(&mut self, index: usize)
        ensures
            index < old(self).servers@.len() ==> final(self).servers@ == old(
                self,
            ).servers@.remove(index as int),
            index >= old(self).servers@.len() ==> *final(self) == *old(self),
    {
        if index < self.servers.len() {
            self.servers.remove(index);
        }
    }
}

} // verus!
