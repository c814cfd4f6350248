//! Error kinds shared by every subsystem.
//!
//! The payload of a variant is the full user-facing message, built at
//! construction time; `message` returns it (or the fixed text of a
//! payload-free variant) for display by the caller.

use vstd::prelude::*;
use vstd::string::StringExecFns;

verus! {

/// One error kind per failure class of the package manager.
#[derive(Debug)]
pub enum Error {
    /// Filesystem failure, carrying the underlying message.
    Io(String),
    /// Malformed reference or other format problem.
    Format,
    /// Underlying sync-protocol (network / object resolution) failure.
    Git(String),
    /// The editor could not be launched.
    Editor,
    /// A plugin build command failed.
    Build(String),
    /// The plugin directory is missing.
    PluginNotInstalled(String),
    /// No plugin of the requested name is known.
    NoPlugin,
    /// Local plugin without a remote: nothing to sync.
    SkipLocal,
    /// The plugin directory already exists.
    PluginInstalled(String),
    /// The persisted package file is unusable.
    PackFile(String),
    /// Copying a directory tree failed.
    CopyDir(String),
    /// The persisted package set could not be written.
    SaveYaml,
    /// The persisted package set could not be read.
    LoadYaml,
}

impl Error {
    /// Message text of this error, as shown to the user.
    pub open spec fn spec_message(self) -> Seq<char> {
        match self {
            Error::Io(m) => m@,
            Error::Format => "Invalid format"@,
            Error::Git(m) => m@,
            Error::Editor => "Can not open editor"@,
            Error::Build(m) => m@,
            Error::PluginNotInstalled(m) => m@,
            Error::NoPlugin => "Can not find such plugin"@,
            Error::SkipLocal => "Local plugin. Skipping"@,
            Error::PluginInstalled(m) => m@,
            Error::PackFile(m) => m@,
            Error::CopyDir(m) => m@,
            Error::SaveYaml => "Fail to save packfile"@,
            Error::LoadYaml => "Fail to load packfile"@,
        }
    }

    /// A directory copy failed for the reason in `s`.
    pub fn copy_dir(s: &str) -> (e: Error)
        ensures
            e is CopyDir,
            e.spec_message() == "Fail to copy directory: "@ + s@,
    {
        Error::CopyDir("Fail to copy directory: ".to_owned().concat(s))
    }

    /// A plugin build command failed for the reason in `s`.
    pub fn build(s: &str) -> (e: Error)
        ensures
            e is Build,
            e.spec_message() == "Fail to build plugin: "@ + s@,
    {
        Error::Build("Fail to build plugin: ".to_owned().concat(s))
    }

    /// The plugin is already installed under the path `s`; the path is
    /// quoted in the message.
    pub fn plugin_installed(s: &str) -> (e: Error)
        ensures
            e is PluginInstalled,
            e.spec_message() == "Plugin already installed under \""@ + s@ + "\""@,
    {
        Error::PluginInstalled(
            "Plugin already installed under \"".to_owned().concat(s).concat("\""),
        )
    }

    /// The plugin named `s` has no directory on disk.
    pub fn plugin_not_installed(s: &str) -> (e: Error)
        ensures
            e is PluginNotInstalled,
            e.spec_message() == s@ + " not installed"@,
    {
        Error::PluginNotInstalled(s.to_owned().concat(" not installed"))
    }

    /// Full message text for display.
    pub fn message(&self) -> (m: String)
        ensures
            m@ == self.spec_message(),
    {
        match self {
            Error::Io(m) => m.clone(),
            Error::Format => "Invalid format".to_owned(),
            Error::Git(m) => m.clone(),
            Error::Editor => "Can not open editor".to_owned(),
            Error::Build(m) => m.clone(),
            Error::PluginNotInstalled(m) => m.clone(),
            Error::NoPlugin => "Can not find such plugin".to_owned(),
            Error::SkipLocal => "Local plugin. Skipping".to_owned(),
            Error::PluginInstalled(m) => m.clone(),
            Error::PackFile(m) => m.clone(),
            Error::CopyDir(m) => m.clone(),
            Error::SaveYaml => "Fail to save packfile".to_owned(),
            Error::LoadYaml => "Fail to load packfile".to_owned(),
        }
    }
}

} // verus!
