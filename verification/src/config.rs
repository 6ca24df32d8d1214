//! Application settings and the manager that holds them between a load and a
//! save.  Reading and writing the settings file is left to the caller.

use vstd::prelude::*;

verus! {

/// What the user has configured.
#[derive(Clone, Debug)]
pub struct Settings {
    /// Directory that holds the game's add-ons.
    pub gamedir: Option<String>,
    /// Version of the application that last saved the settings.
    pub version: Option<String>,
    /// Key for the remote catalog service, where the user has one.
    pub steam_apikey: Option<String>,
    /// Whether usage statistics may be sent.
    pub telemetry: bool,
}

impl Default for Settings {
    fn default() -> (r: Settings)
        ensures
            r.gamedir is None,
            r.version is None,
            r.steam_apikey is None,
            !r.telemetry,
    {
        Settings { gamedir: None, version: None, steam_apikey: None, telemetry: false }
    }
}

fn clone_text(text: &Option<String>) -> (r: Option<String>)
    ensures
        r == *text,
{
    match text {
        Some(s) => Some(s.clone()),
        None => None,
    }
}

/// Holds the current settings together with the path of the file they are
/// stored in.
pub struct SettingsManager {
    config_path: String,
    settings: Settings,
}

impl SettingsManager {
    /// The settings currently held.
    pub closed spec fn settings(&self) -> Settings {
        self.settings
    }

    /// The path of the settings file.
    pub closed spec fn config_path(&self) -> Seq<char> {
        self.config_path@
    }

    /// A manager for the settings file at `config_path`, holding the default
    /// settings until others are put in.
    pub fn new(config_path: String) -> (r: SettingsManager)
        ensures
            r.config_path() == config_path@,
            r.settings().gamedir is None,
            r.settings().version is None,
            r.settings().steam_apikey is None,
            !r.settings().telemetry,
    {
        SettingsManager { config_path, settings: Settings::default() }
    }

    /// The path of the settings file.
    pub fn path(&self) -> (r: &str)
        ensures
            r@ == self.config_path(),
    {
        self.config_path.as_str()
    }

    /// Puts `settings` in place of the current ones.
    pub fn replace(&mut self, settings: Settings)
        ensures
            final(self).settings() == settings,
            final(self).config_path() == old(self).config_path(),
    {
        self.settings = settings;
    }

    /// The current settings, open to change.
    pub fn get_mut(&mut self) -> (r: &mut Settings)
        ensures
            *r == old(self).settings(),
            final(self).settings() == *final(r),
            final(self).config_path() == old(self).config_path(),
    {
        &mut self.settings
    }

    /// The current settings.
    pub fn get(&self) -> (r: &Settings)
        ensures
            *r == self.settings(),
    {
        &self.settings
    }

    /// A copy of the current settings.
    pub fn get_clone(&self) -> (r: Settings)
        ensures
            r == self.settings(),
    {
        Settings {
            gamedir: clone_text(&self.settings.gamedir),
            version: clone_text(&self.settings.version),
            steam_apikey: clone_text(&self.settings.steam_apikey),
            telemetry: self.settings.telemetry,
        }
    }

    /// Records `version` as the version that saves the settings, as is done
    /// right before they are written out.
    pub fn stamp_version(&mut self, version: &str)
        ensures
            final(self).settings().version matches Some(v) && v@ == version@,
            final(self).settings().gamedir == old(self).settings().gamedir,
            final(self).settings().steam_apikey == old(self).settings().steam_apikey,
            final(self).settings().telemetry == old(self).settings().telemetry,
            final(self).config_path() == old(self).config_path(),
    {
        self.settings.version = Some(version.to_owned());
    }
}

} // verus!
