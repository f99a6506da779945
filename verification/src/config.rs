//! The configuration values the resolver reads: the selected theme's name
//! and the sound-file extension, together with the single-directory path
//! lookups built directly from them.

use vstd::prelude::*;
use vstd::string::StringExecFns;

use crate::error::ThemerError;

verus! {

/// The configured theme name and sound-file extension.
#[derive(Debug, PartialEq, Eq)]
pub struct Config {
    /// The name of the folder which holds the sound theme.
    pub theme_name: String,
    /// The file extension the theme's sounds use.
    pub sound_ext: String,
}

impl Clone for Config {
    fn clone(&self) -> (r: Self)
        ensures
            r == *self,
    {
        Config { theme_name: self.theme_name.clone(), sound_ext: self.sound_ext.clone() }
    }
}

/// The theme name used when the configuration names none.
pub fn get_default_theme_name() -> (r: String)
    ensures
        r@ == "freedesktop"@,
{
    String::from_str("freedesktop")
}

/// The sound-file extension used when the configuration names none.
pub fn get_default_sound_ext() -> (r: String)
    ensures
        r@ == "oga"@,
{
    String::from_str("oga")
}

/// A copy of the configuration.
pub fn get_config(config: &Config) -> (r: Config)
    ensures
        r == *config,
{
    config.clone()
}

/// Replaces the configured theme name, leaving the extension unchanged.
pub fn override_theme_name(config: &mut Config, theme_name: String)
    ensures
        final(config).theme_name == theme_name,
        final(config).sound_ext == old(config).sound_ext,
{
    config.theme_name = theme_name;
}

/// Replaces the configured sound extension, leaving the theme name
/// unchanged.
pub fn override_sound_ext(config: &mut Config, sound_ext: String)
    ensures
        final(config).sound_ext == sound_ext,
        final(config).theme_name == old(config).theme_name,
{
    config.sound_ext = sound_ext;
}

/// The root directory of the configured theme.
pub open spec fn spec_theme_path(theme_name: Seq<char>) -> Seq<char> {
    crate::spec_sound_root() + theme_name
}

/// The configured theme's root directory, provided it exists
/// (`theme_dir_exists` reports the caller's existence finding); a missing
/// directory is a [`ThemerError::ThemePathsNotFoundError`] carrying that
/// same path.
pub fn get_theme_path_from_name(config: &Config, theme_dir_exists: bool) -> (r: Result<
    String,
    ThemerError,
>)
    ensures
        theme_dir_exists ==> (r matches Ok(p) && p@ == spec_theme_path(config.theme_name@)),
        !theme_dir_exists ==> (r matches Err(e) && (e matches ThemerError::ThemePathsNotFoundError(
            p,
        ) && p@ == spec_theme_path(config.theme_name@))),
{
    let mut p = String::from_str("/usr/share/sounds/");
    p.append(config.theme_name.as_str());
    if theme_dir_exists {
        Ok(p)
    } else {
        Err(ThemerError::ThemePathsNotFoundError(p))
    }
}

/// The path a bare sound name resolves to in the conventional `stereo`
/// directory of the configured theme.
pub open spec fn spec_single_sound_path(
    theme_name: Seq<char>,
    sound_name: Seq<char>,
    ext: Seq<char>,
) -> Seq<char> {
    spec_theme_path(theme_name) + "/stereo/"@ + sound_name + "."@ + ext
}

/// Resolves a sound name in the configured theme's conventional `stereo`
/// directory. The caller reports whether the theme directory and the sound
/// file exist; a missing theme directory or sound file is an error
/// carrying the path that was checked.
pub fn get_sound_from_name(
    config: &Config,
    sound_name: &str,
    theme_dir_exists: bool,
    sound_exists: bool,
) -> (r: Result<String, ThemerError>)
    ensures
        !theme_dir_exists ==> (r matches Err(e) && (e
            matches ThemerError::ThemePathsNotFoundError(p) && p@ == spec_theme_path(
            config.theme_name@,
        ))),
        theme_dir_exists && sound_exists ==> (r matches Ok(p) && p@ == spec_single_sound_path(
            config.theme_name@,
            sound_name@,
            config.sound_ext@,
        )),
        theme_dir_exists && !sound_exists ==> (r matches Err(e) && (e
            matches ThemerError::SoundPathsNotFoundError(p) && p@ == spec_single_sound_path(
            config.theme_name@,
            sound_name@,
            config.sound_ext@,
        ))),
{
    let mut p = match get_theme_path_from_name(config, theme_dir_exists) {
        Ok(p) => p,
        Err(e) => {
            return Err(e);
        },
    };
    p.append("/stereo/");
    p.append(sound_name);
    p.append(".");
    p.append(config.sound_ext.as_str());
    if sound_exists {
        Ok(p)
    } else {
        Err(ThemerError::SoundPathsNotFoundError(p))
    }
}

} // verus!
