//! Sound themes, the selected-theme slot, and the mapping-table lookup that
//! turns an event name into a playback specification.

use vstd::prelude::*;
use vstd::string::StringExecFns;

use crate::error::ThemerError;
use crate::mapping::{literal_spec, Mapping, MappingKey, PlaybackSpec, PlaybackSpecView};
use crate::mapping::spec_key_of;
use crate::text::{clone_string_vec, quoted_join, quoted_join_exec, str_eq};

verus! {

/// A named directory tree of sound files: its name, the file extension its
/// sounds use, the ordered search directories inside it, and its
/// event-to-sound mapping.
#[derive(Debug)]
pub struct Theme {
    pub name: String,
    pub sound_ext: String,
    pub sound_dirs: Vec<String>,
    pub mapping: Mapping,
}

/// The mathematical content of a [`Theme`].
pub ghost struct ThemeView {
    pub name: Seq<char>,
    pub sound_ext: Seq<char>,
    pub sound_dirs: Seq<Seq<char>>,
    pub mapping: Seq<Option<PlaybackSpecView>>,
}

impl View for Theme {
    type V = ThemeView;

    open spec fn view(&self) -> ThemeView {
        ThemeView {
            name: self.name@,
            sound_ext: self.sound_ext@,
            sound_dirs: self.sound_dirs.deep_view(),
            mapping: self.mapping@,
        }
    }
}

impl Clone for Theme {
    fn clone(&self) -> (r: Self)
        ensures
            r@ == self@,
    {
        let r = Theme {
            name: self.name.clone(),
            sound_ext: self.sound_ext.clone(),
            sound_dirs: clone_string_vec(&self.sound_dirs),
            mapping: self.mapping.clone(),
        };
        proof {
            assert(r.sound_dirs.deep_view() =~= self.sound_dirs.deep_view());
        }
        r
    }
}

impl Theme {
    /// Builds a theme from its parts.
    pub fn new(name: String, sound_ext: String, sound_dirs: Vec<String>, mapping: Mapping) -> (r:
        Theme)
        ensures
            r@.name == name@,
            r@.sound_ext == sound_ext@,
            r@.sound_dirs == sound_dirs.deep_view(),
            r@.mapping == mapping@,
    {
        Theme { name, sound_ext, sound_dirs, mapping }
    }
}

/// The conventional search directories used when a theme declares none.
pub fn get_default_directories() -> (r: Vec<String>)
    ensures
        r.deep_view() =~= seq!["stereo"@],
{
    let mut r: Vec<String> = Vec::new();
    r.push(String::from_str("stereo"));
    r
}

/// What an event name resolves to in a theme's mapping: the mapped entry if
/// the name is a well-known key with an entry, and otherwise the name
/// itself taken as a literal filename, with no duration policy.
pub open spec fn spec_resolve_spec(m: Mapping, name: Seq<char>) -> PlaybackSpecView {
    match spec_key_of(name) {
        Some(k) => match m.spec_get(k) {
            Some(s) => s,
            None => literal_spec(name),
        },
        None => literal_spec(name),
    }
}

/// Looks `event_name` up in the selected theme's mapping.
///
/// This lookup never fails: an event name outside the closed enumeration,
/// or one whose key has no entry in the mapping, falls back to a bare
/// specification naming `event_name` verbatim as the filename.
pub fn resolve_spec(selected_theme: &Theme, event_name: &str) -> (r: PlaybackSpec)
    ensures
        r@ == spec_resolve_spec(selected_theme.mapping, event_name@),
        spec_key_of(event_name@) is None ==> r@ == literal_spec(event_name@),
{
    match MappingKey::from_str(event_name) {
        Some(k) => match selected_theme.mapping.get(k) {
            Some(s) => s.clone(),
            None => PlaybackSpec::Simple(String::from_str(event_name)),
        },
        None => PlaybackSpec::Simple(String::from_str(event_name)),
    }
}

/// The absolute path of one of a theme's search directories.
pub open spec fn theme_dir_path(theme_name: Seq<char>, dir: Seq<char>) -> Seq<char> {
    crate::spec_sound_root() + theme_name + "/"@ + dir
}

/// The absolute paths of all of a theme's search directories, in
/// declaration order.
pub open spec fn theme_dir_paths(t: ThemeView) -> Seq<Seq<char>> {
    Seq::new(t.sound_dirs.len(), |i: int| theme_dir_path(t.name, t.sound_dirs[i]))
}

/// Builds the absolute path of each search directory of `theme`, in
/// declaration order.
pub fn theme_search_paths(theme: &Theme) -> (r: Vec<String>)
    ensures
        r.deep_view() == theme_dir_paths(theme@),
{
    let mut r: Vec<String> = Vec::new();
    let mut i: usize = 0;
    while i < theme.sound_dirs.len()
        invariant
            i <= theme.sound_dirs@.len(),
            r@.len() == i,
            forall|j: int|
                0 <= j < i ==> (#[trigger] r@[j])@ == theme_dir_path(
                    theme.name@,
                    theme.sound_dirs@[j]@,
                ),
        decreases theme.sound_dirs@.len() - i,
    {
        let mut p = String::from_str("/usr/share/sounds/");
        p.append(theme.name.as_str());
        p.append("/");
        p.append(theme.sound_dirs[i].as_str());
        r.push(p);
        i = i + 1;
    }
    proof {
        assert(r.deep_view() =~= theme_dir_paths(theme@));
    }
    r
}

/// Checks each of the theme's search directories against the caller's
/// existence findings (`dir_exists[i]` says whether the `i`-th directory
/// exists) and returns their absolute paths.
///
/// Every directory must exist: if any is missing, the error lists every
/// directory path that was checked exactly once, quoted, space-separated,
/// in declaration order.
pub fn get_selected_theme_paths(theme: &Theme, dir_exists: &Vec<bool>) -> (r: Result<
    Vec<String>,
    ThemerError,
>)
    requires
        dir_exists@.len() == theme.sound_dirs@.len(),
    ensures
        ({
            let paths = theme_dir_paths(theme@);
            match r {
                Ok(ps) => ps.deep_view() == paths && (forall|i: int|
                    0 <= i < dir_exists@.len() ==> dir_exists@[i]),
                Err(e) => (exists|i: int| 0 <= i < dir_exists@.len() && !dir_exists@[i]) && (
                e matches ThemerError::ThemePathsNotFoundError(m) && m@ == quoted_join(paths)),
            }
        }),
{
    let paths = theme_search_paths(theme);
    proof {
        assert(paths.deep_view().len() == paths@.len());
        assert(theme.sound_dirs.deep_view().len() == theme.sound_dirs@.len());
    }
    let mut any_missing = false;
    let mut i: usize = 0;
    while i < paths.len()
        invariant
            i <= paths@.len(),
            paths@.len() == dir_exists@.len(),
            any_missing == exists|j: int| 0 <= j < i && !dir_exists@[j],
        decreases paths@.len() - i,
    {
        if !dir_exists[i] {
            any_missing = true;
        }
        i = i + 1;
    }
    if !any_missing {
        Ok(paths)
    } else {
        Err(ThemerError::ThemePathsNotFoundError(quoted_join_exec(&paths)))
    }
}

/// The index of the first theme named `name`, or the sequence's length if
/// no theme has that name.
pub open spec fn first_theme_match(themes: Seq<Theme>, name: Seq<char>) -> int
    decreases themes.len(),
{
    if themes.len() == 0 {
        0
    } else if themes[0].name@ == name {
        0
    } else {
        1 + first_theme_match(themes.drop_first(), name)
    }
}

proof fn lemma_first_theme_match_is(themes: Seq<Theme>, name: Seq<char>, i: int)
    requires
        0 <= i <= themes.len(),
        forall|j: int| 0 <= j < i ==> (#[trigger] themes[j]).name@ != name,
        i < themes.len() ==> themes[i].name@ == name,
    ensures
        first_theme_match(themes, name) == i,
    decreases themes.len(),
{
    if themes.len() > 0 && i > 0 {
        assert(themes[0].name@ != name);
        let t1 = themes.drop_first();
        assert(forall|j: int| 0 <= j < i - 1 ==> (#[trigger] t1[j]).name@ != name);
        lemma_first_theme_match_is(t1, name, i - 1);
    }
}

/// Finds the configured theme with the given name, returning a copy of the
/// first one that matches, or a [`ThemerError::HashMapEntryError`] naming
/// the missing theme.
pub fn get_theme_from_name(themes: &Vec<Theme>, name: &str) -> (r: Result<Theme, ThemerError>)
    ensures
        ({
            let fm = first_theme_match(themes@, name@);
            match r {
                Ok(t) => fm < themes@.len() && t@ == themes@[fm]@,
                Err(e) => fm == themes@.len() && (e matches ThemerError::HashMapEntryError(n)
                    && n@ == name@),
            }
        }),
        r is Ok <==> exists|i: int| 0 <= i < themes@.len() && (#[trigger] themes@[i]).name@
            == name@,
{
    let mut i: usize = 0;
    while i < themes.len()
        invariant
            i <= themes@.len(),
            forall|j: int| 0 <= j < i ==> (#[trigger] themes@[j]).name@ != name@,
        decreases themes@.len() - i,
    {
        if str_eq(themes[i].name.as_str(), name) {
            proof {
                lemma_first_theme_match_is(themes@, name@, i as int);
            }
            return Ok(themes[i].clone());
        }
        i = i + 1;
    }
    proof {
        lemma_first_theme_match_is(themes@, name@, themes@.len() as int);
    }
    Err(ThemerError::HashMapEntryError(String::from_str(name)))
}

/// Replaces the selected theme with `theme`.
pub fn select_theme(selected_theme: &mut Theme, theme: Theme)
    ensures
        *final(selected_theme) == theme,
{
    *selected_theme = theme;
}

/// A copy of the currently selected theme.
pub fn get_selected_theme(selected_theme: &Theme) -> (r: Theme)
    ensures
        r@ == selected_theme@,
{
    selected_theme.clone()
}

/// Looks the named theme up among the configured themes and makes it the
/// selected one.
///
/// When no configured theme has that name, the selection is left exactly as
/// it was and a [`ThemerError::HashMapEntryError`] naming the theme is
/// returned.
pub fn select_theme_by_name(selected_theme: &mut Theme, themes: &Vec<Theme>, name: &str) -> (r:
    Result<(), ThemerError>)
    ensures
        ({
            let fm = first_theme_match(themes@, name@);
            match r {
                Ok(_) => fm < themes@.len() && final(selected_theme)@ == themes@[fm]@,
                Err(e) => fm == themes@.len() && *final(selected_theme) == *old(selected_theme)
                    && (e matches ThemerError::HashMapEntryError(n) && n@ == name@),
            }
        }),
        r is Ok <==> exists|i: int| 0 <= i < themes@.len() && (#[trigger] themes@[i]).name@
            == name@,
{
    let new_theme = match get_theme_from_name(themes, name) {
        Ok(t) => t,
        Err(e) => {
            return Err(e);
        },
    };
    select_theme(selected_theme, new_theme);
    Ok(())
}

/// Relies on rand's `random_range` over `0..n`: the drawn value lies in the
/// given non-empty range, so the result is below `n`.
#[verifier::external_body]
fn pick_index(n: usize) -> (r: usize)
    requires
        n > 0,
    ensures
        r < n,
{
    rand::random_range(0..n)
}

/// Makes a uniformly chosen configured theme the selected one.
///
/// With no themes configured there is nothing to choose: the selection is
/// left unchanged and a [`ThemerError::EmptyThemesError`] is returned.
pub fn select_random_theme(selected_theme: &mut Theme, themes: &Vec<Theme>) -> (r: Result<
    (),
    ThemerError,
>)
    ensures
        themes@.len() == 0 ==> r is Err && *final(selected_theme) == *old(selected_theme) && (
        r matches Err(e) ==> e matches ThemerError::EmptyThemesError(_)),
        themes@.len() > 0 ==> r is Ok && exists|i: int|
            0 <= i < themes@.len() && final(selected_theme)@ == (#[trigger] themes@[i])@,
{
    if themes.len() == 0 {
        return Err(
            ThemerError::EmptyThemesError(
                String::from_str("Random theme could not be selected from empty Vec<Theme>"),
            ),
        );
    }
    let i = pick_index(themes.len());
    let theme = themes[i].clone();
    select_theme(selected_theme, theme);
    Ok(())
}

} // verus!
