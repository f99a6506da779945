use sound_themer::error::ThemerError;
use sound_themer::mapping::Mapping;
use sound_themer::theme::{
    get_default_directories, get_selected_theme, get_selected_theme_paths, get_theme_from_name,
    select_random_theme, select_theme, select_theme_by_name, theme_search_paths, Theme,
};

fn theme(name: &str, dirs: &[&str]) -> Theme {
    Theme::new(
        String::from(name),
        String::from("oga"),
        dirs.iter().map(|d| String::from(*d)).collect(),
        Mapping::default(),
    )
}

#[test]
fn default_directories_are_stereo() {
    assert_eq!(get_default_directories(), vec![String::from("stereo")]);
}

#[test]
fn search_paths_follow_declaration_order() {
    let t = theme("freedesktop", &["stereo", "mono"]);
    assert_eq!(
        theme_search_paths(&t),
        vec![
            String::from("/usr/share/sounds/freedesktop/stereo"),
            String::from("/usr/share/sounds/freedesktop/mono"),
        ]
    );
}

#[test]
fn theme_paths_ok_when_all_directories_exist() {
    let t = theme("freedesktop", &["stereo", "mono"]);
    let r = get_selected_theme_paths(&t, &vec![true, true]).unwrap();
    assert_eq!(
        r,
        vec![
            String::from("/usr/share/sounds/freedesktop/stereo"),
            String::from("/usr/share/sounds/freedesktop/mono"),
        ]
    );
}

#[test]
fn theme_paths_error_lists_every_checked_path_in_order() {
    // One of the three directories exists; the error still lists the full
    // set of checked paths, in declaration order.
    let t = theme("freedesktop", &["a", "b", "c"]);
    let e = get_selected_theme_paths(&t, &vec![false, true, false]).unwrap_err();
    assert_eq!(
        e,
        ThemerError::ThemePathsNotFoundError(String::from(
            "'/usr/share/sounds/freedesktop/a' '/usr/share/sounds/freedesktop/b' '/usr/share/sounds/freedesktop/c'"
        ))
    );
}

#[test]
fn get_theme_from_name_finds_first_match() {
    let themes = vec![theme("a", &["stereo"]), theme("b", &["mono"])];
    let t = get_theme_from_name(&themes, "b").unwrap();
    assert_eq!(t.name, "b");
    assert_eq!(t.sound_dirs, vec![String::from("mono")]);
}

#[test]
fn get_theme_from_name_unknown_is_error() {
    let themes = vec![theme("a", &["stereo"])];
    let e = get_theme_from_name(&themes, "zzz").unwrap_err();
    assert_eq!(e, ThemerError::HashMapEntryError(String::from("zzz")));
}

#[test]
fn select_theme_replaces_slot() {
    let mut selected = theme("a", &["stereo"]);
    select_theme(&mut selected, theme("b", &["mono"]));
    assert_eq!(selected.name, "b");
}

#[test]
fn get_selected_theme_copies_slot() {
    let selected = theme("a", &["stereo"]);
    let copy = get_selected_theme(&selected);
    assert_eq!(copy.name, selected.name);
    assert_eq!(copy.sound_dirs, selected.sound_dirs);
    assert_eq!(copy.sound_ext, selected.sound_ext);
}

#[test]
fn select_theme_by_name_switches() {
    let themes = vec![theme("a", &["stereo"]), theme("b", &["mono"])];
    let mut selected = theme("a", &["stereo"]);
    select_theme_by_name(&mut selected, &themes, "b").unwrap();
    assert_eq!(selected.name, "b");
}

#[test]
fn select_unknown_theme_fails_and_keeps_selection() {
    let themes = vec![theme("a", &["stereo"]), theme("b", &["mono"])];
    let mut selected = theme("a", &["stereo"]);
    let e = select_theme_by_name(&mut selected, &themes, "missing").unwrap_err();
    assert_eq!(e, ThemerError::HashMapEntryError(String::from("missing")));
    assert_eq!(selected.name, "a");
    assert_eq!(selected.sound_dirs, vec![String::from("stereo")]);
}

#[test]
fn select_random_theme_from_single_choice() {
    let themes = vec![theme("only", &["stereo"])];
    let mut selected = theme("a", &["stereo"]);
    select_random_theme(&mut selected, &themes).unwrap();
    assert_eq!(selected.name, "only");
}

#[test]
fn select_random_theme_picks_a_configured_theme() {
    let themes = vec![theme("a", &["stereo"]), theme("b", &["mono"]), theme("c", &["x"])];
    let mut selected = theme("z", &["stereo"]);
    select_random_theme(&mut selected, &themes).unwrap();
    assert!(themes.iter().any(|t| t.name == selected.name));
}

#[test]
fn select_random_theme_with_no_themes_is_error() {
    let themes: Vec<Theme> = Vec::new();
    let mut selected = theme("a", &["stereo"]);
    let e = select_random_theme(&mut selected, &themes).unwrap_err();
    assert!(matches!(e, ThemerError::EmptyThemesError(_)));
    assert_eq!(selected.name, "a");
}
