use sound_themer::duration::{
    choose_duration, playback_duration_to_duration, PlaybackDuration,
};
use sound_themer::error::ThemerError;
use sound_themer::mapping::Mapping;
use sound_themer::sound::{
    get_sound_duration_from_bytes, get_sound_from_name, list_sounds, play_command, resolve_path,
    sound_base_names, sound_candidate_paths,
};
use sound_themer::theme::{resolve_spec, theme_search_paths, Theme};

fn freedesktop_theme() -> Theme {
    Theme::new(
        String::from("freedesktop"),
        String::from("oga"),
        vec![String::from("stereo")],
        Mapping::default(),
    )
}

fn strings(items: &[&str]) -> Vec<String> {
    items.iter().map(|s| String::from(*s)).collect()
}

#[test]
fn candidates_cover_every_search_path() {
    let theme = Theme::new(
        String::from("t"),
        String::from("oga"),
        vec![String::from("stereo"), String::from("mono")],
        Mapping::default(),
    );
    let paths = theme_search_paths(&theme);
    let candidates = sound_candidate_paths(&theme, "bell", &paths);
    assert_eq!(
        candidates,
        strings(&[
            "/usr/share/sounds/t/stereo/bell.oga",
            "/usr/share/sounds/t/mono/bell.oga",
        ])
    );
}

#[test]
fn resolve_path_returns_first_existing_candidate() {
    let candidates = strings(&["/a/x.oga", "/b/x.oga", "/c/x.oga"]);
    // Both the second and the third exist: the second must win.
    let r = resolve_path(&candidates, &vec![false, true, true]).unwrap();
    assert_eq!(r, "/b/x.oga");
}

#[test]
fn resolve_path_short_circuits_on_first_hit() {
    let candidates = strings(&["/a/x.oga", "/b/x.oga"]);
    let r = resolve_path(&candidates, &vec![true, false]).unwrap();
    assert_eq!(r, "/a/x.oga");
}

#[test]
fn resolve_path_error_lists_every_checked_path_in_order() {
    let candidates = strings(&["/a/x.oga", "/b/x.oga", "/c/x.oga"]);
    let e = resolve_path(&candidates, &vec![false, false, false]).unwrap_err();
    assert_eq!(
        e,
        ThemerError::SoundPathsNotFoundError(String::from(
            "'/a/x.oga' '/b/x.oga' '/c/x.oga'"
        ))
    );
}

#[test]
fn get_sound_from_name_builds_and_resolves() {
    let theme = freedesktop_theme();
    let paths = theme_search_paths(&theme);
    let r = get_sound_from_name(&theme, "complete", &paths, &vec![true]).unwrap();
    assert_eq!(r, "/usr/share/sounds/freedesktop/stereo/complete.oga");
}

#[test]
fn get_sound_from_name_not_found_lists_candidates() {
    let theme = Theme::new(
        String::from("t"),
        String::from("oga"),
        vec![String::from("stereo"), String::from("mono")],
        Mapping::default(),
    );
    let paths = theme_search_paths(&theme);
    let e = get_sound_from_name(&theme, "bell", &paths, &vec![false, false]).unwrap_err();
    assert_eq!(
        e,
        ThemerError::SoundPathsNotFoundError(String::from(
            "'/usr/share/sounds/t/stereo/bell.oga' '/usr/share/sounds/t/mono/bell.oga'"
        ))
    );
}

#[test]
fn base_names_strip_extension_and_keep_order() {
    let entries = strings(&[
        "complete.oga",
        "notes.txt",
        "bell.oga",
        ".oga",
        "x.oga.bak",
        "two.dots.oga",
    ]);
    assert_eq!(
        sound_base_names(&entries, "oga"),
        strings(&["complete", "bell", "two.dots"])
    );
}

#[test]
fn list_sounds_groups_per_directory_in_order() {
    let groups = vec![
        strings(&["a.oga", "b.oga"]),
        strings(&["readme.md"]),
        strings(&["c.oga"]),
    ];
    assert_eq!(
        list_sounds(&groups, "oga"),
        vec![strings(&["a", "b"]), Vec::<String>::new(), strings(&["c"])]
    );
}

#[test]
fn play_command_names_player_and_path() {
    let (program, args) = play_command("/usr/share/sounds/freedesktop/stereo/complete.oga");
    assert_eq!(program, "pw-play");
    assert_eq!(
        args,
        strings(&["/usr/share/sounds/freedesktop/stereo/complete.oga"])
    );
}

/// A minimal mono 16-bit PCM WAV: `n_samples` samples at `sample_rate` Hz.
fn wav_bytes(sample_rate: u32, n_samples: u32) -> Vec<u8> {
    let data_len = n_samples * 2;
    let mut v: Vec<u8> = Vec::new();
    v.extend_from_slice(b"RIFF");
    v.extend_from_slice(&(36 + data_len).to_le_bytes());
    v.extend_from_slice(b"WAVE");
    v.extend_from_slice(b"fmt ");
    v.extend_from_slice(&16u32.to_le_bytes());
    v.extend_from_slice(&1u16.to_le_bytes()); // PCM
    v.extend_from_slice(&1u16.to_le_bytes()); // mono
    v.extend_from_slice(&sample_rate.to_le_bytes());
    v.extend_from_slice(&(sample_rate * 2).to_le_bytes()); // byte rate
    v.extend_from_slice(&2u16.to_le_bytes()); // block align
    v.extend_from_slice(&16u16.to_le_bytes()); // bits per sample
    v.extend_from_slice(b"data");
    v.extend_from_slice(&data_len.to_le_bytes());
    for _ in 0..n_samples {
        v.extend_from_slice(&0i16.to_le_bytes());
    }
    v
}

#[test]
fn probe_reads_natural_duration_from_wav() {
    // 4000 samples at 8000 Hz: half a second.
    let bytes = wav_bytes(8000, 4000);
    assert_eq!(get_sound_duration_from_bytes(bytes, "half.wav").unwrap(), 500_000);
}

#[test]
fn probe_rejects_garbage_bytes() {
    let e = get_sound_duration_from_bytes(vec![0u8; 64], "garbage.bin").unwrap_err();
    assert!(matches!(e, ThemerError::SoundDecoderError(_)));
}

#[test]
fn fractional_bound_of_probed_wav() {
    // One second of audio; a 50% bound resolves to half a second.
    let natural = get_sound_duration_from_bytes(wav_bytes(8000, 8000), "one.wav").unwrap();
    assert_eq!(natural, 1_000_000);
    assert_eq!(
        playback_duration_to_duration(&PlaybackDuration::Percent(500_000), natural).unwrap(),
        500_000
    );
}

#[test]
fn play_to_completion_scenario() {
    // Theme "freedesktop", directory ["stereo"], extension "oga", default
    // mapping entry complete -> "complete": playing "complete" with no
    // override resolves the conventional path, finds no mapped duration,
    // and plays to natural completion (no bound).
    let theme = freedesktop_theme();
    let paths = theme_search_paths(&theme);
    let resolved = get_sound_from_name(&theme, "complete", &paths, &vec![true]).unwrap();
    assert_eq!(resolved, "/usr/share/sounds/freedesktop/stereo/complete.oga");
    let entry = resolve_spec(&theme, "complete");
    let bound = choose_duration(None, &entry).unwrap();
    assert_eq!(bound, None);
    let (program, args) = play_command(&resolved);
    assert_eq!(program, "pw-play");
    assert_eq!(args, vec![resolved]);
}

#[test]
fn zero_duration_override_scenario() {
    // Same theme, but with an explicit "0s" override: the same path is
    // resolved, the bound computes to zero, and the process is still
    // started (termination follows immediately after).
    let theme = freedesktop_theme();
    let paths = theme_search_paths(&theme);
    let resolved = get_sound_from_name(&theme, "complete", &paths, &vec![true]).unwrap();
    assert_eq!(resolved, "/usr/share/sounds/freedesktop/stereo/complete.oga");
    let override_pd = PlaybackDuration::from_str("0s").unwrap();
    assert_eq!(override_pd, PlaybackDuration::Time(0));
    let entry = resolve_spec(&theme, "complete");
    let bound = choose_duration(Some(override_pd), &entry).unwrap();
    assert_eq!(bound, Some(PlaybackDuration::Time(0)));
    let natural = get_sound_duration_from_bytes(wav_bytes(8000, 4000), "half.wav").unwrap();
    let micros = playback_duration_to_duration(&bound.unwrap(), natural).unwrap();
    assert_eq!(micros, 0);
    let (program, _args) = play_command(&resolved);
    assert_eq!(program, "pw-play");
}
