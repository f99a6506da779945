//! Resolution of an event name to an existing sound file, directory-listing
//! support, the probe that reads a sound's natural duration, and the
//! command that plays a resolved file.

use vstd::prelude::*;
use vstd::string::{StrSliceExecFns, StringExecFns};

use crate::error::ThemerError;
use crate::text::{quoted_join, quoted_join_exec, substring_string};
use crate::theme::{resolve_spec, spec_resolve_spec, Theme};

verus! {

/// The absolute path of one candidate sound file inside a search-directory
/// path.
pub open spec fn sound_file_path(dir_path: Seq<char>, filename: Seq<char>, ext: Seq<char>) -> Seq<
    char,
> {
    dir_path + "/"@ + filename + "."@ + ext
}

/// The candidate paths that an event name is looked for under, one per
/// search-directory path, in order.
pub open spec fn spec_sound_candidates(
    theme: Theme,
    name: Seq<char>,
    dir_paths: Seq<Seq<char>>,
) -> Seq<Seq<char>> {
    Seq::new(
        dir_paths.len(),
        |i: int|
            sound_file_path(
                dir_paths[i],
                spec_resolve_spec(theme.mapping, name).filename,
                theme.sound_ext@,
            ),
    )
}

/// Builds the candidate path of `sound_name` under each search-directory
/// path, in order.
pub fn sound_candidate_paths(theme: &Theme, sound_name: &str, theme_paths: &Vec<String>) -> (r: Vec<
    String,
>)
    ensures
        r.deep_view() == spec_sound_candidates(*theme, sound_name@, theme_paths.deep_view()),
{
    let entry = resolve_spec(theme, sound_name);
    let filename = entry.filename();
    let mut r: Vec<String> = Vec::new();
    let mut i: usize = 0;
    while i < theme_paths.len()
        invariant
            i <= theme_paths@.len(),
            r@.len() == i,
            filename@ == spec_resolve_spec(theme.mapping, sound_name@).filename,
            forall|j: int|
                0 <= j < i ==> (#[trigger] r@[j])@ == sound_file_path(
                    theme_paths@[j]@,
                    spec_resolve_spec(theme.mapping, sound_name@).filename,
                    theme.sound_ext@,
                ),
        decreases theme_paths@.len() - i,
    {
        let mut p = theme_paths[i].clone();
        p.append("/");
        p.append(filename.as_str());
        p.append(".");
        p.append(theme.sound_ext.as_str());
        r.push(p);
        i = i + 1;
    }
    proof {
        assert(r.deep_view() =~= spec_sound_candidates(
            *theme,
            sound_name@,
            theme_paths.deep_view(),
        ));
    }
    r
}

/// The index of the first set flag, or the sequence's length if none is
/// set.
pub open spec fn first_true(flags: Seq<bool>) -> int
    decreases flags.len(),
{
    if flags.len() == 0 {
        0
    } else if flags[0] {
        0
    } else {
        1 + first_true(flags.drop_first())
    }
}

/// Resolution never picks a later candidate over an earlier one: the index
/// `first_true(flags)`, whose candidate `resolve_path` returns, is the
/// least index whose flag is set — every flag before it is clear, even
/// when several are set.
pub proof fn lemma_first_true_least(flags: Seq<bool>)
    ensures
        0 <= first_true(flags) <= flags.len(),
        first_true(flags) < flags.len() ==> flags[first_true(flags)],
        forall|j: int| 0 <= j < first_true(flags) ==> !flags[j],
    decreases flags.len(),
{
    if flags.len() > 0 && !flags[0] {
        let f1 = flags.drop_first();
        lemma_first_true_least(f1);
        assert forall|j: int| 0 <= j < first_true(flags) implies !flags[j] by {
            if j >= 1 {
                assert(flags[j] == f1[j - 1]);
            }
        }
    }
}

proof fn lemma_first_true_is(flags: Seq<bool>, i: int)
    requires
        0 <= i <= flags.len(),
        forall|j: int| 0 <= j < i ==> !flags[j],
        i < flags.len() ==> flags[i],
    ensures
        first_true(flags) == i,
    decreases flags.len(),
{
    if flags.len() > 0 && i > 0 {
        assert(!flags[0]);
        let f1 = flags.drop_first();
        assert(forall|j: int| 0 <= j < i - 1 ==> f1[j] == flags[j + 1] && !flags[j + 1]);
        lemma_first_true_is(f1, i - 1);
    }
}

/// Picks the first candidate that exists (`exists[i]` says whether
/// `candidates[i]` does), in order, short-circuiting at the first hit.
///
/// When no candidate exists, the error lists every candidate exactly once,
/// quoted, space-separated, in probe order.
pub fn resolve_path(candidates: &Vec<String>, exists: &Vec<bool>) -> (r: Result<
    String,
    ThemerError,
>)
    requires
        exists@.len() == candidates@.len(),
    ensures
        ({
            let cs = candidates.deep_view();
            let ft = first_true(exists@);
            if ft < exists@.len() {
                r matches Ok(p) && p@ == cs[ft]
            } else {
                r matches Err(e) && (e matches ThemerError::SoundPathsNotFoundError(m) && m@
                    == quoted_join(cs))
            }
        }),
{
    let mut i: usize = 0;
    while i < candidates.len()
        invariant
            i <= candidates@.len(),
            exists@.len() == candidates@.len(),
            forall|j: int| 0 <= j < i ==> !exists@[j],
        decreases candidates@.len() - i,
    {
        if exists[i] {
            proof {
                lemma_first_true_is(exists@, i as int);
                assert(candidates.deep_view()[i as int] == candidates@[i as int]@);
            }
            return Ok(candidates[i].clone());
        }
        i = i + 1;
    }
    proof {
        lemma_first_true_is(exists@, exists@.len() as int);
    }
    Err(ThemerError::SoundPathsNotFoundError(quoted_join_exec(candidates)))
}

/// Resolves `sound_name` within the given search-directory paths to the
/// first existing candidate file, or fails listing every candidate that
/// was checked, in probe order.
pub fn get_sound_from_name(
    theme: &Theme,
    sound_name: &str,
    theme_paths: &Vec<String>,
    exists: &Vec<bool>,
) -> (r: Result<String, ThemerError>)
    requires
        exists@.len() == theme_paths@.len(),
    ensures
        ({
            let cs = spec_sound_candidates(*theme, sound_name@, theme_paths.deep_view());
            let ft = first_true(exists@);
            if ft < exists@.len() {
                r matches Ok(p) && p@ == cs[ft]
            } else {
                r matches Err(e) && (e matches ThemerError::SoundPathsNotFoundError(m) && m@
                    == quoted_join(cs))
            }
        }),
{
    let candidates = sound_candidate_paths(theme, sound_name, theme_paths);
    proof {
        assert(candidates.deep_view().len() == candidates@.len());
        assert(theme_paths.deep_view().len() == theme_paths@.len());
    }
    resolve_path(&candidates, exists)
}

/// A directory entry counts as a sound of the theme when it ends in a dot
/// followed by the theme's extension and its base name is non-empty.
pub open spec fn matches_ext(name: Seq<char>, ext: Seq<char>) -> bool {
    &&& name.len() > ext.len() + 1
    &&& name[name.len() - ext.len() - 1] == '.'
    &&& name.skip(name.len() - ext.len()) == ext
}

/// The base name of a matching entry: everything before the final dot.
pub open spec fn stem_of(name: Seq<char>, ext: Seq<char>) -> Seq<char> {
    name.take(name.len() - ext.len() - 1)
}

/// The base names of the entries that match the extension, in order.
pub open spec fn base_names_of(entries: Seq<Seq<char>>, ext: Seq<char>) -> Seq<Seq<char>>
    decreases entries.len(),
{
    if entries.len() == 0 {
        Seq::empty()
    } else {
        base_names_of(entries.drop_last(), ext) + (if matches_ext(entries.last(), ext) {
            seq![stem_of(entries.last(), ext)]
        } else {
            Seq::empty()
        })
    }
}

/// Does `name` end in a dot followed by `ext`, with a non-empty base name?
fn has_sound_ext(name: &str, ext: &str) -> (r: bool)
    ensures
        r == matches_ext(name@, ext@),
{
    let nl = name.unicode_len();
    let el = ext.unicode_len();
    if nl <= el || nl - el < 2 {
        return false;
    }
    if name.get_char(nl - el - 1) != '.' {
        return false;
    }
    let mut k: usize = 0;
    while k < el
        invariant
            nl == name@.len(),
            el == ext@.len(),
            nl - el >= 2,
            k <= el,
            forall|j: int| 0 <= j < k ==> name@[nl - el + j] == ext@[j],
        decreases el - k,
    {
        if name.get_char(nl - el + k) != ext.get_char(k) {
            proof {
                assert(name@.skip(nl - el) != ext@);
            }
            return false;
        }
        k = k + 1;
    }
    proof {
        assert(name@.skip(nl - el) =~= ext@);
    }
    true
}

/// The base names of the sound files among `entries`: entries whose name
/// ends in a dot and the theme's extension, with the extension stripped,
/// preserving order.
pub fn sound_base_names(entries: &Vec<String>, sound_ext: &str) -> (r: Vec<String>)
    ensures
        r.deep_view() == base_names_of(entries.deep_view(), sound_ext@),
{
    let ghost dv = entries.deep_view();
    proof {
        assert(forall|l: int| 0 <= l < entries@.len() ==> #[trigger] dv[l] == entries@[l]@);
    }
    let mut r: Vec<String> = Vec::new();
    let mut i: usize = 0;
    while i < entries.len()
        invariant
            i <= entries@.len(),
            dv == entries.deep_view(),
            forall|l: int| 0 <= l < entries@.len() ==> #[trigger] dv[l] == entries@[l]@,
            r.deep_view() == base_names_of(dv.take(i as int), sound_ext@),
        decreases entries@.len() - i,
    {
        proof {
            assert(dv.take(i + 1).drop_last() =~= dv.take(i as int));
        }
        let name = &entries[i];
        if has_sound_ext(name.as_str(), sound_ext) {
            let nl = name.as_str().unicode_len();
            let el = sound_ext.unicode_len();
            let stem = substring_string(name.as_str(), 0, nl - el - 1);
            proof {
                assert(stem@ =~= stem_of(dv[i as int], sound_ext@));
            }
            r.push(stem);
            proof {
                assert(r.deep_view() =~= base_names_of(dv.take(i + 1), sound_ext@));
            }
        } else {
            proof {
                assert(r.deep_view() =~= base_names_of(dv.take(i + 1), sound_ext@));
            }
        }
        i = i + 1;
    }
    proof {
        assert(dv.take(entries@.len() as int) =~= dv);
    }
    r
}

/// Lists the sounds available per search directory: for each directory's
/// entries, the matching base names, one group per directory, preserving
/// directory declaration order.
pub fn list_sounds(dir_entries: &Vec<Vec<String>>, sound_ext: &str) -> (r: Vec<Vec<String>>)
    ensures
        r@.len() == dir_entries@.len(),
        forall|i: int|
            0 <= i < r@.len() ==> (#[trigger] r@[i]).deep_view() == base_names_of(
                dir_entries@[i].deep_view(),
                sound_ext@,
            ),
{
    let mut r: Vec<Vec<String>> = Vec::new();
    let mut i: usize = 0;
    while i < dir_entries.len()
        invariant
            i <= dir_entries@.len(),
            r@.len() == i,
            forall|j: int|
                0 <= j < i ==> (#[trigger] r@[j]).deep_view() == base_names_of(
                    dir_entries@[j].deep_view(),
                    sound_ext@,
                ),
        decreases dir_entries@.len() - i,
    {
        r.push(sound_base_names(&dir_entries[i], sound_ext));
        i = i + 1;
    }
    r
}

/// The command that plays a resolved sound file: the player program and
/// its arguments, which are exactly the resolved path.
pub fn play_command(sound_path: &str) -> (r: (String, Vec<String>))
    ensures
        r.0@ == "pw-play"@,
        r.1@.len() == 1,
        r.1@[0]@ == sound_path@,
{
    let mut args: Vec<String> = Vec::new();
    args.push(String::from_str(sound_path));
    (String::from_str("pw-play"), args)
}

/// What probing a byte stream for an audio container yields: `None` when
/// the container cannot be parsed; `Some(None)` when it holds no audio
/// track; otherwise the default audio track's sample rate and frame count,
/// each of which the container may omit.
pub uninterp spec fn audio_probe_of(bytes: Seq<u8>) -> Option<Option<(Option<u32>, Option<u64>)>>;

/// Relies on symphonia's default format probe (`get_probe().probe`) over an
/// in-memory stream, and on the probed reader's `default_track`: parsing
/// container metadata is a pure function of the bytes, named
/// `audio_probe_of`. `Err` carries symphonia's description of why the
/// container could not be parsed.
///
/// The enabled demuxers (Wave, OGG, FLAC) and tag readers are confined to
/// those whose documented support status is Great or Excellent; the one
/// status whose definition admits panicking streams (Good: MKV, CAF,
/// ADPCM) is excluded from this crate's feature set, so the probe is
/// relied on to return rather than panic on arbitrary bytes.
#[verifier::external_body]
fn probe_audio_params(bytes: Vec<u8>) -> (r: Result<Option<(Option<u32>, Option<u64>)>, String>)
    ensures
        r is Ok <==> audio_probe_of(bytes@) is Some,
        r matches Ok(p) ==> Some(p) == audio_probe_of(bytes@),
{
    let mss = symphonia::core::io::MediaSourceStream::new(
        Box::new(std::io::Cursor::new(bytes)), Default::default());
    let hint = symphonia::core::formats::probe::Hint::new();
    let reader = match symphonia::default::get_probe().probe(&hint, mss, Default::default(), Default::default()) {
        Ok(r) => r,
        Err(e) => return Err(e.to_string()),
    };
    let track = match reader.default_track(symphonia::core::formats::TrackType::Audio) {
        Some(t) => t,
        None => return Ok(None),
    };
    match &track.codec_params {
        Some(symphonia::core::codecs::CodecParameters::Audio(a)) => Ok(Some((a.sample_rate, track.num_frames))),
        _ => Ok(Some((None, track.num_frames))),
    }
}

/// A sound's natural duration in whole microseconds, computed from its
/// track's sample rate and frame count.
pub open spec fn spec_duration_micros(rate: u32, frames: u64) -> int {
    frames * 1_000_000 / (rate as int)
}

/// A probe diagnostic: what was missing, and the file it was missing from.
pub open spec fn probe_diag(field: Seq<char>, path: Seq<char>) -> Seq<char> {
    field + " for '"@ + path + "'"@
}

/// Builds a probe diagnostic naming the missing field and the file.
fn probe_diag_exec(field: &str, path: &str) -> (r: String)
    ensures
        r@ == probe_diag(field@, path@),
{
    let mut m = String::from_str(field);
    m.append(" for '");
    m.append(path);
    m.append("'");
    m
}

/// The natural duration of the sound held in `bytes`, in microseconds.
///
/// The container is probed for its default audio track; the duration is
/// the track's frame count divided by its sample rate. Every outcome in
/// which the probe does not yield a positive sample rate and a frame
/// count, or in which the duration cannot be represented, is a
/// [`ThemerError::SoundDecoderError`] naming the missing piece and the
/// probed file. `sound_path` is used in those diagnostics alone: the bytes
/// by themselves determine which outcome occurs and any duration returned.
pub fn get_sound_duration_from_bytes(bytes: Vec<u8>, sound_path: &str) -> (r: Result<
    u64,
    ThemerError,
>)
    ensures
        ({
            match audio_probe_of(bytes@) {
                None => r matches Err(e) && e matches ThemerError::SoundDecoderError(_),
                Some(None) => r matches Err(e) && (e matches ThemerError::SoundDecoderError(m)
                    && m@ == probe_diag("Track could not be found"@, sound_path@)),
                Some(Some(params)) => match params {
                    (Some(rate), Some(frames)) => if rate == 0 {
                        r matches Err(e) && (e matches ThemerError::SoundDecoderError(m) && m@
                            == probe_diag("Sample rate was zero"@, sound_path@))
                    } else if spec_duration_micros(rate, frames) <= u64::MAX {
                        r matches Ok(d) && d == spec_duration_micros(rate, frames)
                    } else {
                        r matches Err(e) && (e matches ThemerError::SoundDecoderError(m) && m@
                            == probe_diag(
                            "Sound duration does not fit in whole microseconds"@,
                            sound_path@,
                        ))
                    },
                    (None, _) => r matches Err(e) && (e matches ThemerError::SoundDecoderError(m)
                        && m@ == probe_diag("Sample rate not found"@, sound_path@)),
                    (Some(_), None) => r matches Err(e) && (e
                        matches ThemerError::SoundDecoderError(m) && m@ == probe_diag(
                        "Sample count not found"@,
                        sound_path@,
                    )),
                },
            }
        }),
{
    match probe_audio_params(bytes) {
        Err(e) => Err(ThemerError::SoundDecoderError(e)),
        Ok(None) => Err(
            ThemerError::SoundDecoderError(
                probe_diag_exec("Track could not be found", sound_path),
            ),
        ),
        Ok(Some((rate_opt, frames_opt))) => {
            let rate = match rate_opt {
                Some(rate) => rate,
                None => {
                    return Err(
                        ThemerError::SoundDecoderError(
                            probe_diag_exec("Sample rate not found", sound_path),
                        ),
                    );
                },
            };
            let frames = match frames_opt {
                Some(frames) => frames,
                None => {
                    return Err(
                        ThemerError::SoundDecoderError(
                            probe_diag_exec("Sample count not found", sound_path),
                        ),
                    );
                },
            };
            if rate == 0 {
                return Err(
                    ThemerError::SoundDecoderError(
                        probe_diag_exec("Sample rate was zero", sound_path),
                    ),
                );
            }
            proof {
                assert((frames as int) * 1_000_000 <= 0xffff_ffff_ffff_ffff * 1_000_000)
                    by (nonlinear_arith)
                    requires
                        0 <= frames as int <= 0xffff_ffff_ffff_ffff,
                ;
                assert((frames as int) * 1_000_000 >= 0) by (nonlinear_arith)
                    requires
                        0 <= frames as int,
                ;
            }
            let micros: u128 = (frames as u128) * 1_000_000 / (rate as u128);
            if micros > u64::MAX as u128 {
                return Err(
                    ThemerError::SoundDecoderError(
                        probe_diag_exec(
                            "Sound duration does not fit in whole microseconds",
                            sound_path,
                        ),
                    ),
                );
            }
            Ok(micros as u64)
        },
    }
}

} // verus!
