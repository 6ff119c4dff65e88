//! Importing audio, video and transcript files as artifacts, retrying failed
//! imports, exporting transcripts, and what a finished transcription leaves on
//! an artifact.
use vstd::prelude::*;

use crate::db::{set_status_spec, set_transcript_spec, Artifact, ArtifactView, Db};
use crate::error::{app_error, AppError, AppResult};
use crate::files::{
    ext_of_chars, ext_of_spec, file_name, file_name_chars, file_stem, file_stem_chars, name_ext_chars,
    name_ext_spec,
};
use crate::platform::HostOs;
use crate::import_transcript::{full_text, seg_views, SegmentView, TranscriptSegment};
use crate::text::{
    chars_are, contains_seq, contains_text, decimal, from_chars, join, join_chars, push_all,
    push_decimal, slice_chars, starts_with_text, to_chars, to_lowercase, trim, trim_chars,
    unicode_lowercase, views,
};

verus! {

broadcast use vstd::string::group_string_axioms;

// ---------------------------------------------------------------------------
// Kinds of file
// ---------------------------------------------------------------------------

/// Audio the app imports: wav, mp3, m4a, aac, ogg, flac, webm.
pub open spec fn is_audio_ext(e: Seq<char>) -> bool {
    e == "wav"@ || e == "mp3"@ || e == "m4a"@ || e == "aac"@ || e == "ogg"@ || e == "flac"@ || e
        == "webm"@
}

/// Transcripts the app imports: vtt, srt, txt.
pub open spec fn is_transcript_ext(e: Seq<char>) -> bool {
    e == "vtt"@ || e == "srt"@ || e == "txt"@
}

/// Video the app recognises: mp4, mov, mkv, avi.
pub open spec fn is_video_ext(e: Seq<char>) -> bool {
    e == "mp4"@ || e == "mov"@ || e == "mkv"@ || e == "avi"@
}

/// Video the app imports: mp4 only.
pub open spec fn is_import_video_ext(e: Seq<char>) -> bool {
    e == "mp4"@
}

pub fn audio_ext(e: &Vec<char>) -> (b: bool)
    ensures
        b == is_audio_ext(e@),
{
    chars_are(e, "wav") || chars_are(e, "mp3") || chars_are(e, "m4a") || chars_are(e, "aac")
        || chars_are(e, "ogg") || chars_are(e, "flac") || chars_are(e, "webm")
}

pub fn transcript_ext(e: &Vec<char>) -> (b: bool)
    ensures
        b == is_transcript_ext(e@),
{
    chars_are(e, "vtt") || chars_are(e, "srt") || chars_are(e, "txt")
}

pub fn video_ext(e: &Vec<char>) -> (b: bool)
    ensures
        b == is_video_ext(e@),
{
    chars_are(e, "mp4") || chars_are(e, "mov") || chars_are(e, "mkv") || chars_are(e, "avi")
}

// ---------------------------------------------------------------------------
// Titles and names
// ---------------------------------------------------------------------------

/// The title of an imported file: its name without extension, at most 80
/// characters, or `Untitled`.
pub open spec fn title_spec(os: HostOs, path: Seq<char>) -> Seq<char> {
    match file_stem(os, path) {
        Some(s) => if s.len() <= 80 {
            s
        } else {
            s.take(80)
        },
        None => "Untitled"@,
    }
}

/// The title an imported file at `path` gets on the platform `os`.
pub fn title_from_path(os: HostOs, path: &str) -> (t: String)
    ensures
        t@ == title_spec(os, path@),
{
    match file_stem_chars(os, &to_chars(path)) {
        Some(s) => {
            if s.len() <= 80 {
                from_chars(s.as_slice())
            } else {
                from_chars(slice_chars(&s, 0, 80).as_slice())
            }
        },
        None => "Untitled".to_owned(),
    }
}

/// The file name of a path, or `fallback` when it has none.
pub open spec fn name_or(os: HostOs, path: Seq<char>, fallback: Seq<char>) -> Seq<char> {
    match file_name(os, path) {
        Some(n) => n,
        None => fallback,
    }
}

fn file_name_or(os: HostOs, path: &str, fallback: &str) -> (n: String)
    ensures
        n@ == name_or(os, path@, fallback@),
{
    match file_name_chars(os, &to_chars(path)) {
        Some(n) => from_chars(n.as_slice()),
        None => fallback.to_owned(),
    }
}

// ---------------------------------------------------------------------------
// Import checks and new artifacts
// ---------------------------------------------------------------------------

/// Whether a file may be imported as audio, by its extension.
pub open spec fn audio_check_spec(os: HostOs, path: Seq<char>) -> Result<(), Seq<char>> {
    let e = ext_of_spec(os, path);
    if is_video_ext(e) {
        Err("That looks like video. Use Import Meeting → Video files for MP4."@)
    } else if !is_audio_ext(e) {
        Err("BellaNote needs an audio file (wav, mp3, m4a, aac, ogg, or flac)."@)
    } else {
        Ok(())
    }
}

/// Whether a file may be imported as video, by its extension.
pub open spec fn video_check_spec(os: HostOs, path: Seq<char>) -> Result<(), Seq<char>> {
    let e = ext_of_spec(os, path);
    if is_import_video_ext(e) {
        Ok(())
    } else if is_video_ext(e) {
        Err("BellaNote can import MP4 video. Convert this file to MP4, or export audio instead."@)
    } else {
        Err("BellaNote needs an MP4 video file."@)
    }
}

/// Whether a file may be imported as a transcript, by its extension.
pub open spec fn transcript_check_spec(os: HostOs, path: Seq<char>) -> Result<(), Seq<char>> {
    let e = ext_of_spec(os, path);
    if is_audio_ext(e) {
        Err("That looks like audio. Use Add audio instead."@)
    } else if !is_transcript_ext(e) {
        Err("Import a .vtt, .srt, or .txt transcript."@)
    } else {
        Ok(())
    }
}

pub open spec fn unit_matches(r: AppResult<()>, want: Result<(), Seq<char>>) -> bool {
    match (r, want) {
        (Ok(()), Ok(())) => true,
        (Err(e), Err(m)) => e.msg() == m,
        _ => false,
    }
}

/// Refuses a file that is not audio the app imports.
pub fn audio_import_check(os: HostOs, path: &str) -> (r: AppResult<()>)
    ensures
        unit_matches(r, audio_check_spec(os, path@)),
{
    let e = ext_of_chars(os, &to_chars(path));
    if video_ext(&e) {
        return Err(app_error("That looks like video. Use Import Meeting → Video files for MP4."));
    }
    if !audio_ext(&e) {
        return Err(app_error("BellaNote needs an audio file (wav, mp3, m4a, aac, ogg, or flac)."));
    }
    Ok(())
}

/// Refuses a file that is not an MP4 video.
pub fn video_import_check(os: HostOs, path: &str) -> (r: AppResult<()>)
    ensures
        unit_matches(r, video_check_spec(os, path@)),
{
    let e = ext_of_chars(os, &to_chars(path));
    if chars_are(&e, "mp4") {
        return Ok(());
    }
    if video_ext(&e) {
        return Err(
            app_error(
                "BellaNote can import MP4 video. Convert this file to MP4, or export audio instead.",
            ),
        );
    }
    Err(app_error("BellaNote needs an MP4 video file."))
}

/// Refuses a file that is not a transcript the app imports.
pub fn transcript_import_check(os: HostOs, path: &str) -> (r: AppResult<()>)
    ensures
        unit_matches(r, transcript_check_spec(os, path@)),
{
    let e = ext_of_chars(os, &to_chars(path));
    if audio_ext(&e) {
        return Err(app_error("That looks like audio. Use Add audio instead."));
    }
    if !transcript_ext(&e) {
        return Err(app_error("Import a .vtt, .srt, or .txt transcript."));
    }
    Ok(())
}

/// A new artifact for an imported file, queued for transcription.
pub open spec fn queued_import(
    os: HostOs,
    id: Seq<char>,
    group: Seq<char>,
    path: Seq<char>,
    source_type: Seq<char>,
    name_fallback: Seq<char>,
    created_at: Seq<char>,
) -> ArtifactView {
    ArtifactView {
        id,
        meeting_group_id: group,
        title: title_spec(os, path),
        source_type,
        status: "queued"@,
        has_audio: true,
        original_filename: name_or(os, path, name_fallback),
        error_message: Seq::empty(),
        transcript: Seq::empty(),
        segments_json: "[]"@,
        duration_ms: 0,
        created_at,
        whisper_model: Seq::empty(),
        original_path: path,
    }
}

/// The artifact for an imported audio file.
pub fn audio_artifact(
    os: HostOs,
    id: String,
    meeting_group_id: &str,
    path: &str,
    created_at: String,
) -> (a: Artifact)
    ensures
        a@ == queued_import(
            os,
            id@,
            meeting_group_id@,
            path@,
            "audio_upload"@,
            "audio"@,
            created_at@,
        ),
{
    Artifact {
        id,
        meeting_group_id: meeting_group_id.to_owned(),
        title: title_from_path(os, path),
        source_type: "audio_upload".to_owned(),
        status: "queued".to_owned(),
        has_audio: true,
        original_filename: file_name_or(os, path, "audio"),
        error_message: String::new(),
        transcript: String::new(),
        segments_json: "[]".to_owned(),
        duration_ms: 0,
        created_at,
        whisper_model: String::new(),
        original_path: path.to_owned(),
    }
}

/// The artifact for an imported video file.
pub fn video_artifact(
    os: HostOs,
    id: String,
    meeting_group_id: &str,
    path: &str,
    created_at: String,
) -> (a: Artifact)
    ensures
        a@ == queued_import(
            os,
            id@,
            meeting_group_id@,
            path@,
            "video_upload"@,
            "video"@,
            created_at@,
        ),
{
    Artifact {
        id,
        meeting_group_id: meeting_group_id.to_owned(),
        title: title_from_path(os, path),
        source_type: "video_upload".to_owned(),
        status: "queued".to_owned(),
        has_audio: true,
        original_filename: file_name_or(os, path, "video"),
        error_message: String::new(),
        transcript: String::new(),
        segments_json: "[]".to_owned(),
        duration_ms: 0,
        created_at,
        whisper_model: String::new(),
        original_path: path.to_owned(),
    }
}

/// The latest end of the segments, or 0 when there are none.
pub open spec fn max_end(segs: Seq<SegmentView>) -> i64
    decreases segs.len(),
{
    if segs.len() == 0 {
        0
    } else if segs.len() == 1 {
        segs[0].2
    } else {
        let m = max_end(segs.drop_last());
        if segs.last().2 > m {
            segs.last().2
        } else {
            m
        }
    }
}

/// The latest end of the segments, or 0 when there are none.
pub fn max_end_ms(segs: &Vec<TranscriptSegment>) -> (m: i64)
    ensures
        m == max_end(seg_views(segs@)),
{
    let ghost sv = seg_views(segs@);
    let mut m: i64 = 0;
    let mut i: usize = 0;
    while i < segs.len()
        invariant
            0 <= i <= segs@.len(),
            sv == seg_views(segs@),
            m == max_end(sv.take(i as int)),
        decreases segs.len() - i,
    {
        assert(sv.take(i + 1).drop_last() == sv.take(i as int));
        assert(sv.take(i + 1).last() == sv[i as int]);
        if i == 0 || segs[i].end_ms > m {
            m = segs[i].end_ms;
        }
        i = i + 1;
    }
    assert(sv.take(segs@.len() as int) == sv);
    m
}

/// The artifact for an imported transcript: ready at once, without audio.
pub open spec fn transcript_import(
    os: HostOs,
    id: Seq<char>,
    group: Seq<char>,
    path: Seq<char>,
    transcript: Seq<char>,
    segments_json: Seq<char>,
    duration_ms: i64,
    created_at: Seq<char>,
) -> ArtifactView {
    ArtifactView {
        id,
        meeting_group_id: group,
        title: title_spec(os, path),
        source_type: "transcript_import"@,
        status: "ready"@,
        has_audio: false,
        original_filename: name_or(os, path, "transcript"@),
        error_message: Seq::empty(),
        transcript,
        segments_json,
        duration_ms,
        created_at,
        whisper_model: "imported"@,
        original_path: path,
    }
}

/// The artifact for an imported transcript.
pub fn transcript_artifact(
    os: HostOs,
    id: String,
    meeting_group_id: &str,
    path: &str,
    transcript: String,
    segments_json: String,
    duration_ms: i64,
    created_at: String,
) -> (a: Artifact)
    ensures
        a@ == transcript_import(
            os,
            id@,
            meeting_group_id@,
            path@,
            transcript@,
            segments_json@,
            duration_ms,
            created_at@,
        ),
{
    Artifact {
        id,
        meeting_group_id: meeting_group_id.to_owned(),
        title: title_from_path(os, path),
        source_type: "transcript_import".to_owned(),
        status: "ready".to_owned(),
        has_audio: false,
        original_filename: file_name_or(os, path, "transcript"),
        error_message: String::new(),
        transcript,
        segments_json,
        duration_ms,
        created_at,
        whisper_model: "imported".to_owned(),
        original_path: path.to_owned(),
    }
}

// ---------------------------------------------------------------------------
// Retrying
// ---------------------------------------------------------------------------

/// Whether an artifact may be transcribed again: it must not be importing,
/// must have failed (or be ready with audio but an empty transcript), and
/// must have audio.
pub open spec fn retry_spec(a: ArtifactView) -> Result<(), Seq<char>> {
    if a.status == "queued"@ || a.status == "transcribing"@ || a.status == "recording"@ {
        Err("This file is already importing."@)
    } else if a.status != "failed"@ && !(a.status == "ready"@ && a.has_audio && trim(
        a.transcript,
    ).len() == 0) {
        Err("Only failed imports can be retried."@)
    } else if !a.has_audio {
        Err("This file has no audio to transcribe."@)
    } else {
        Ok(())
    }
}

/// Refuses to retry an artifact that cannot be transcribed again.
pub fn retry_check(artifact: &Artifact) -> (r: AppResult<()>)
    ensures
        unit_matches(r, retry_spec(artifact@)),
{
    let st = to_chars(artifact.status.as_str());
    if chars_are(&st, "queued") || chars_are(&st, "transcribing") || chars_are(&st, "recording") {
        return Err(app_error("This file is already importing."));
    }
    let empty_ready = chars_are(&st, "ready") && artifact.has_audio && trim_chars(
        &to_chars(artifact.transcript.as_str()),
    ).len() == 0;
    if !chars_are(&st, "failed") && !empty_ready {
        return Err(app_error("Only failed imports can be retried."));
    }
    if !artifact.has_audio {
        return Err(app_error("This file has no audio to transcribe."));
    }
    Ok(())
}

/// Whether a file of an artifact's folder is its audio: `source.` and an
/// audio extension.
pub open spec fn library_audio_spec(name: Seq<char>) -> bool {
    "source."@.len() <= name.len() && name.take("source."@.len() as int) == "source."@
        && is_audio_ext(name_ext_spec(name))
}

/// Whether a file of an artifact's folder is its video: `video.` and a video
/// extension.
pub open spec fn library_video_spec(name: Seq<char>) -> bool {
    "video."@.len() <= name.len() && name.take("video."@.len() as int) == "video."@
        && is_video_ext(name_ext_spec(name))
}

pub fn is_library_audio_name(name: &str) -> (b: bool)
    ensures
        b == library_audio_spec(name@),
{
    let n = to_chars(name);
    starts_with_text(&n, "source.") && audio_ext(&name_ext_chars(&n))
}

pub fn is_library_video_name(name: &str) -> (b: bool)
    ensures
        b == library_video_spec(name@),
{
    let n = to_chars(name);
    starts_with_text(&n, "video.") && video_ext(&name_ext_chars(&n))
}

/// Whether deleting an artifact also removes the app's copy of its files:
/// imports always, recordings only when asked. The user's original file is
/// never touched.
pub fn removes_library_files(source_type: &str, delete_audio: bool) -> (b: bool)
    ensures
        b == (delete_audio || !(source_type@ == "voice"@ || source_type@ == "system"@)),
{
    let s = to_chars(source_type);
    let recorded = chars_are(&s, "voice") || chars_are(&s, "system");
    delete_audio || !recorded
}

// ---------------------------------------------------------------------------
// Exporting transcripts
// ---------------------------------------------------------------------------

/// Two digits, with a leading zero below ten.
pub open spec fn two_digits(n: nat) -> Seq<char> {
    if n < 10 {
        seq!['0'] + decimal(n)
    } else {
        decimal(n)
    }
}

/// A moment as `m:ss`, or `h:mm:ss` from an hour on; negative moments count
/// as zero.
pub open spec fn export_timestamp(ms: i64) -> Seq<char> {
    let total: nat = (if ms < 0 {
        0
    } else {
        ms / 1000
    }) as nat;
    let h = total / 3600;
    let m = (total % 3600) / 60;
    let s = total % 60;
    if h > 0 {
        decimal(h) + seq![':'] + two_digits(m) + seq![':'] + two_digits(s)
    } else {
        decimal(m) + seq![':'] + two_digits(s)
    }
}

fn push_two_digits(out: &mut Vec<char>, n: u128)
    requires
        n < 100,
    ensures
        final(out)@ == old(out)@ + two_digits(n as nat),
{
    if n < 10 {
        out.push('0');
        push_decimal(out, n);
        assert(old(out)@.push('0') + decimal(n as nat) == old(out)@ + (seq!['0'] + decimal(
            n as nat,
        )));
    } else {
        push_decimal(out, n);
    }
}

fn export_timestamp_chars(ms: i64) -> (out: Vec<char>)
    ensures
        out@ == export_timestamp(ms),
{
    let total: u128 = if ms < 0 {
        0
    } else {
        (ms / 1000) as u128
    };
    let h = total / 3600;
    let m = (total % 3600) / 60;
    let s = total % 60;
    let mut out: Vec<char> = Vec::new();
    if h > 0 {
        push_decimal(&mut out, h);
        out.push(':');
        push_two_digits(&mut out, m);
        out.push(':');
        push_two_digits(&mut out, s);
    } else {
        push_decimal(&mut out, m);
        out.push(':');
        push_two_digits(&mut out, s);
    }
    out
}

/// A moment of a transcript as it is written in an export.
pub fn format_export_timestamp(ms: i64) -> (s: String)
    ensures
        s@ == export_timestamp(ms),
{
    let c = export_timestamp_chars(ms);
    from_chars(c.as_slice())
}

/// One line of an exported transcript: the segment's moment, then its text.
pub open spec fn export_line(seg: SegmentView) -> Seq<char> {
    seq!['['] + export_timestamp(seg.1) + seq![']', ' '] + trim(seg.0)
}

/// The lines of an export: one per segment whose text is not blank.
pub open spec fn export_lines(segs: Seq<SegmentView>) -> Seq<Seq<char>> {
    segs.filter(|s: SegmentView| trim(s.0).len() > 0).map_values(|s: SegmentView| export_line(s))
}

/// What exporting a transcript writes: the timed lines when the stored
/// segments give any, else the trimmed transcript; a blank transcript is
/// refused. `segments` is what the stored segment list reads as, if it reads.
pub open spec fn export_body_spec(transcript: Seq<char>, segments: Option<Seq<SegmentView>>) -> Result<
    Seq<char>,
    Seq<char>,
> {
    if trim(transcript).len() == 0 {
        Err("This file has no transcript to export."@)
    } else {
        match segments {
            Some(ss) => if export_lines(ss).len() > 0 {
                Ok(join(export_lines(ss), seq!['\n']))
            } else {
                Ok(trim(transcript))
            },
            None => Ok(trim(transcript)),
        }
    }
}

pub open spec fn opt_segs(o: Option<Vec<TranscriptSegment>>) -> Option<Seq<SegmentView>> {
    match o {
        Some(v) => Some(seg_views(v@)),
        None => None,
    }
}

/// The text an exported transcript holds.
pub fn transcript_export_body(transcript: &str, segments: Option<Vec<TranscriptSegment>>) -> (r:
    AppResult<String>)
    ensures
        match (r, export_body_spec(transcript@, opt_segs(segments))) {
            (Ok(s), Ok(w)) => s@ == w,
            (Err(e), Err(m)) => e.msg() == m,
            _ => false,
        },
{
    let plain = trim_chars(&to_chars(transcript));
    if plain.len() == 0 {
        return Err(app_error("This file has no transcript to export."));
    }
    if let Some(segs) = segments {
        broadcast use vstd::seq_lib::group_filter_ensures;

        let ghost sv = seg_views(segs@);
        let ghost keep = |s: SegmentView| trim(s.0).len() > 0;
        let mut lines: Vec<Vec<char>> = Vec::new();
        let mut i: usize = 0;
        while i < segs.len()
            invariant
                0 <= i <= segs@.len(),
                sv == seg_views(segs@),
                keep == (|s: SegmentView| trim(s.0).len() > 0),
                views(lines@) == sv.take(i as int).filter(keep).map_values(
                    |s: SegmentView| export_line(s),
                ),
            decreases segs.len() - i,
        {
            proof {
                crate::db::lemma_filter_push(sv.take(i as int), sv[i as int], keep);
                assert(sv.take(i + 1) == sv.take(i as int).push(sv[i as int]));
            }
            let text = trim_chars(&to_chars(segs[i].text.as_str()));
            if text.len() > 0 {
                let mut line: Vec<char> = Vec::new();
                line.push('[');
                let ts = export_timestamp_chars(segs[i].start_ms);
                push_all(&mut line, &ts);
                line.push(']');
                line.push(' ');
                push_all(&mut line, &text);
                assert(line@ == export_line(sv[i as int]));
                let ghost before = lines@;
                lines.push(line);
                assert(views(lines@) == views(before).push(line@));
            }
            i = i + 1;
        }
        assert(sv.take(segs@.len() as int) == sv);
        if lines.len() > 0 {
            let sep = vec!['\n'];
            assert(sep@ =~= seq!['\n']);
            let body = join_chars(&lines, &sep);
            return Ok(from_chars(body.as_slice()));
        }
    }
    Ok(from_chars(plain.as_slice()))
}

/// `body` ending in a newline: one is added when it has none.
pub open spec fn with_newline_spec(body: Seq<char>) -> Seq<char> {
    if body.len() > 0 && body.last() == '\n' {
        body
    } else {
        body.push('\n')
    }
}

/// The exported text as it is written to the file: ending in a newline.
pub fn with_trailing_newline(body: String) -> (out: String)
    ensures
        out@ == with_newline_spec(body@),
{
    let mut c = to_chars(body.as_str());
    if c.len() > 0 && c[c.len() - 1] == '\n' {
        return body;
    }
    c.push('\n');
    from_chars(c.as_slice())
}

// ---------------------------------------------------------------------------
// Finishing a transcription
// ---------------------------------------------------------------------------

/// What the user is told when processing a file failed, from the error's
/// lowercase text.
pub open spec fn fail_message_spec(lower: Seq<char>) -> Seq<char> {
    if contains_seq(lower, "spawn"@) || contains_seq(lower, "venv"@) || contains_seq(
        lower,
        "worker not found"@,
    ) || contains_seq(lower, "echo_python"@) || contains_seq(lower, "team id"@) || contains_seq(
        lower,
        "python shared library"@,
    ) || contains_seq(lower, "bundled transcription worker"@) {
        "Transcription isn’t available on this Mac. You can try again."@
    } else if contains_seq(lower, "no such file"@) || contains_seq(lower, "couldn’t read"@)
        || contains_seq(lower, "could not"@) {
        "BellaNote couldn’t read this audio file."@
    } else if contains_seq(lower, "extract"@) || contains_seq(lower, "no audio track"@) {
        "BellaNote couldn’t pull audio from this video. You can try again."@
    } else {
        "This file couldn’t be processed. You can try again."@
    }
}

/// What the user is told for an error whose text, lowercased, is `lower`.
pub fn fail_message_for_lowercase(lower: &str) -> (m: String)
    ensures
        m@ == fail_message_spec(lower@),
{
    let l = to_chars(lower);
    if contains_text(&l, "spawn") || contains_text(&l, "venv") || contains_text(
        &l,
        "worker not found",
    ) || contains_text(&l, "echo_python") || contains_text(&l, "team id") || contains_text(
        &l,
        "python shared library",
    ) || contains_text(&l, "bundled transcription worker") {
        return "Transcription isn’t available on this Mac. You can try again.".to_owned();
    }
    if contains_text(&l, "no such file") || contains_text(&l, "couldn’t read") || contains_text(
        &l,
        "could not",
    ) {
        return "BellaNote couldn’t read this audio file.".to_owned();
    }
    if contains_text(&l, "extract") || contains_text(&l, "no audio track") {
        return "BellaNote couldn’t pull audio from this video. You can try again.".to_owned();
    }
    "This file couldn’t be processed. You can try again.".to_owned()
}

/// What the user is told when processing a file failed with error `text`.
pub fn human_fail_message(text: &str) -> (m: String)
    ensures
        m@ == fail_message_spec(unicode_lowercase(text@)),
{
    let lower = to_lowercase(text);
    fail_message_for_lowercase(lower.as_str())
}

/// Why a transcription that gave no text is failed.
pub open spec fn no_text_message() -> Seq<char> {
    "Transcription didn’t finish. The recording is saved — you can try again."@
}

/// The store after a transcription: its transcript when the segments give
/// text, else the artifact fails. `result` holds the segments, or the
/// lowercase text of the error; `segments_json` is the segments as stored.
pub open spec fn finish_spec(
    v: crate::db::DbView,
    id: Seq<char>,
    result: Result<Seq<SegmentView>, Seq<char>>,
    segments_json: Seq<char>,
    whisper_model: Seq<char>,
) -> crate::db::DbView {
    match result {
        Ok(segs) => if segs.len() == 0 || trim(full_text(segs)).len() == 0 {
            set_status_spec(v, id, "failed"@, no_text_message())
        } else {
            set_transcript_spec(v, id, full_text(segs), segments_json, max_end(segs), whisper_model)
        },
        Err(lower) => set_status_spec(v, id, "failed"@, fail_message_spec(lower)),
    }
}

pub open spec fn result_view(r: Result<Vec<TranscriptSegment>, String>) -> Result<
    Seq<SegmentView>,
    Seq<char>,
> {
    match r {
        Ok(v) => Ok(seg_views(v@)),
        Err(e) => Err(unicode_lowercase(e@)),
    }
}

fn joined_text(segs: &Vec<TranscriptSegment>) -> (out: Vec<char>)
    ensures
        out@ == full_text(seg_views(segs@)),
{
    let mut pieces: Vec<Vec<char>> = Vec::new();
    let mut i: usize = 0;
    while i < segs.len()
        invariant
            0 <= i <= segs.len(),
            views(pieces@) == seg_views(segs@).take(i as int).map_values(|s: SegmentView| s.0),
        decreases segs.len() - i,
    {
        let t = to_chars(segs[i].text.as_str());
        let ghost old_p = pieces@;
        pieces.push(t);
        proof {
            assert(views(pieces@) == views(old_p).push(t@));
            assert(seg_views(segs@).take(i + 1).map_values(|s: SegmentView| s.0) =~= seg_views(
                segs@,
            ).take(i as int).map_values(|s: SegmentView| s.0).push(segs@[i as int].text@));
        }
        i = i + 1;
    }
    assert(seg_views(segs@).take(segs.len() as int) == seg_views(segs@));
    let sep = vec![' '];
    assert(sep@ =~= seq![' ']);
    join_chars(&pieces, &sep)
}

/// Records what a transcription gave: the transcript, or why it failed.
pub fn finish_transcribe(
    db: &mut Db,
    id: &str,
    result: Result<Vec<TranscriptSegment>, String>,
    segments_json: &str,
    whisper_model: &str,
)
    requires
        old(db).wf(),
    ensures
        final(db).wf(),
        final(db)@ == finish_spec(
            old(db)@,
            id@,
            result_view(result),
            segments_json@,
            whisper_model@,
        ),
{
    match result {
        Ok(segs) => {
            let text = joined_text(&segs);
            if segs.len() == 0 || trim_chars(&text).len() == 0 {
                let _ = db.set_artifact_status(
                    id,
                    "failed",
                    "Transcription didn’t finish. The recording is saved — you can try again.",
                );
            } else {
                let duration = max_end_ms(&segs);
                let t = from_chars(text.as_slice());
                let _ = db.set_artifact_transcript(
                    id,
                    t.as_str(),
                    segments_json,
                    duration,
                    whisper_model,
                );
            }
        },
        Err(e) => {
            let m = human_fail_message(e.as_str());
            let _ = db.set_artifact_status(id, "failed", m.as_str());
        },
    }
}

} // verus!
