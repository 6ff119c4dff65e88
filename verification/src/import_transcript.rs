//! Reading imported transcripts: WebVTT / SRT cue files and plain text.
use vstd::prelude::*;

use crate::files::{ext_of_chars, ext_of_spec, split_on, split_on_char};
use crate::platform::HostOs;
use crate::text::{
    to_chars, split_lines, contains_chars, contains_seq, find_char, find_chars, first_index_of, first_occurrence, from_chars,
    is_blank, is_digit, join, join_chars, lines, normalize_ws, normalize_ws_chars, occurs_at,
    parse_i64, parse_i64_chars, slice_chars, split_words, trim, trim_chars, trim_end,
    trim_end_chars, views, words,
};

verus! {

broadcast use vstd::string::group_string_axioms;

/// One timed line of a transcript.
pub struct TranscriptSegment {
    pub text: String,
    pub start_ms: i64,
    pub end_ms: i64,
}

/// A segment as values: its text, start and end.
pub type SegmentView = (Seq<char>, i64, i64);

impl View for TranscriptSegment {
    type V = SegmentView;

    open spec fn view(&self) -> SegmentView {
        (self.text@, self.start_ms, self.end_ms)
    }
}

pub open spec fn seg_views(v: Seq<TranscriptSegment>) -> Seq<SegmentView> {
    v.map_values(|s: TranscriptSegment| s@)
}

// ---------------------------------------------------------------------------
// Timestamps
// ---------------------------------------------------------------------------

/// `s` with every `,` replaced by `.`.
pub open spec fn comma_to_dot(s: Seq<char>) -> Seq<char> {
    s.map_values(|c: char| if c == ',' { '.' } else { c })
}

/// The first `k` characters of `s`, or all of them when there are fewer.
pub open spec fn take_at_most(s: Seq<char>, k: int) -> Seq<char> {
    if s.len() <= k {
        s
    } else {
        s.take(k)
    }
}

/// Seconds and fraction of `s.mmm`: the seconds before the first `.`, and the
/// first three characters after it read as an integer (`0` when there is no
/// `.`).
#[verifier::opaque]
pub open spec fn seconds_and_fraction(p: Seq<char>) -> Option<(i64, i64)> {
    let (a, b) = match first_index_of(p, '.') {
        Some(i) => (p.subrange(0, i), p.subrange(i + 1, p.len() as int)),
        None => (p, seq!['0']),
    };
    match (parse_i64(a), parse_i64(take_at_most(b, 3))) {
        (Some(s), Some(ms)) => Some((s, ms)),
        _ => None,
    }
}

/// The milliseconds of a `hh:mm:ss.mmm` or `mm:ss.mmm` timestamp (a `,` may
/// stand for the `.`). Arithmetic beyond `i64` wraps around.
#[verifier::opaque]
pub open spec fn timestamp_ms(ts: Seq<char>) -> Option<i64> {
    let parts = split_on(comma_to_dot(trim(ts)), ':');
    if parts.len() == 3 {
        match (parse_i64(parts[0]), parse_i64(parts[1]), seconds_and_fraction(parts[2])) {
            (Some(h), Some(m), Some((s, ms))) => Some(
                (((h * 3600 + m * 60 + s) * 1000) + ms) as i64,
            ),
            _ => None,
        }
    } else if parts.len() == 2 {
        match (parse_i64(parts[0]), seconds_and_fraction(parts[1])) {
            (Some(m), Some((s, ms))) => Some((((m * 60 + s) * 1000) + ms) as i64),
            _ => None,
        }
    } else {
        None
    }
}

fn comma_to_dot_exec(s: &Vec<char>) -> (out: Vec<char>)
    ensures
        out@ == comma_to_dot(s@),
{
    let mut out: Vec<char> = Vec::new();
    let mut i: usize = 0;
    while i < s.len()
        invariant
            0 <= i <= s.len(),
            out@ == comma_to_dot(s@.take(i as int)),
        decreases s.len() - i,
    {
        let c = s[i];
        out.push(
            if c == ',' {
                '.'
            } else {
                c
            },
        );
        i = i + 1;
        assert(comma_to_dot(s@.take(i as int)) =~= comma_to_dot(s@.take((i - 1) as int)).push(
            if s@[i - 1] == ',' {
                '.'
            } else {
                s@[i - 1]
            },
        ));
    }
    assert(s@.take(s.len() as int) == s@);
    out
}

fn seconds_and_fraction_exec(p: &Vec<char>) -> (r: Option<(i64, i64)>)
    ensures
        r == seconds_and_fraction(p@),
{
    reveal(seconds_and_fraction);
    let (a, b) = match find_char(p, '.') {
        Some(i) => (slice_chars(p, 0, i), slice_chars(p, i + 1, p.len())),
        None => {
            let zero = vec!['0'];
            assert(zero@ == seq!['0']);
            (slice_chars(p, 0, p.len()), zero)
        },
    };
    assert(p@.subrange(0, p.len() as int) == p@);
    let k: usize = if b.len() <= 3 {
        b.len()
    } else {
        3
    };
    let b3 = slice_chars(&b, 0, k);
    assert(b3@ == take_at_most(b@, 3)) by {
        if b@.len() <= 3 {
            assert(b@.subrange(0, b@.len() as int) == b@);
        }
    }
    match parse_i64_chars(&a) {
        Some(s) => match parse_i64_chars(&b3) {
            Some(ms) => Some((s, ms)),
            None => None,
        },
        None => None,
    }
}

/// The milliseconds of a cue timestamp, see `timestamp_ms`.
pub fn parse_timestamp_to_ms(ts: &Vec<char>) -> (r: Option<i64>)
    ensures
        r == timestamp_ms(ts@),
{
    reveal(timestamp_ms);
    let t = trim_chars(ts);
    let t = comma_to_dot_exec(&t);
    let parts = split_on_char(&t, ':');
    assert(views(parts@).len() == parts@.len());
    if parts.len() == 3 {
        assert(views(parts@)[0] == parts@[0]@ && views(parts@)[1] == parts@[1]@ && views(
            parts@,
        )[2] == parts@[2]@);
        let h = match parse_i64_chars(&parts[0]) {
            Some(v) => v,
            None => return None,
        };
        let m = match parse_i64_chars(&parts[1]) {
            Some(v) => v,
            None => return None,
        };
        let (s, ms) = match seconds_and_fraction_exec(&parts[2]) {
            Some(v) => v,
            None => return None,
        };
        let total: i128 = ((h as i128) * 3600 + (m as i128) * 60 + (s as i128)) * 1000 + (ms as i128);
        Some(total as i64)
    } else if parts.len() == 2 {
        assert(views(parts@)[0] == parts@[0]@ && views(parts@)[1] == parts@[1]@);
        let m = match parse_i64_chars(&parts[0]) {
            Some(v) => v,
            None => return None,
        };
        let (s, ms) = match seconds_and_fraction_exec(&parts[1]) {
            Some(v) => v,
            None => return None,
        };
        let total: i128 = ((m as i128) * 60 + (s as i128)) * 1000 + (ms as i128);
        Some(total as i64)
    } else {
        None
    }
}

// ---------------------------------------------------------------------------
// Tags
// ---------------------------------------------------------------------------

/// `s[i..]` with markup removed: a `<` opens a tag, a `>` closes it, and
/// neither they nor what stands inside a tag are kept.
pub open spec fn strip_tags_from(s: Seq<char>, i: int, in_tag: bool) -> Seq<char>
    decreases s.len() - i,
{
    if i < 0 || i >= s.len() {
        seq![]
    } else if s[i] == '<' {
        strip_tags_from(s, i + 1, true)
    } else if s[i] == '>' {
        strip_tags_from(s, i + 1, false)
    } else if !in_tag {
        seq![s[i]] + strip_tags_from(s, i + 1, in_tag)
    } else {
        strip_tags_from(s, i + 1, in_tag)
    }
}

pub open spec fn strip_tags_spec(s: Seq<char>) -> Seq<char> {
    strip_tags_from(s, 0, false)
}

/// `s` without markup tags, see `strip_tags_spec`.
pub fn strip_tags(s: &Vec<char>) -> (out: Vec<char>)
    ensures
        out@ == strip_tags_spec(s@),
{
    let mut out: Vec<char> = Vec::new();
    let mut in_tag = false;
    let mut i: usize = 0;
    while i < s.len()
        invariant
            0 <= i <= s.len(),
            out@ + strip_tags_from(s@, i as int, in_tag) == strip_tags_spec(s@),
        decreases s.len() - i,
    {
        let ch = s[i];
        let ghost old_out = out@;
        if ch == '<' {
            in_tag = true;
        } else if ch == '>' {
            in_tag = false;
        } else if !in_tag {
            out.push(ch);
            assert(out@ + strip_tags_from(s@, i + 1, in_tag) =~= old_out + (seq![ch]
                + strip_tags_from(s@, i + 1, in_tag)));
        }
        i = i + 1;
    }
    assert(out@ + Seq::<char>::empty() == out@);
    out
}

// ---------------------------------------------------------------------------
// Cues
// ---------------------------------------------------------------------------

pub open spec fn arrow() -> Seq<char> {
    seq!['-', '-', '>']
}

pub open spec fn webvtt() -> Seq<char> {
    seq!['W', 'E', 'B', 'V', 'T', 'T']
}

pub open spec fn all_ascii_digits(s: Seq<char>) -> bool {
    forall|i: int| 0 <= i < s.len() ==> is_digit(#[trigger] s[i])
}

/// A line that starts no cue: blank, the `WEBVTT` header, or a cue number.
pub open spec fn is_skip_line(line: Seq<char>) -> bool {
    line.len() == 0 || line == webvtt() || all_ascii_digits(line)
}

/// The index of the first line at or after `from` that is blank, or the
/// number of lines.
pub open spec fn text_end(ls: Seq<Seq<char>>, from: int) -> int
    decreases ls.len() - from,
{
    if from < 0 || from >= ls.len() {
        if from < 0 {
            0
        } else {
            from
        }
    } else if trim(ls[from]).len() == 0 {
        from
    } else {
        text_end(ls, from + 1)
    }
}

pub proof fn lemma_text_end_bounds(ls: Seq<Seq<char>>, from: int)
    requires
        0 <= from,
    ensures
        from <= text_end(ls, from),
        from <= ls.len() ==> text_end(ls, from) <= ls.len(),
    decreases ls.len() - from,
{
    if from < ls.len() && trim(ls[from]).len() != 0 {
        lemma_text_end_bounds(ls, from + 1);
    }
}

/// The text of one cue line: markup removed, trimmed.
pub open spec fn cue_line_text(line: Seq<char>) -> Seq<char> {
    trim(strip_tags_spec(trim_end(line)))
}

/// The cleaned texts of the lines `ls[a..b]`.
pub open spec fn cue_line_texts(ls: Seq<Seq<char>>, a: int, b: int) -> Seq<Seq<char>> {
    ls.subrange(a, b).map_values(|l: Seq<char>| cue_line_text(l))
}

/// The text of a cue made of the lines `ls[a..b]`: their texts joined by
/// spaces, whitespace runs collapsed.
#[verifier::opaque]
pub open spec fn cue_text(ls: Seq<Seq<char>>, a: int, b: int) -> Seq<char> {
    normalize_ws(join(cue_line_texts(ls, a, b), seq![' ']))
}

/// The end field of a time line's remainder: its first word, if any.
pub open spec fn end_field(rest: Seq<char>) -> Seq<char> {
    let ws = words(rest);
    if ws.len() > 0 {
        trim(ws[0])
    } else {
        seq![]
    }
}

pub open spec fn or_default(o: Option<i64>, d: i64) -> i64 {
    match o {
        Some(v) => v,
        None => d,
    }
}

/// Start and end of a time line `start --> end [settings]`: an unreadable start
/// is `0`, an unreadable or missing end is the start.
#[verifier::opaque]
pub open spec fn cue_times(time_line: Seq<char>) -> (i64, i64) {
    let p = first_occurrence(time_line, arrow()).unwrap();
    let start_ms = or_default(timestamp_ms(time_line.subrange(0, p)), 0);
    let end_ms = or_default(
        timestamp_ms(end_field(time_line.subrange(p + 3, time_line.len() as int))),
        start_ms,
    );
    (start_ms, end_ms)
}

/// Where the time line of a cue starting at line `i` stands: `i` itself, or
/// the next line when only that one holds `-->`.
#[verifier::opaque]
pub open spec fn time_line_index(ls: Seq<Seq<char>>, i: int) -> int {
    if !contains_seq(trim(ls[i]), arrow()) && i + 1 < ls.len() && contains_seq(ls[i + 1], arrow()) {
        i + 1
    } else {
        i
    }
}

pub proof fn lemma_time_line_index(ls: Seq<Seq<char>>, i: int)
    requires
        0 <= i < ls.len(),
    ensures
        i <= time_line_index(ls, i) < ls.len(),
        time_line_index(ls, i) == i || time_line_index(ls, i) == i + 1,
{
    reveal(time_line_index);
}

/// The cues found in `ls` from line `i` on.
#[verifier::opaque]
pub open spec fn cues_from(ls: Seq<Seq<char>>, i: int) -> Seq<SegmentView>
    decreases ls.len() + 1 - i,
{
    if i < 0 || i >= ls.len() {
        seq![]
    } else {
        let line = trim(ls[i]);
        if is_skip_line(line) {
            cues_from(ls, i + 1)
        } else {
            proof {
                lemma_time_line_index(ls, i);
            }
            let j = time_line_index(ls, i);
            let time_line = trim(ls[j]);
            if !contains_seq(time_line, arrow()) {
                cues_from(ls, j + 1)
            } else {
                proof {
                    lemma_text_end_bounds(ls, j + 1);
                }
                let k = text_end(ls, j + 1);
                let (start_ms, end_ms) = cue_times(time_line);
                let text = cue_text(ls, j + 1, k);
                if text.len() > 0 {
                    seq![(text, start_ms, end_ms)] + cues_from(ls, k + 1)
                } else {
                    cues_from(ls, k + 1)
                }
            }
        }
    }
}

/// The cues of a WebVTT or SRT file.
pub open spec fn cues(raw: Seq<char>) -> Seq<SegmentView> {
    cues_from(lines(raw), 0)
}

fn is_skip_line_exec(line: &Vec<char>) -> (b: bool)
    ensures
        b == is_skip_line(line@),
{
    if line.len() == 0 {
        return true;
    }
    let is_header = line.len() == 6 && line[0] == 'W' && line[1] == 'E' && line[2] == 'B'
        && line[3] == 'V' && line[4] == 'T' && line[5] == 'T';
    assert(is_header == (line@ == webvtt())) by {
        if is_header {
            assert(line@ =~= webvtt());
        }
        if line@ == webvtt() {
            assert(line@[0] == 'W' && line@[1] == 'E' && line@[2] == 'B' && line@[3] == 'V'
                && line@[4] == 'T' && line@[5] == 'T');
        }
    }
    if is_header {
        return true;
    }
    let mut i: usize = 0;
    while i < line.len()
        invariant
            0 <= i <= line.len(),
            line@.len() > 0,
            line@ != webvtt(),
            forall|j: int| 0 <= j < i ==> is_digit(#[trigger] line@[j]),
        decreases line.len() - i,
    {
        if !('0' <= line[i] && line[i] <= '9') {
            assert(!is_digit(line@[i as int]));
            assert(!all_ascii_digits(line@));
            return false;
        }
        i = i + 1;
    }
    true
}

fn arrow_exec() -> (a: Vec<char>)
    ensures
        a@ == arrow(),
{
    let a = vec!['-', '-', '>'];
    assert(a@ =~= arrow());
    a
}

/// Start and end of a time line, see `cue_times`.
#[verifier::rlimit(60)]
fn cue_times_exec(time_line: &Vec<char>) -> (r: (i64, i64))
    requires
        contains_seq(time_line@, arrow()),
    ensures
        r == cue_times(time_line@),
{
    let arr = arrow_exec();
    let p = match find_chars(time_line, &arr) {
        Some(p) => p,
        None => {
            assert(false);
            0
        },
    };
    assert(arr@.len() == 3);
    assert(p + 3 <= time_line.len());
    let start_raw = slice_chars(time_line, 0, p);
    let rest = slice_chars(time_line, p + 3, time_line.len());
    let ws = split_words(&rest);
    let end_raw = if ws.len() > 0 {
        assert(views(ws@)[0] == ws@[0]@);
        trim_chars(&ws[0])
    } else {
        Vec::new()
    };
    assert(end_raw@ == end_field(rest@));
    let start_ms = match parse_timestamp_to_ms(&start_raw) {
        Some(v) => v,
        None => 0,
    };
    let end_ms = match parse_timestamp_to_ms(&end_raw) {
        Some(v) => v,
        None => start_ms,
    };
    proof {
        reveal(cue_times);
    }
    (start_ms, end_ms)
}

/// The cleaned text of one cue line, see `cue_line_text`.
fn cue_line_text_exec(line: &Vec<char>) -> (out: Vec<char>)
    ensures
        out@ == cue_line_text(line@),
{
    let t = trim_end_chars(line);
    let s = strip_tags(&t);
    trim_chars(&s)
}

/// The index of the first blank line at or after `from`, see `text_end`.
fn text_end_exec(ls: &Vec<Vec<char>>, from: usize) -> (k: usize)
    requires
        from <= ls.len(),
    ensures
        k as int == text_end(views(ls@), from as int),
        from <= k <= ls.len(),
{
    let mut k = from;
    while k < ls.len() && !is_blank(&ls[k])
        invariant
            from <= k <= ls.len(),
            text_end(views(ls@), from as int) == text_end(views(ls@), k as int),
        decreases ls.len() - k,
    {
        assert(views(ls@)[k as int] == ls@[k as int]@);
        k = k + 1;
    }
    if k < ls.len() {
        assert(views(ls@)[k as int] == ls@[k as int]@);
    }
    k
}

/// The text of the cue made of lines `ls[a..b]`, see `cue_text`.
fn cue_text_exec(ls: &Vec<Vec<char>>, a: usize, b: usize) -> (out: Vec<char>)
    requires
        a <= b <= ls.len(),
    ensures
        out@ == cue_text(views(ls@), a as int, b as int),
{
    reveal(cue_text);
    let mut pieces: Vec<Vec<char>> = Vec::new();
    let mut i = a;
    while i < b
        invariant
            a <= i <= b <= ls.len(),
            views(pieces@) == cue_line_texts(views(ls@), a as int, i as int),
        decreases b - i,
    {
        let piece = cue_line_text_exec(&ls[i]);
        let ghost old_p = pieces@;
        pieces.push(piece);
        proof {
            assert(views(pieces@) == views(old_p).push(piece@));
            assert(views(ls@)[i as int] == ls@[i as int]@);
            assert(cue_line_texts(views(ls@), a as int, i + 1) =~= cue_line_texts(
                views(ls@),
                a as int,
                i as int,
            ).push(cue_line_text(views(ls@)[i as int])));
        }
        i = i + 1;
    }
    let sep = vec![' '];
    assert(sep@ =~= seq![' ']);
    let joined = join_chars(&pieces, &sep);
    normalize_ws_chars(&joined)
}

/// One step of `cues_from`: what follows from line `i` is either a skipped
/// line, or a time line at `j` whose text lines end at `k`.
proof fn lemma_cues_step(ls: Seq<Seq<char>>, i: int)
    requires
        0 <= i < ls.len(),
    ensures
        is_skip_line(trim(ls[i])) ==> cues_from(ls, i) == cues_from(ls, i + 1),
        !is_skip_line(trim(ls[i])) && !contains_seq(trim(ls[time_line_index(ls, i)]), arrow())
            ==> cues_from(ls, i) == cues_from(ls, time_line_index(ls, i) + 1),
        !is_skip_line(trim(ls[i])) && contains_seq(trim(ls[time_line_index(ls, i)]), arrow())
            ==> ({
            let j = time_line_index(ls, i);
            let k = text_end(ls, j + 1);
            let (start_ms, end_ms) = cue_times(trim(ls[j]));
            let text = cue_text(ls, j + 1, k);
            cues_from(ls, i) == if text.len() > 0 {
                seq![(text, start_ms, end_ms)] + cues_from(ls, k + 1)
            } else {
                cues_from(ls, k + 1)
            }
        }),
{
    reveal(cues_from);
}

/// A segment holding `text`.
fn make_segment(text: &Vec<char>, start_ms: i64, end_ms: i64) -> (s: TranscriptSegment)
    ensures
        s@ == (text@, start_ms, end_ms),
{
    TranscriptSegment { text: from_chars(text.as_slice()), start_ms, end_ms }
}

/// The cues of a cue file given as lines, see `cues_from`.
pub fn parse_cue_lines(ls: &Vec<Vec<char>>) -> (out: Vec<TranscriptSegment>)
    ensures
        seg_views(out@) == cues_from(views(ls@), 0),
{
    let ghost lv = views(ls@);
    let mut out: Vec<TranscriptSegment> = Vec::new();
    let mut i: usize = 0;
    while i < ls.len()
        invariant
            0 <= i <= ls.len(),
            lv == views(ls@),
            lv.len() == ls.len(),
            seg_views(out@) + cues_from(lv, i as int) == cues_from(lv, 0),
        decreases ls.len() - i,
    {
        proof {
            lemma_cues_step(lv, i as int);
            assert(lv[i as int] == ls@[i as int]@);
        }
        let line = trim_chars(&ls[i]);
        if is_skip_line_exec(&line) {
            i = i + 1;
            continue;
        }
        let arr = arrow_exec();
        let line_has_arrow = contains_chars(&line, &arr);
        let mut j = i;
        if !line_has_arrow && i + 1 < ls.len() && contains_chars(&ls[i + 1], &arr) {
            assert(lv[i + 1] == ls@[i + 1]@);
            j = i + 1;
        }
        assert(j as int == time_line_index(lv, i as int)) by {
            reveal(time_line_index);
        }
        assert(lv[j as int] == ls@[j as int]@);
        let time_line = trim_chars(&ls[j]);
        if !contains_chars(&time_line, &arr) {
            i = j + 1;
            continue;
        }
        let k = text_end_exec(ls, j + 1);
        let (start_ms, end_ms) = cue_times_exec(&time_line);
        let text = cue_text_exec(ls, j + 1, k);
        if text.len() > 0 {
            let ghost old_out = out@;
            let seg = make_segment(&text, start_ms, end_ms);
            out.push(seg);
            proof {
                assert(seg_views(out@) == seg_views(old_out).push(seg@));
                assert(seg_views(out@) + cues_from(lv, k + 1) =~= seg_views(old_out) + (seq![
                    (text@, start_ms, end_ms),
                ] + cues_from(lv, k + 1)));
            }
        }
        if k < ls.len() {
            i = k + 1;
        } else {
            assert(cues_from(lv, k + 1) == Seq::<SegmentView>::empty()) by {
                reveal(cues_from);
            }
            assert(cues_from(lv, ls.len() as int) == Seq::<SegmentView>::empty()) by {
                reveal(cues_from);
            }
            i = ls.len();
        }
    }
    proof {
        reveal(cues_from);
        assert(cues_from(lv, i as int) == Seq::<SegmentView>::empty());
        assert(seg_views(out@) + Seq::<SegmentView>::empty() == seg_views(out@));
    }
    out
}

// ---------------------------------------------------------------------------
// Files
// ---------------------------------------------------------------------------

pub open spec fn txt() -> Seq<char> {
    seq!['t', 'x', 't']
}

/// The most bytes a transcript file may hold.
pub const MAX_TRANSCRIPT_BYTES: usize = 2_000_000;

/// The segments of a transcript file with extension `ext`: a `.txt` file
/// without any `-->` is one segment holding all its text; anything else is
/// read as cues.
pub open spec fn file_segments(ext: Seq<char>, raw: Seq<char>) -> Seq<SegmentView> {
    if ext == txt() && !contains_seq(raw, arrow()) {
        seq![(trim(raw), 0i64, 0i64)]
    } else {
        cues(raw)
    }
}

/// The texts of segments joined by single spaces.
pub open spec fn full_text(segs: Seq<SegmentView>) -> Seq<char> {
    join(segs.map_values(|s: SegmentView| s.0), seq![' '])
}

/// The number of bytes of `s` in UTF-8, as `str::len` reports it.
pub open spec fn utf8_len(s: Seq<char>) -> usize {
    vstd::utf8::encode_utf8(s).len() as usize
}

/// What reading a transcript file gives: its segments and full text, or why
/// it was refused.
pub open spec fn parse_transcript_spec(os: HostOs, path: Seq<char>, raw: Seq<char>) -> Result<
    (Seq<SegmentView>, Seq<char>),
    Seq<char>,
> {
    if trim(raw).len() == 0 {
        Err("The file has no text."@)
    } else if utf8_len(raw) > MAX_TRANSCRIPT_BYTES {
        Err("That transcript is larger than 2 MB."@)
    } else {
        let segs = file_segments(ext_of_spec(os, path), raw);
        if segs.len() == 0 {
            Err("Could not find any transcript text in that file."@)
        } else {
            Ok((segs, full_text(segs)))
        }
    }
}

fn full_text_exec(segs: &Vec<TranscriptSegment>) -> (out: String)
    ensures
        out@ == full_text(seg_views(segs@)),
{
    let mut pieces: Vec<Vec<char>> = Vec::new();
    let mut i: usize = 0;
    while i < segs.len()
        invariant
            0 <= i <= segs.len(),
            views(pieces@) == seg_views(segs@).take(i as int).map_values(|s: SegmentView| s.0),
        decreases segs.len() - i,
    {
        let t = to_chars(segs[i].text.as_str());
        let ghost old_p = pieces@;
        pieces.push(t);
        proof {
            assert(views(pieces@) == views(old_p).push(t@));
            assert(seg_views(segs@).take(i + 1).map_values(|s: SegmentView| s.0) =~= seg_views(
                segs@,
            ).take(i as int).map_values(|s: SegmentView| s.0).push(segs@[i as int].text@));
        }
        i = i + 1;
    }
    assert(seg_views(segs@).take(segs.len() as int) == seg_views(segs@));
    let sep = vec![' '];
    assert(sep@ =~= seq![' ']);
    let joined = join_chars(&pieces, &sep);
    from_chars(joined.as_slice())
}

/// Reads an imported transcript at `path` on the platform `os`: refuses an
/// empty file, one over 2 MB, and one without any text; otherwise gives its
/// segments and full text.
pub fn parse_transcript_file(os: HostOs, path: &str, raw: &str) -> (r: Result<
    (Vec<TranscriptSegment>, String),
    String,
>)
    ensures
        match (r, parse_transcript_spec(os, path@, raw@)) {
            (Ok((segs, full)), Ok((want_segs, want_full))) => seg_views(segs@) == want_segs
                && full@ == want_full,
            (Err(e), Err(want)) => e@ == want,
            _ => false,
        },
{
    let p = to_chars(path);
    let chars = to_chars(raw);
    if is_blank(&chars) {
        return Err("The file has no text.".to_owned());
    }
    if raw.len() > MAX_TRANSCRIPT_BYTES {
        return Err("That transcript is larger than 2 MB.".to_owned());
    }
    let ext = ext_of_chars(os, &p);
    let is_txt = ext.len() == 3 && ext[0] == 't' && ext[1] == 'x' && ext[2] == 't';
    assert(is_txt == (ext@ == txt())) by {
        if is_txt {
            assert(ext@ =~= txt());
        }
        if ext@ == txt() {
            assert(ext@[0] == 't' && ext@[1] == 'x' && ext@[2] == 't');
        }
    }
    let arr = arrow_exec();
    let segs: Vec<TranscriptSegment> = if is_txt && !contains_chars(&chars, &arr) {
        let t = trim_chars(&chars);
        let seg = make_segment(&t, 0, 0);
        let v = vec![seg];
        assert(seg_views(v@) =~= seq![(t@, 0i64, 0i64)]);
        v
    } else {
        let ls = split_lines(&chars);
        parse_cue_lines(&ls)
    };
    assert(seg_views(segs@) == file_segments(ext@, raw@));
    assert(seg_views(segs@).len() == segs@.len());
    assert(ext@ == ext_of_spec(os, path@));
    if segs.len() == 0 {
        return Err("Could not find any transcript text in that file.".to_owned());
    }
    let full = full_text_exec(&segs);
    Ok((segs, full))
}

} // verus!
