//! Character-level text helpers: trimming, searching, line and word splitting,
//! integer parsing. Every helper works on `Seq<char>` views and states its
//! result in terms of the spec functions below.
use vstd::prelude::*;

verus! {

broadcast use vstd::string::group_string_axioms;

// ---------------------------------------------------------------------------
// Conversions
// ---------------------------------------------------------------------------

/// The characters of a string slice, in order.
pub fn to_chars(s: &str) -> (out: Vec<char>)
    ensures
        out@ == s@,
{
    let mut out: Vec<char> = Vec::new();
    for c in it: s.chars()
        invariant
            out@ == it.seq().take(it.index() as int),
            it.seq() == s@,
    {
        out.push(c);
    }
    out
}

/// Builds a `String` holding exactly the given characters
/// (`FromIterator<&char> for String`).
#[verifier::external_body]
pub fn from_chars(v: &[char]) -> (s: String)
    ensures
        s@ == v@,
{
    v.iter().collect()
}

/// A copy of the characters `v[from..to]`.
pub fn slice_chars(v: &Vec<char>, from: usize, to: usize) -> (out: Vec<char>)
    requires
        from <= to <= v.len(),
    ensures
        out@ == v@.subrange(from as int, to as int),
{
    let mut out: Vec<char> = Vec::new();
    let mut i = from;
    while i < to
        invariant
            from <= i <= to <= v.len(),
            out@ == v@.subrange(from as int, i as int),
        decreases to - i,
    {
        out.push(v[i]);
        i = i + 1;
    }
    out
}

/// Appends all of `src` to `dst`.
pub fn push_all(dst: &mut Vec<char>, src: &Vec<char>)
    ensures
        final(dst)@ == old(dst)@ + src@,
{
    let mut i: usize = 0;
    while i < src.len()
        invariant
            0 <= i <= src.len(),
            dst@ == old(dst)@ + src@.take(i as int),
        decreases src.len() - i,
    {
        dst.push(src[i]);
        i = i + 1;
        assert(src@.take(i as int) == src@.take((i - 1) as int).push(src@[i - 1]));
    }
    assert(src@.take(src.len() as int) == src@);
}

// ---------------------------------------------------------------------------
// Whitespace and trimming
// ---------------------------------------------------------------------------

/// Unicode `White_Space`, the set that `char::is_whitespace` tests.
pub open spec fn is_ws(c: char) -> bool {
    let u = c as u32;
    (0x9 <= u <= 0xD) || u == 0x20 || u == 0x85 || u == 0xA0 || u == 0x1680 || (0x2000 <= u
        <= 0x200A) || u == 0x2028 || u == 0x2029 || u == 0x202F || u == 0x205F || u == 0x3000
}

pub fn is_whitespace(c: char) -> (b: bool)
    ensures
        b == is_ws(c),
{
    let u = c as u32;
    (0x9 <= u && u <= 0xD) || u == 0x20 || u == 0x85 || u == 0xA0 || u == 0x1680 || (0x2000 <= u
        && u <= 0x200A) || u == 0x2028 || u == 0x2029 || u == 0x202F || u == 0x205F || u == 0x3000
}

/// `s` without its leading whitespace.
pub open spec fn trim_start(s: Seq<char>) -> Seq<char>
    decreases s.len(),
{
    if s.len() > 0 && is_ws(s[0]) {
        trim_start(s.drop_first())
    } else {
        s
    }
}

/// `s` without its trailing whitespace.
pub open spec fn trim_end(s: Seq<char>) -> Seq<char>
    decreases s.len(),
{
    if s.len() > 0 && is_ws(s.last()) {
        trim_end(s.drop_last())
    } else {
        s
    }
}

/// `s` without leading and trailing whitespace (`str::trim`).
pub open spec fn trim(s: Seq<char>) -> Seq<char> {
    trim_end(trim_start(s))
}

pub proof fn lemma_trim_start_at(s: Seq<char>, a: int)
    requires
        0 <= a <= s.len(),
        forall|i: int| 0 <= i < a ==> is_ws(#[trigger] s[i]),
        a == s.len() || !is_ws(s[a]),
    ensures
        trim_start(s) == s.subrange(a, s.len() as int),
    decreases a,
{
    if a == 0 {
        assert(s.subrange(0, s.len() as int) == s);
    } else {
        let t = s.drop_first();
        assert forall|i: int| 0 <= i < a - 1 implies is_ws(#[trigger] t[i]) by {
            assert(t[i] == s[i + 1]);
        }
        if a - 1 < t.len() {
            assert(t[a - 1] == s[a]);
        }
        lemma_trim_start_at(t, a - 1);
        assert(t.subrange(a - 1, t.len() as int) == s.subrange(a, s.len() as int));
    }
}

pub proof fn lemma_trim_end_at(s: Seq<char>, b: int)
    requires
        0 <= b <= s.len(),
        forall|i: int| b <= i < s.len() ==> is_ws(#[trigger] s[i]),
        b == 0 || !is_ws(s[b - 1]),
    ensures
        trim_end(s) == s.subrange(0, b),
    decreases s.len() - b,
{
    if b == s.len() {
        assert(s.subrange(0, b) == s);
    } else {
        let t = s.drop_last();
        assert forall|i: int| b <= i < t.len() implies is_ws(#[trigger] t[i]) by {
            assert(t[i] == s[i]);
        }
        if b > 0 {
            assert(t[b - 1] == s[b - 1]);
        }
        lemma_trim_end_at(t, b);
        assert(t.subrange(0, b) == s.subrange(0, b));
    }
}

/// The bounds `(a, b)` of `trim(v)` inside `v`.
pub fn trim_bounds(v: &Vec<char>) -> (r: (usize, usize))
    ensures
        r.0 <= r.1 <= v.len(),
        v@.subrange(r.0 as int, r.1 as int) == trim(v@),
{
    let mut a: usize = 0;
    while a < v.len() && is_whitespace(v[a])
        invariant
            0 <= a <= v.len(),
            forall|i: int| 0 <= i < a ==> is_ws(#[trigger] v@[i]),
        decreases v.len() - a,
    {
        a = a + 1;
    }
    proof {
        lemma_trim_start_at(v@, a as int);
    }
    let ghost t = v@.subrange(a as int, v.len() as int);
    let mut b: usize = v.len();
    while b > a && is_whitespace(v[b - 1])
        invariant
            a <= b <= v.len(),
            forall|i: int| b <= i < v.len() ==> is_ws(#[trigger] v@[i]),
        decreases b,
    {
        b = b - 1;
    }
    proof {
        assert forall|i: int| b - a <= i < t.len() implies is_ws(#[trigger] t[i]) by {
            assert(t[i] == v@[i + a]);
        }
        if b > a {
            assert(t[b - a - 1] == v@[b - 1]);
        }
        lemma_trim_end_at(t, b - a);
        assert(t.subrange(0, b - a) == v@.subrange(a as int, b as int));
    }
    (a, b)
}

/// A trimmed copy of `v`.
pub fn trim_chars(v: &Vec<char>) -> (out: Vec<char>)
    ensures
        out@ == trim(v@),
{
    let (a, b) = trim_bounds(v);
    slice_chars(v, a, b)
}

/// A copy of `v` without trailing whitespace.
pub fn trim_end_chars(v: &Vec<char>) -> (out: Vec<char>)
    ensures
        out@ == trim_end(v@),
{
    let mut b: usize = v.len();
    while b > 0 && is_whitespace(v[b - 1])
        invariant
            b <= v.len(),
            forall|i: int| b <= i < v.len() ==> is_ws(#[trigger] v@[i]),
        decreases b,
    {
        b = b - 1;
    }
    proof {
        lemma_trim_end_at(v@, b as int);
    }
    slice_chars(v, 0, b)
}

/// Whether every character of `s` is whitespace.
pub open spec fn all_ws(s: Seq<char>) -> bool {
    forall|i: int| 0 <= i < s.len() ==> is_ws(#[trigger] s[i])
}

pub proof fn lemma_trim_empty_iff_all_ws(s: Seq<char>)
    ensures
        (trim(s).len() == 0) == all_ws(s),
{
    let mut a: int = 0;
    // find the first non-whitespace character, if any
    if all_ws(s) {
        lemma_trim_start_at(s, s.len() as int);
        assert(trim_start(s).len() == 0);
        assert(trim_end(trim_start(s)) == trim_start(s));
    } else {
        let k = choose|k: int| 0 <= k < s.len() && !is_ws(s[k]);
        let first = first_non_ws(s, 0, k);
        lemma_trim_start_at(s, first);
        let t = trim_start(s);
        assert(t.len() > 0);
        assert(!is_ws(t[0]));
        lemma_trim_end_keeps_nonempty(t);
    }
}

proof fn lemma_trim_end_keeps_nonempty(t: Seq<char>)
    requires
        t.len() > 0,
        !is_ws(t[0]),
    ensures
        trim_end(t).len() > 0,
    decreases t.len(),
{
    if is_ws(t.last()) {
        assert(t.len() > 1);
        assert(t.drop_last()[0] == t[0]);
        lemma_trim_end_keeps_nonempty(t.drop_last());
    }
}

/// The first index at or after `from` that holds a non-whitespace character,
/// given that `k` is such an index.
pub proof fn first_non_ws(s: Seq<char>, from: int, k: int) -> (r: int)
    requires
        0 <= from <= k < s.len(),
        !is_ws(s[k]),
        forall|i: int| 0 <= i < from ==> is_ws(#[trigger] s[i]),
    ensures
        from <= r <= k,
        !is_ws(s[r]),
        forall|i: int| 0 <= i < r ==> is_ws(#[trigger] s[i]),
    decreases k - from,
{
    if !is_ws(s[from]) {
        from
    } else {
        first_non_ws(s, from + 1, k)
    }
}

/// Whether `trim(v)` is empty, i.e. `v` holds only whitespace.
pub fn is_blank(v: &Vec<char>) -> (b: bool)
    ensures
        b == (trim(v@).len() == 0),
        b == all_ws(v@),
{
    proof {
        lemma_trim_empty_iff_all_ws(v@);
    }
    let mut i: usize = 0;
    while i < v.len()
        invariant
            0 <= i <= v.len(),
            forall|j: int| 0 <= j < i ==> is_ws(#[trigger] v@[j]),
        decreases v.len() - i,
    {
        if !is_whitespace(v[i]) {
            assert(!is_ws(v@[i as int]));
            assert(!all_ws(v@));
            proof {
                lemma_trim_empty_iff_all_ws(v@);
            }
            return false;
        }
        i = i + 1;
    }
    true
}

// ---------------------------------------------------------------------------
// Searching
// ---------------------------------------------------------------------------

/// `p` occurs in `s` starting at index `i`.
pub open spec fn occurs_at(s: Seq<char>, p: Seq<char>, i: int) -> bool {
    0 <= i && i + p.len() <= s.len() && s.subrange(i, i + p.len()) == p
}

/// `p` occurs somewhere in `s` (`str::contains`).
pub open spec fn contains_seq(s: Seq<char>, p: Seq<char>) -> bool {
    exists|i: int| occurs_at(s, p, i)
}

/// The first index at which `p` occurs in `s`, if any (`str::find`).
pub open spec fn first_occurrence(s: Seq<char>, p: Seq<char>) -> Option<int> {
    if contains_seq(s, p) {
        Some(choose|i: int| occurs_at(s, p, i) && forall|j: int| 0 <= j < i ==> !occurs_at(s, p, j))
    } else {
        None
    }
}

pub fn occurs_at_exec(s: &Vec<char>, p: &Vec<char>, i: usize) -> (b: bool)
    ensures
        b == occurs_at(s@, p@, i as int),
{
    if i > s.len() || p.len() > s.len() - i {
        return false;
    }
    let mut k: usize = 0;
    while k < p.len()
        invariant
            0 <= k <= p.len(),
            i + p.len() <= s.len(),
            forall|j: int| 0 <= j < k ==> s@[i + j] == p@[j],
        decreases p.len() - k,
    {
        if s[i + k] != p[k] {
            assert(s@.subrange(i as int, i + p.len())[k as int] != p@[k as int]);
            return false;
        }
        k = k + 1;
    }
    assert(s@.subrange(i as int, i + p.len()) =~= p@);
    true
}

/// The first index at which `p` occurs in `s` (`str::find`).
pub fn find_chars(s: &Vec<char>, p: &Vec<char>) -> (r: Option<usize>)
    ensures
        match r {
            Some(i) => first_occurrence(s@, p@) == Some(i as int) && occurs_at(s@, p@, i as int),
            None => first_occurrence(s@, p@) is None,
        },
{
    if p.len() == 0 {
        proof {
            assert(occurs_at(s@, p@, 0)) by {
                assert(s@.subrange(0, 0) =~= p@);
            }
            let w = choose|w: int|
                occurs_at(s@, p@, w) && forall|j: int| 0 <= j < w ==> !occurs_at(s@, p@, j);
            assert(w == 0);
        }
        return Some(0);
    }
    let mut i: usize = 0;
    while i < s.len()
        invariant
            0 <= i <= s.len(),
            p.len() > 0,
            forall|j: int| 0 <= j < i ==> !occurs_at(s@, p@, j),
        decreases s.len() - i,
    {
        if occurs_at_exec(s, p, i) {
            proof {
                let w = choose|w: int|
                    occurs_at(s@, p@, w) && forall|j: int| 0 <= j < w ==> !occurs_at(s@, p@, j);
                assert(occurs_at(s@, p@, i as int));
                if w < i {
                } else if w > i {
                    assert(!occurs_at(s@, p@, i as int));
                }
            }
            return Some(i);
        }
        i = i + 1;
    }
    proof {
        assert forall|j: int| !occurs_at(s@, p@, j) by {
            if 0 <= j && j + p@.len() <= s@.len() {
                assert(j < i);
            }
        }
    }
    None
}

/// Whether `p` occurs in `s`.
pub fn contains_chars(s: &Vec<char>, p: &Vec<char>) -> (b: bool)
    ensures
        b == contains_seq(s@, p@),
{
    match find_chars(s, p) {
        Some(_) => true,
        None => false,
    }
}

/// The first index of `c` in `s`, if any.
pub open spec fn first_index_of(s: Seq<char>, c: char) -> Option<int> {
    if exists|i: int| 0 <= i < s.len() && s[i] == c {
        Some(choose|i: int| 0 <= i < s.len() && s[i] == c && forall|j: int| 0 <= j < i ==> s[j] != c)
    } else {
        None
    }
}

pub fn find_char(s: &Vec<char>, c: char) -> (r: Option<usize>)
    ensures
        match r {
            Some(i) => first_index_of(s@, c) == Some(i as int) && i < s.len(),
            None => first_index_of(s@, c) is None,
        },
{
    let mut i: usize = 0;
    while i < s.len()
        invariant
            0 <= i <= s.len(),
            forall|j: int| 0 <= j < i ==> s@[j] != c,
        decreases s.len() - i,
    {
        if s[i] == c {
            proof {
                let w = choose|w: int|
                    0 <= w < s@.len() && s@[w] == c && forall|j: int| 0 <= j < w ==> s@[j] != c;
                assert(0 <= i < s@.len() && s@[i as int] == c);
                if w < i {
                } else if w > i {
                }
            }
            return Some(i);
        }
        i = i + 1;
    }
    None
}


/// The first index at or after `from` that holds `c`, if any.
pub open spec fn next_index_of(s: Seq<char>, c: char, from: int) -> Option<int> {
    if exists|i: int| from <= i < s.len() && s[i] == c {
        Some(
            choose|i: int|
                from <= i < s.len() && s[i] == c && forall|j: int| from <= j < i ==> s[j] != c,
        )
    } else {
        None
    }
}

pub proof fn lemma_next_index_of_unique(s: Seq<char>, c: char, from: int, i: int)
    requires
        0 <= from <= i < s.len(),
        s[i] == c,
        forall|j: int| from <= j < i ==> s[j] != c,
    ensures
        next_index_of(s, c, from) == Some(i),
{
    let w = choose|w: int|
        from <= w < s.len() && s[w] == c && forall|j: int| from <= j < w ==> s[j] != c;
    assert(from <= i < s.len() && s[i] == c);
    if w < i {
    } else if w > i {
    }
}

pub fn find_char_from(s: &Vec<char>, c: char, from: usize) -> (r: Option<usize>)
    requires
        from <= s.len(),
    ensures
        match r {
            Some(i) => next_index_of(s@, c, from as int) == Some(i as int) && from <= i < s.len(),
            None => next_index_of(s@, c, from as int) is None,
        },
{
    let mut i: usize = from;
    while i < s.len()
        invariant
            from <= i <= s.len(),
            forall|j: int| from <= j < i ==> s@[j] != c,
        decreases s.len() - i,
    {
        if s[i] == c {
            proof {
                lemma_next_index_of_unique(s@, c, from as int, i as int);
            }
            return Some(i);
        }
        i = i + 1;
    }
    None
}

// ---------------------------------------------------------------------------
// Lines
// ---------------------------------------------------------------------------

/// A line ended by `\n`, without a `\r` just before that `\n`.
pub open spec fn strip_cr(l: Seq<char>) -> Seq<char> {
    if l.len() > 0 && l.last() == '\r' {
        l.drop_last()
    } else {
        l
    }
}

/// The lines of `s` from index `from` on, as `str::lines` yields them: split at
/// `\n`, a `\r` before the `\n` dropped, no empty line after a final `\n`.
#[verifier::opaque]
pub open spec fn lines_from(s: Seq<char>, from: int) -> Seq<Seq<char>>
    decreases s.len() - from,
{
    if from < 0 || from >= s.len() {
        seq![]
    } else {
        match next_index_of(s, '\n', from) {
            None => seq![s.subrange(from, s.len() as int)],
            Some(i) => if from <= i < s.len() {
                seq![strip_cr(s.subrange(from, i))] + lines_from(s, i + 1)
            } else {
                seq![]
            },
        }
    }
}

pub proof fn lemma_lines_step(s: Seq<char>, from: int, r: Option<int>)
    requires
        0 <= from < s.len(),
        next_index_of(s, '\n', from) == r,
        r matches Some(i) ==> from <= i < s.len(),
    ensures
        r is None ==> lines_from(s, from) == seq![s.subrange(from, s.len() as int)],
        r matches Some(i) ==> lines_from(s, from) == seq![strip_cr(s.subrange(from, i))]
            + lines_from(s, i + 1),
{
    reveal(lines_from);
}

/// `str::lines` on the characters `s`.
pub open spec fn lines(s: Seq<char>) -> Seq<Seq<char>> {
    lines_from(s, 0)
}

/// The character views of a sequence of character vectors.
pub open spec fn views(v: Seq<Vec<char>>) -> Seq<Seq<char>> {
    v.map_values(|x: Vec<char>| x@)
}

pub fn strip_cr_exec(l: Vec<char>) -> (out: Vec<char>)
    ensures
        out@ == strip_cr(l@),
{
    let mut l = l;
    if l.len() > 0 && l[l.len() - 1] == '\r' {
        l.pop();
    }
    l
}

/// `str::lines`.
pub fn split_lines(s: &Vec<char>) -> (out: Vec<Vec<char>>)
    ensures
        views(out@) == lines(s@),
{
    let mut out: Vec<Vec<char>> = Vec::new();
    let mut from: usize = 0;
    while from < s.len()
        invariant
            0 <= from <= s.len(),
            views(out@) + lines_from(s@, from as int) == lines(s@),
        decreases s.len() - from,
    {
        let ghost old_out = out@;
        match find_char_from(s, '\n', from) {
            None => {
                proof {
                    lemma_lines_step(s@, from as int, None);
                }
                let rest = slice_chars(s, from, s.len());
                assert(lines_from(s@, from as int) == seq![rest@]);
                out.push(rest);
                assert(views(out@) == views(old_out).push(rest@));
                assert(lines_from(s@, s.len() as int) == Seq::<Seq<char>>::empty()) by {
                    reveal(lines_from);
                }
                assert(views(out@) + lines_from(s@, s.len() as int) =~= views(old_out)
                    + lines_from(s@, from as int));
                from = s.len();
            },
            Some(i) => {
                proof {
                    lemma_lines_step(s@, from as int, Some(i as int));
                }
                let line = strip_cr_exec(slice_chars(s, from, i));
                assert(lines_from(s@, from as int) == seq![line@] + lines_from(s@, i + 1));
                out.push(line);
                assert(views(out@) == views(old_out).push(line@));
                assert(views(out@) + lines_from(s@, i + 1) =~= views(old_out) + lines_from(
                    s@,
                    from as int,
                ));
                from = i + 1;
            },
        }
    }
    proof {
        reveal(lines_from);
        assert(lines_from(s@, from as int) == Seq::<Seq<char>>::empty());
        assert(views(out@) + Seq::<Seq<char>>::empty() == views(out@));
    }
    out
}

// ---------------------------------------------------------------------------
// Words
// ---------------------------------------------------------------------------

/// The first index at or after `from` holding whitespace, or `s.len()`.
pub open spec fn next_ws(s: Seq<char>, from: int) -> int
    decreases s.len() - from,
{
    if from < 0 || from >= s.len() {
        s.len() as int
    } else if is_ws(s[from]) {
        from
    } else {
        next_ws(s, from + 1)
    }
}

/// The first index at or after `from` holding non-whitespace, or `s.len()`.
pub open spec fn next_non_ws(s: Seq<char>, from: int) -> int
    decreases s.len() - from,
{
    if from < 0 || from >= s.len() {
        s.len() as int
    } else if !is_ws(s[from]) {
        from
    } else {
        next_non_ws(s, from + 1)
    }
}

pub proof fn lemma_next_ws_bounds(s: Seq<char>, from: int)
    requires
        0 <= from <= s.len(),
    ensures
        from <= next_ws(s, from) <= s.len(),
    decreases s.len() - from,
{
    if from < s.len() && !is_ws(s[from]) {
        lemma_next_ws_bounds(s, from + 1);
    }
}

pub proof fn lemma_next_non_ws_bounds(s: Seq<char>, from: int)
    requires
        0 <= from <= s.len(),
    ensures
        from <= next_non_ws(s, from) <= s.len(),
    decreases s.len() - from,
{
    if from < s.len() && is_ws(s[from]) {
        lemma_next_non_ws_bounds(s, from + 1);
    }
}

/// The whitespace-separated words of `s` from index `from` on
/// (`str::split_whitespace`).
#[verifier::opaque]
pub open spec fn words_from(s: Seq<char>, from: int) -> Seq<Seq<char>>
    decreases s.len() - from,
{
    if from < 0 || from >= s.len() {
        seq![]
    } else {
        let a = next_non_ws(s, from);
        if a >= s.len() || a < from {
            seq![]
        } else {
            let b = next_ws(s, a);
            if b <= a || b > s.len() {
                seq![]
            } else {
                seq![s.subrange(a, b)] + words_from(s, b)
            }
        }
    }
}

pub open spec fn words(s: Seq<char>) -> Seq<Seq<char>> {
    words_from(s, 0)
}

/// The pieces of `parts` with `sep` between each two of them (`join`).
pub open spec fn join(parts: Seq<Seq<char>>, sep: Seq<char>) -> Seq<char>
    decreases parts.len(),
{
    if parts.len() == 0 {
        seq![]
    } else if parts.len() == 1 {
        parts[0]
    } else {
        join(parts.drop_last(), sep) + sep + parts.last()
    }
}

/// `s` with runs of whitespace collapsed to one space and no whitespace at
/// either end (`split_whitespace().collect::<Vec<_>>().join(" ")`).
pub open spec fn normalize_ws(s: Seq<char>) -> Seq<char> {
    join(words(s), seq![' '])
}

pub proof fn lemma_join_push(parts: Seq<Seq<char>>, sep: Seq<char>, x: Seq<char>)
    ensures
        join(parts.push(x), sep) == if parts.len() == 0 {
            x
        } else {
            join(parts, sep) + sep + x
        },
{
    assert(parts.push(x).drop_last() == parts);
    if parts.len() == 0 {
        assert(parts.push(x).len() == 1);
    }
}

/// Appends `x` to `acc`, with `sep` first when `acc` already holds a piece.
pub fn join_push(acc: &mut Vec<char>, first: bool, sep: &Vec<char>, x: &Vec<char>)
    ensures
        final(acc)@ == if first {
            old(acc)@ + x@
        } else {
            old(acc)@ + sep@ + x@
        },
{
    if !first {
        push_all(acc, sep);
    }
    push_all(acc, x);
}

/// `join` of the pieces `parts` with `sep`.
pub fn join_chars(parts: &Vec<Vec<char>>, sep: &Vec<char>) -> (out: Vec<char>)
    ensures
        out@ == join(views(parts@), sep@),
{
    let mut out: Vec<char> = Vec::new();
    let mut i: usize = 0;
    while i < parts.len()
        invariant
            0 <= i <= parts.len(),
            out@ == join(views(parts@).take(i as int), sep@),
        decreases parts.len() - i,
    {
        proof {
            lemma_join_push(views(parts@).take(i as int), sep@, parts@[i as int]@);
            assert(views(parts@).take(i as int).push(parts@[i as int]@) == views(parts@).take(
                i + 1,
            ));
        }
        if i == 0 {
            push_all(&mut out, &parts[i]);
        } else {
            push_all(&mut out, sep);
            push_all(&mut out, &parts[i]);
        }
        i = i + 1;
    }
    assert(views(parts@).take(parts.len() as int) == views(parts@));
    out
}

proof fn lemma_words_step(s: Seq<char>, from: int, a: int, b: int)
    requires
        0 <= from < s.len(),
        a == next_non_ws(s, from),
        b == next_ws(s, a),
    ensures
        a < s.len() ==> a < b <= s.len() && words_from(s, from) == seq![s.subrange(a, b)]
            + words_from(s, b),
        a >= s.len() ==> words_from(s, from) == Seq::<Seq<char>>::empty(),
{
    reveal(words_from);
    lemma_next_non_ws_bounds(s, from);
    if a < s.len() {
        lemma_next_ws_bounds(s, a);
        lemma_non_ws_at_next(s, from);
        assert(next_ws(s, a) == next_ws(s, a + 1));
        lemma_next_ws_bounds(s, a + 1);
    }
}

proof fn lemma_non_ws_at_next(s: Seq<char>, from: int)
    requires
        0 <= from <= s.len(),
        next_non_ws(s, from) < s.len(),
    ensures
        !is_ws(s[next_non_ws(s, from)]),
    decreases s.len() - from,
{
    if from < s.len() && is_ws(s[from]) {
        lemma_non_ws_at_next(s, from + 1);
    }
}

fn skip_ws(s: &Vec<char>, from: usize) -> (a: usize)
    requires
        from <= s.len(),
    ensures
        a as int == next_non_ws(s@, from as int),
        from <= a <= s.len(),
{
    proof {
        lemma_next_non_ws_bounds(s@, from as int);
    }
    let mut a = from;
    while a < s.len() && is_whitespace(s[a])
        invariant
            from <= a <= s.len(),
            next_non_ws(s@, from as int) == next_non_ws(s@, a as int),
        decreases s.len() - a,
    {
        a = a + 1;
    }
    a
}

fn skip_word(s: &Vec<char>, a: usize) -> (b: usize)
    requires
        a <= s.len(),
    ensures
        b as int == next_ws(s@, a as int),
{
    let mut b = a;
    while b < s.len() && !is_whitespace(s[b])
        invariant
            a <= b <= s.len(),
            next_ws(s@, a as int) == next_ws(s@, b as int),
        decreases s.len() - b,
    {
        b = b + 1;
    }
    b
}

/// `str::split_whitespace`.
pub fn split_words(s: &Vec<char>) -> (out: Vec<Vec<char>>)
    ensures
        views(out@) == words(s@),
{
    let mut out: Vec<Vec<char>> = Vec::new();
    let mut from: usize = 0;
    while from < s.len()
        invariant
            0 <= from <= s.len(),
            views(out@) + words_from(s@, from as int) == words(s@),
        decreases s.len() - from,
    {
        let a = skip_ws(s, from);
        let b = skip_word(s, a);
        proof {
            lemma_words_step(s@, from as int, a as int, b as int);
        }
        if a >= s.len() {
            assert(words_from(s@, s.len() as int) == Seq::<Seq<char>>::empty()) by {
                reveal(words_from);
            }
            from = s.len();
        } else {
            let ghost old_out = out@;
            let w = slice_chars(s, a, b);
            out.push(w);
            assert(views(out@) == views(old_out).push(w@));
            assert(views(out@) + words_from(s@, b as int) == views(old_out) + words_from(
                s@,
                from as int,
            ));
            from = b;
        }
    }
    proof {
        reveal(words_from);
        assert(words_from(s@, from as int) == Seq::<Seq<char>>::empty());
        assert(views(out@) + Seq::<Seq<char>>::empty() == views(out@));
    }
    out
}

/// `s` with whitespace runs collapsed, see `normalize_ws`.
pub fn normalize_ws_chars(s: &Vec<char>) -> (out: Vec<char>)
    ensures
        out@ == normalize_ws(s@),
{
    let ws = split_words(s);
    let sep = vec![' '];
    assert(sep@ == seq![' ']);
    join_chars(&ws, &sep)
}


// ---------------------------------------------------------------------------
// Integers
// ---------------------------------------------------------------------------

pub open spec fn is_digit(c: char) -> bool {
    '0' <= c <= '9'
}

pub open spec fn all_digits(s: Seq<char>) -> bool {
    forall|i: int| 0 <= i < s.len() ==> is_digit(#[trigger] s[i])
}

/// The value of a string of decimal digits.
pub open spec fn digits_value(s: Seq<char>) -> int
    decreases s.len(),
{
    if s.len() == 0 {
        0
    } else {
        digits_value(s.drop_last()) * 10 + (s.last() as u32 - '0' as u32)
    }
}

/// What `<i64 as FromStr>::from_str` returns: an optional `+` or `-`, then one
/// or more ASCII digits, the value within `i64`.
#[verifier::opaque]
pub open spec fn parse_i64(s: Seq<char>) -> Option<i64> {
    let signed = s.len() > 0 && (s[0] == '-' || s[0] == '+');
    let neg = s.len() > 0 && s[0] == '-';
    let ds = if signed {
        s.drop_first()
    } else {
        s
    };
    if ds.len() == 0 || !all_digits(ds) {
        None
    } else {
        let v = if neg {
            -digits_value(ds)
        } else {
            digits_value(ds)
        };
        if i64::MIN <= v <= i64::MAX {
            Some(v as i64)
        } else {
            None
        }
    }
}

proof fn lemma_digits_value_nonneg(s: Seq<char>)
    requires
        all_digits(s),
    ensures
        digits_value(s) >= 0,
    decreases s.len(),
{
    if s.len() > 0 {
        assert(all_digits(s.drop_last()));
        lemma_digits_value_nonneg(s.drop_last());
    }
}

proof fn lemma_cap_step(v: int, d: int, cap: int)
    requires
        v >= 0,
        0 <= d <= 9,
        cap > 0,
    ensures
        (if (if v < cap {
            v
        } else {
            cap
        }) * 10 + d < cap {
            (if v < cap {
                v
            } else {
                cap
            }) * 10 + d
        } else {
            cap
        }) == (if v * 10 + d < cap {
            v * 10 + d
        } else {
            cap
        }),
{
    if v >= cap {
        assert(v * 10 + d >= cap) by (nonlinear_arith)
            requires
                v >= cap,
                cap > 0,
                d >= 0,
        ;
        assert(cap * 10 + d >= cap) by (nonlinear_arith)
            requires
                cap > 0,
                d >= 0,
        ;
    }
}

/// `<i64 as FromStr>::from_str`, with any error as `None`.
pub fn parse_i64_chars(s: &Vec<char>) -> (r: Option<i64>)
    ensures
        r == parse_i64(s@),
{
    reveal(parse_i64);
    let signed = s.len() > 0 && (s[0] == '-' || s[0] == '+');
    let neg = s.len() > 0 && s[0] == '-';
    let start: usize = if signed {
        1
    } else {
        0
    };
    let ghost ds = if signed {
        s@.drop_first()
    } else {
        s@
    };
    assert(ds == s@.subrange(start as int, s.len() as int));
    if start >= s.len() {
        return None;
    }
    // 2^63 + 1: every value at or above it is out of range either way
    let cap: u128 = 9223372036854775809;
    let mut acc: u128 = 0;
    let mut i: usize = start;
    while i < s.len()
        invariant
            start <= i <= s.len(),
            start < s.len(),
            signed == (s@.len() > 0 && (s@[0] == '-' || s@[0] == '+')),
            start == (if signed {
                1usize
            } else {
                0usize
            }),
            ds == (if signed {
                s@.drop_first()
            } else {
                s@
            }),
            ds == s@.subrange(start as int, s.len() as int),
            acc <= cap,
            cap == 9223372036854775809u128,
            all_digits(s@.subrange(start as int, i as int)),
            acc as int == (if digits_value(s@.subrange(start as int, i as int)) < cap {
                digits_value(s@.subrange(start as int, i as int))
            } else {
                cap as int
            }),
        decreases s.len() - i,
    {
        let c = s[i];
        if !('0' <= c && c <= '9') {
            assert(ds[i - start] == c);
            assert(!all_digits(ds));
            reveal(parse_i64);
            return None;
        }
        let d = (c as u32 - '0' as u32) as u128;
        proof {
            let pre = s@.subrange(start as int, i as int);
            let nxt = s@.subrange(start as int, i + 1);
            assert(nxt.drop_last() == pre);
            assert(nxt.last() == c);
            assert(all_digits(nxt));
            lemma_digits_value_nonneg(pre);
            lemma_cap_step(digits_value(pre), d as int, cap as int);
        }
        let next = acc * 10 + d;
        acc = if next < cap {
            next
        } else {
            cap
        };
        i = i + 1;
    }
    assert(s@.subrange(start as int, s.len() as int) == ds);
    if neg {
        if acc <= 9223372036854775808 {
            let v: i128 = -(acc as i128);
            Some(v as i64)
        } else {
            None
        }
    } else {
        if acc <= 9223372036854775807 {
            Some(acc as i64)
        } else {
            None
        }
    }
}

// ---------------------------------------------------------------------------
// Case
// ---------------------------------------------------------------------------

/// ASCII lowercase of one character; other characters unchanged.
pub open spec fn ascii_lower(c: char) -> char {
    if 'A' <= c <= 'Z' {
        ((c as u32) + 32) as char
    } else {
        c
    }
}

/// ASCII lowercase of `s` (SQLite's `lower()`).
pub open spec fn ascii_lower_seq(s: Seq<char>) -> Seq<char> {
    s.map_values(|c: char| ascii_lower(c))
}

pub fn ascii_lower_char(c: char) -> (r: char)
    ensures
        r == ascii_lower(c),
{
    if 'A' <= c && c <= 'Z' {
        ((c as u8) + 32) as char
    } else {
        c
    }
}

pub fn ascii_lower_chars(s: &Vec<char>) -> (out: Vec<char>)
    ensures
        out@ == ascii_lower_seq(s@),
{
    let mut out: Vec<char> = Vec::new();
    let mut i: usize = 0;
    while i < s.len()
        invariant
            0 <= i <= s.len(),
            out@ == ascii_lower_seq(s@.take(i as int)),
        decreases s.len() - i,
    {
        out.push(ascii_lower_char(s[i]));
        i = i + 1;
        assert(ascii_lower_seq(s@.take(i as int)) == ascii_lower_seq(s@.take((i - 1) as int)).push(
            ascii_lower(s@[i - 1]),
        ));
    }
    assert(s@.take(s.len() as int) == s@);
    out
}


/// Whether two character sequences are equal.
pub fn chars_eq(a: &Vec<char>, b: &Vec<char>) -> (r: bool)
    ensures
        r == (a@ == b@),
{
    if a.len() != b.len() {
        return false;
    }
    let mut i: usize = 0;
    while i < a.len()
        invariant
            0 <= i <= a.len(),
            a.len() == b.len(),
            forall|j: int| 0 <= j < i ==> a@[j] == b@[j],
        decreases a.len() - i,
    {
        if a[i] != b[i] {
            return false;
        }
        i = i + 1;
    }
    assert(a@ =~= b@);
    true
}


/// Whether a string holds exactly the characters of a literal.
pub fn text_is(s: &String, lit: &str) -> (b: bool)
    ensures
        b == (s@ == lit@),
{
    let l = lit.to_owned();
    *s == l
}


// ---------------------------------------------------------------------------
// Decimal numbers
// ---------------------------------------------------------------------------

/// The digit character for `d` in 0..10.
pub open spec fn digit_char(d: nat) -> char {
    (d + 48) as char
}

/// The decimal digits of `n`, without leading zeros ("0" for zero).
pub open spec fn decimal(n: nat) -> Seq<char>
    decreases n,
{
    if n < 10 {
        seq![digit_char(n)]
    } else {
        decimal(n / 10).push(digit_char(n % 10))
    }
}

/// Appends the decimal digits of `n`.
pub fn push_decimal(out: &mut Vec<char>, n: u128)
    ensures
        final(out)@ == old(out)@ + decimal(n as nat),
    decreases n,
{
    if n >= 10 {
        push_decimal(out, n / 10);
    }
    let d: u8 = (n % 10) as u8;
    let c = (d + 48) as char;
    assert(c == digit_char((n % 10) as nat));
    out.push(c);
    proof {
        if n >= 10 {
            assert(old(out)@ + decimal(n as nat) == (old(out)@ + decimal((n / 10) as nat)).push(c));
        } else {
            assert(old(out)@ + decimal(n as nat) == old(out)@.push(c));
        }
    }
}


// ---------------------------------------------------------------------------
// Unicode lowercase
// ---------------------------------------------------------------------------

/// The Unicode lowercase mapping of a text, as `str::to_lowercase` computes
/// it from the Unicode tables of the standard library.
pub uninterp spec fn unicode_lowercase(s: Seq<char>) -> Seq<char>;

/// `str::to_lowercase`. Its result is named, not stated: it is the Unicode
/// lowercase mapping of the text, which depends on the text alone.
#[verifier::external_body]
pub fn to_lowercase(s: &str) -> (r: String)
    ensures
        r@ == unicode_lowercase(s@),
{
    s.to_lowercase()
}

/// Whether `s` holds exactly the characters of a literal.
pub fn chars_are(s: &Vec<char>, lit: &str) -> (b: bool)
    ensures
        b == (s@ == lit@),
{
    chars_eq(s, &to_chars(lit))
}

/// Whether `s` contains the characters of a literal.
pub fn contains_text(s: &Vec<char>, lit: &str) -> (b: bool)
    ensures
        b == contains_seq(s@, lit@),
{
    contains_chars(s, &to_chars(lit))
}

/// Whether `s` starts with the characters of a literal.
pub fn starts_with_text(s: &Vec<char>, lit: &str) -> (b: bool)
    ensures
        b == (lit@.len() <= s@.len() && s@.take(lit@.len() as int) == lit@),
{
    let p = to_chars(lit);
    if p.len() > s.len() {
        return false;
    }
    let mut i: usize = 0;
    while i < p.len()
        invariant
            0 <= i <= p.len() <= s.len(),
            p@ == lit@,
            forall|j: int| 0 <= j < i ==> s@[j] == p@[j],
        decreases p.len() - i,
    {
        if s[i] != p[i] {
            assert(s@.take(p@.len() as int)[i as int] != p@[i as int]);
            return false;
        }
        i = i + 1;
    }
    assert(s@.take(p@.len() as int) =~= p@);
    true
}

} // verus!
