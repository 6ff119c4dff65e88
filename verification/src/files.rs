//! File names of imported paths: the final component, its extension and its
//! stem, as `std::path::Path` reads them on the platform the app runs on.
//! On macOS and other Unix systems only `/` separates components. On Windows
//! both `/` and `\` do, and a path may start with a prefix (a drive such as
//! `C:`, a share `\\server\share`, or a verbatim `\\?\` prefix, after which
//! only `\` separates) that is no component.
use vstd::prelude::*;

use crate::platform::HostOs;
use crate::text::{ascii_lower_chars, ascii_lower_seq, from_chars, slice_chars, to_chars, views};

verus! {

/// The pieces of `s` between the separators `c` from index `from` on
/// (`str::split`): always at least one piece.
#[verifier::opaque]
pub open spec fn split_from(s: Seq<char>, c: char, from: int) -> Seq<Seq<char>>
    decreases s.len() - from,
{
    if from < 0 || from > s.len() {
        seq![]
    } else {
        match crate::text::next_index_of(s, c, from) {
            None => seq![s.subrange(from, s.len() as int)],
            Some(i) => if from <= i < s.len() {
                seq![s.subrange(from, i)] + split_from(s, c, i + 1)
            } else {
                seq![]
            },
        }
    }
}

pub proof fn lemma_split_step(s: Seq<char>, c: char, from: int, r: Option<int>)
    requires
        0 <= from <= s.len(),
        crate::text::next_index_of(s, c, from) == r,
        r matches Some(i) ==> from <= i < s.len(),
    ensures
        r is None ==> split_from(s, c, from) == seq![s.subrange(from, s.len() as int)],
        r matches Some(i) ==> split_from(s, c, from) == seq![s.subrange(from, i)] + split_from(
            s,
            c,
            i + 1,
        ),
{
    reveal(split_from);
}

/// `str::split` on one character.
pub open spec fn split_on(s: Seq<char>, c: char) -> Seq<Seq<char>> {
    split_from(s, c, 0)
}

pub fn split_on_char(s: &Vec<char>, c: char) -> (out: Vec<Vec<char>>)
    ensures
        views(out@) == split_on(s@, c),
{
    let mut out: Vec<Vec<char>> = Vec::new();
    let mut from: usize = 0;
    loop
        invariant
            0 <= from <= s.len(),
            views(out@) + split_from(s@, c, from as int) == split_on(s@, c),
        decreases s.len() - from,
    {
        let ghost old_out = out@;
        match crate::text::find_char_from(s, c, from) {
            None => {
                proof {
                    lemma_split_step(s@, c, from as int, None);
                }
                let rest = slice_chars(s, from, s.len());
                assert(split_from(s@, c, from as int) == seq![rest@]);
                out.push(rest);
                assert(views(out@) == views(old_out).push(rest@));
                assert(views(out@) =~= views(old_out) + split_from(
                    s@,
                    c,
                    from as int,
                ));
                return out;
            },
            Some(i) => {
                proof {
                    lemma_split_step(s@, c, from as int, Some(i as int));
                }
                let piece = slice_chars(s, from, i);
                assert(split_from(s@, c, from as int) == seq![piece@] + split_from(
                    s@,
                    c,
                    i + 1,
                ));
                out.push(piece);
                assert(views(out@) == views(old_out).push(piece@));
                assert(views(out@) + split_from(s@, c, i + 1) =~= views(
                    old_out,
                ) + split_from(s@, c, from as int));
                from = i + 1;
            },
        }
    }
}

pub open spec fn dot() -> Seq<char> {
    seq!['.']
}

pub open spec fn dot_dot() -> Seq<char> {
    seq!['.', '.']
}

/// `s` with every `/` read as `\`.
pub open spec fn backslashed(s: Seq<char>) -> Seq<char> {
    s.map_values(|c: char| if c == '/' { '\\' } else { c })
}

/// A Windows verbatim path: it starts with exactly `\\?\`.
pub open spec fn is_verbatim(s: Seq<char>) -> bool {
    s.len() >= 4 && s[0] == '\\' && s[1] == '\\' && s[2] == '?' && s[3] == '\\'
}

/// A Windows path that starts with a drive: an ASCII letter and `:`.
pub open spec fn is_drive(s: Seq<char>) -> bool {
    s.len() >= 2 && (('a' <= s[0] && s[0] <= 'z') || ('A' <= s[0] && s[0] <= 'Z')) && s[1] == ':'
}

pub open spec fn unc() -> Seq<char> {
    seq!['U', 'N', 'C']
}

/// The pieces of `p` from index `k` on, none when it has fewer.
pub open spec fn pieces_from(p: Seq<Seq<char>>, k: int) -> Seq<Seq<char>> {
    if p.len() >= k {
        p.subrange(k, p.len() as int)
    } else {
        seq![]
    }
}

/// The pieces of a Windows path after its prefix, split at its separators.
/// A verbatim path drops `UNC`, the server and the share, or else its first
/// piece, and splits at `\` alone. Any other path reads `/` as `\`; it drops
/// a share prefix (two separators, then a server and a share that are both
/// named) or a drive.
pub open spec fn windows_pieces(s: Seq<char>) -> Seq<Seq<char>> {
    if is_verbatim(s) {
        let p = split_on(s.subrange(4, s.len() as int), '\\');
        if p.len() > 0 && p[0] == unc() {
            pieces_from(p, 3)
        } else {
            pieces_from(p, 1)
        }
    } else {
        let n = backslashed(s);
        if n.len() >= 2 && n[0] == '\\' && n[1] == '\\' {
            let p = split_on(n.subrange(2, n.len() as int), '\\');
            if p.len() >= 2 && p[0].len() > 0 && p[1].len() > 0 {
                pieces_from(p, 2)
            } else {
                split_on(n, '\\')
            }
        } else if is_drive(n) {
            split_on(n.subrange(2, n.len() as int), '\\')
        } else {
            split_on(n, '\\')
        }
    }
}

/// The pieces of a path after any prefix, split at the platform's separators.
pub open spec fn path_pieces(os: HostOs, path: Seq<char>) -> Seq<Seq<char>> {
    match os {
        HostOs::Windows => windows_pieces(path),
        _ => split_on(path, '/'),
    }
}

/// The last piece that names something (not empty, not `.`), if any.
pub open spec fn last_named(pieces: Seq<Seq<char>>) -> Option<Seq<char>>
    decreases pieces.len(),
{
    if pieces.len() == 0 {
        None
    } else if pieces.last().len() > 0 && pieces.last() != dot() {
        Some(pieces.last())
    } else {
        last_named(pieces.drop_last())
    }
}

/// `Path::file_name`: the final component, unless the path ends in `..` or
/// has no component that names something.
pub open spec fn file_name(os: HostOs, path: Seq<char>) -> Option<Seq<char>> {
    match last_named(path_pieces(os, path)) {
        Some(n) => if n == dot_dot() {
            None
        } else {
            Some(n)
        },
        None => None,
    }
}

/// The index of the last `.` in `n`, if any.
pub open spec fn last_dot(n: Seq<char>) -> Option<int> {
    if exists|i: int| 0 <= i < n.len() && n[i] == '.' {
        Some(choose|i: int| 0 <= i < n.len() && n[i] == '.' && forall|j: int| i < j < n.len() ==> n[j] != '.')
    } else {
        None
    }
}

/// The extension of a file name: what follows its last `.`, unless that `.`
/// is the name's first character.
pub open spec fn name_extension(n: Seq<char>) -> Option<Seq<char>> {
    match last_dot(n) {
        Some(i) => if i > 0 {
            Some(n.subrange(i + 1, n.len() as int))
        } else {
            None
        },
        None => None,
    }
}

/// `Path::extension`: the extension of the file name.
pub open spec fn extension(os: HostOs, path: Seq<char>) -> Option<Seq<char>> {
    match file_name(os, path) {
        Some(n) => name_extension(n),
        None => None,
    }
}

/// `Path::file_stem`: the file name without its extension.
pub open spec fn file_stem(os: HostOs, path: Seq<char>) -> Option<Seq<char>> {
    match file_name(os, path) {
        Some(n) => match last_dot(n) {
            Some(i) => if i > 0 {
                Some(n.subrange(0, i))
            } else {
                Some(n)
            },
            None => Some(n),
        },
        None => None,
    }
}

/// The lowercase extension of a file name, empty when it has none.
pub open spec fn name_ext_spec(n: Seq<char>) -> Seq<char> {
    match name_extension(n) {
        Some(e) => ascii_lower_seq(e),
        None => seq![],
    }
}

/// The lowercase extension of a path, empty when it has none.
pub open spec fn ext_of_spec(os: HostOs, path: Seq<char>) -> Seq<char> {
    match extension(os, path) {
        Some(e) => ascii_lower_seq(e),
        None => seq![],
    }
}

fn last_named_exec(pieces: &Vec<Vec<char>>) -> (r: Option<usize>)
    ensures
        match r {
            Some(k) => k < pieces.len() && last_named(views(pieces@)) == Some(
                pieces@[k as int]@,
            ),
            None => last_named(views(pieces@)) is None,
        },
{
    let mut k: usize = pieces.len();
    assert(views(pieces@).take(k as int) =~= views(pieces@));
    while k > 0
        invariant
            k <= pieces.len(),
            last_named(views(pieces@)) == last_named(
                views(pieces@).take(k as int),
            ),
        decreases k,
    {
        let ghost vs = views(pieces@).take(k as int);
        assert(vs.last() == pieces@[k - 1]@);
        assert(vs.drop_last() == views(pieces@).take(k - 1));
        let p = &pieces[k - 1];
        let is_dot = p.len() == 1 && p[0] == '.';
        assert(is_dot == (p@ == dot())) by {
            if p@ == dot() {
                assert(p@[0] == '.');
            }
            if is_dot {
                assert(p@ =~= dot());
            }
        }
        if p.len() > 0 && !is_dot {
            return Some(k - 1);
        }
        k = k - 1;
    }
    assert(views(pieces@).take(0) == Seq::<Seq<char>>::empty());
    None
}

fn backslashed_exec(s: &Vec<char>) -> (out: Vec<char>)
    ensures
        out@ == backslashed(s@),
{
    let mut out: Vec<char> = Vec::new();
    let mut i: usize = 0;
    while i < s.len()
        invariant
            0 <= i <= s.len(),
            out@ == backslashed(s@.take(i as int)),
        decreases s.len() - i,
    {
        let c = s[i];
        out.push(if c == '/' { '\\' } else { c });
        assert(s@.take(i + 1) == s@.take(i as int).push(c));
        assert(out@ =~= backslashed(s@.take(i + 1)));
        i = i + 1;
    }
    assert(s@.take(s.len() as int) == s@);
    out
}

fn pieces_from_exec(p: &Vec<Vec<char>>, k: usize) -> (out: Vec<Vec<char>>)
    ensures
        views(out@) == pieces_from(views(p@), k as int),
{
    let mut out: Vec<Vec<char>> = Vec::new();
    if p.len() < k {
        assert(views(out@) =~= Seq::<Seq<char>>::empty());
        return out;
    }
    let mut i: usize = k;
    while i < p.len()
        invariant
            k <= i <= p.len(),
            views(out@) == views(p@).subrange(k as int, i as int),
        decreases p.len() - i,
    {
        let x = slice_chars(&p[i], 0, p[i].len());
        assert(x@ =~= p@[i as int]@);
        let ghost before = out@;
        out.push(x);
        assert(views(out@) =~= views(before).push(x@));
        assert(views(p@).subrange(k as int, i + 1) =~= views(p@).subrange(k as int, i as int).push(
            p@[i as int]@,
        ));
        i = i + 1;
    }
    out
}

fn is_unc(x: &Vec<char>) -> (b: bool)
    ensures
        b == (x@ == unc()),
{
    let b = x.len() == 3 && x[0] == 'U' && x[1] == 'N' && x[2] == 'C';
    if b {
        assert(x@ =~= unc());
    }
    proof {
        if x@ == unc() {
            assert(x@[0] == 'U' && x@[1] == 'N' && x@[2] == 'C');
        }
    }
    b
}

fn windows_pieces_exec(s: &Vec<char>) -> (out: Vec<Vec<char>>)
    ensures
        views(out@) == windows_pieces(s@),
{
    if s.len() >= 4 && s[0] == '\\' && s[1] == '\\' && s[2] == '?' && s[3] == '\\' {
        let rest = slice_chars(s, 4, s.len());
        let p = split_on_char(&rest, '\\');
        if p.len() > 0 && is_unc(&p[0]) {
            pieces_from_exec(&p, 3)
        } else {
            pieces_from_exec(&p, 1)
        }
    } else {
        let n = backslashed_exec(s);
        if n.len() >= 2 && n[0] == '\\' && n[1] == '\\' {
            let rest = slice_chars(&n, 2, n.len());
            let p = split_on_char(&rest, '\\');
            if p.len() >= 2 && p[0].len() > 0 && p[1].len() > 0 {
                pieces_from_exec(&p, 2)
            } else {
                split_on_char(&n, '\\')
            }
        } else if n.len() >= 2 && (('a' <= n[0] && n[0] <= 'z') || ('A' <= n[0] && n[0] <= 'Z'))
            && n[1] == ':' {
            let rest = slice_chars(&n, 2, n.len());
            split_on_char(&rest, '\\')
        } else {
            split_on_char(&n, '\\')
        }
    }
}

/// The pieces of `path` after any prefix (see `path_pieces`).
fn path_pieces_exec(os: HostOs, path: &Vec<char>) -> (out: Vec<Vec<char>>)
    ensures
        views(out@) == path_pieces(os, path@),
{
    match os {
        HostOs::Windows => windows_pieces_exec(path),
        _ => split_on_char(path, '/'),
    }
}

/// The file name of `path` (see `file_name`), as characters.
pub fn file_name_chars(os: HostOs, path: &Vec<char>) -> (r: Option<Vec<char>>)
    ensures
        match r {
            Some(n) => file_name(os, path@) == Some(n@),
            None => file_name(os, path@) is None,
        },
{
    let pieces = path_pieces_exec(os, path);
    match last_named_exec(&pieces) {
        Some(k) => {
            let n = slice_chars(&pieces[k], 0, pieces[k].len());
            assert(n@ == pieces@[k as int]@);
            if n.len() == 2 && n[0] == '.' && n[1] == '.' {
                assert(n@ =~= dot_dot());
                None
            } else {
                assert(n@ != dot_dot()) by {
                    if n@ == dot_dot() {
                        assert(n@[0] == '.' && n@[1] == '.');
                    }
                }
                Some(n)
            }
        },
        None => None,
    }
}

fn last_dot_exec(n: &Vec<char>) -> (r: Option<usize>)
    ensures
        match r {
            Some(i) => last_dot(n@) == Some(i as int) && i < n.len(),
            None => last_dot(n@) is None,
        },
{
    let mut k: usize = n.len();
    while k > 0
        invariant
            k <= n.len(),
            forall|j: int| k <= j < n.len() ==> n@[j] != '.',
        decreases k,
    {
        if n[k - 1] == '.' {
            proof {
                let i = (k - 1) as int;
                let w = choose|w: int|
                    0 <= w < n@.len() && n@[w] == '.' && forall|j: int|
                        w < j < n@.len() ==> n@[j] != '.';
                assert(0 <= i < n@.len() && n@[i] == '.');
                if w < i {
                } else if w > i {
                }
            }
            return Some(k - 1);
        }
        k = k - 1;
    }
    None
}

/// The extension of a file name (see `name_extension`), as characters.
pub fn name_extension_chars(n: &Vec<char>) -> (r: Option<Vec<char>>)
    ensures
        match r {
            Some(e) => name_extension(n@) == Some(e@),
            None => name_extension(n@) is None,
        },
{
    match last_dot_exec(n) {
        Some(i) => if i > 0 {
            Some(slice_chars(n, i + 1, n.len()))
        } else {
            None
        },
        None => None,
    }
}

/// `Path::extension` of `path`, as characters.
pub fn extension_chars(os: HostOs, path: &Vec<char>) -> (r: Option<Vec<char>>)
    ensures
        match r {
            Some(e) => extension(os, path@) == Some(e@),
            None => extension(os, path@) is None,
        },
{
    match file_name_chars(os, path) {
        Some(n) => name_extension_chars(&n),
        None => None,
    }
}

/// `Path::file_stem` of `path`, as characters.
pub fn file_stem_chars(os: HostOs, path: &Vec<char>) -> (r: Option<Vec<char>>)
    ensures
        match r {
            Some(e) => file_stem(os, path@) == Some(e@),
            None => file_stem(os, path@) is None,
        },
{
    match file_name_chars(os, path) {
        Some(n) => match last_dot_exec(&n) {
            Some(i) => if i > 0 {
                Some(slice_chars(&n, 0, i))
            } else {
                Some(n)
            },
            None => Some(n),
        },
        None => None,
    }
}

/// The lowercase extension of a file name, empty when it has none.
pub fn name_ext_chars(n: &Vec<char>) -> (out: Vec<char>)
    ensures
        out@ == name_ext_spec(n@),
{
    match name_extension_chars(n) {
        Some(e) => ascii_lower_chars(&e),
        None => Vec::new(),
    }
}

/// The lowercase extension of `path`, empty when it has none.
pub fn ext_of_chars(os: HostOs, path: &Vec<char>) -> (out: Vec<char>)
    ensures
        out@ == ext_of_spec(os, path@),
{
    match extension_chars(os, path) {
        Some(e) => ascii_lower_chars(&e),
        None => Vec::new(),
    }
}

/// The lowercase extension of `path` on the platform `os`, empty when it has
/// none.
pub fn ext_of(os: HostOs, path: &str) -> (out: String)
    ensures
        out@ == ext_of_spec(os, path@),
{
    let p = to_chars(path);
    let e = ext_of_chars(os, &p);
    from_chars(e.as_slice())
}

} // verus!
