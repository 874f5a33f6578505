//! File names: where a received file lands, and under which name.

use vstd::prelude::*;
use vstd::string::*;

use crate::text::{chars_of, decimal_text, same_text, text_of};

verus! {

// ---- Stem and extension -------------------------------------------------

/// The position of the last `c` in `s`, or -1 where there is none.
pub open spec fn last_index(s: Seq<char>, c: char) -> int
    decreases s.len(),
{
    if s.len() == 0 {
        -1
    } else if s.last() == c {
        s.len() - 1
    } else {
        last_index(s.drop_last(), c)
    }
}

/// The part of a file name before its last dot. A name without a dot, or whose only
/// dot comes first, is all stem.
pub open spec fn stem(name: Seq<char>) -> Seq<char> {
    if last_index(name, '.') > 0 {
        name.take(last_index(name, '.'))
    } else {
        name
    }
}

/// The part of a file name after its last dot; empty where the name is all stem.
pub open spec fn extension(name: Seq<char>) -> Seq<char> {
    if last_index(name, '.') > 0 {
        name.skip(last_index(name, '.') + 1)
    } else {
        seq![]
    }
}

/// Splits a file name into stem and extension.
pub fn split_name(name: &str) -> (parts: (&str, &str))
    ensures
        parts.0@ == stem(name@),
        parts.1@ == extension(name@),
{
    let chars = chars_of(name);
    let mut i: usize = chars.len();
    assert(chars@.take(i as int) =~= chars@);
    while i > 0 && chars[i - 1] != '.'
        invariant
            i <= chars@.len(),
            last_index(chars@, '.') == last_index(chars@.take(i as int), '.'),
        decreases i,
    {
        assert(chars@.take(i as int).drop_last() =~= chars@.take(i - 1));
        i -= 1;
    }
    if i > 1 {
        (name.substring_char(0, i - 1), name.substring_char(i, chars.len()))
    } else {
        let n = chars.len();
        (name.substring_char(0, n), name.substring_char(n, n))
    }
}

/// Taking a name apart loses nothing but the dot: it is its stem alone, or stem, dot
/// and extension.
pub proof fn split_name_keeps_the_name(name: Seq<char>)
    ensures
        extension(name).len() > 0 ==> name == stem(name).push('.') + extension(name),
        extension(name).len() == 0 ==> name == stem(name) || name == stem(name).push('.'),
        !extension(name).contains('.'),
{
    lemma_last_index(name, '.');
    let i = last_index(name, '.');
    if i > 0 {
        assert(stem(name).push('.') + extension(name) =~= name);
        if extension(name).contains('.') {
            let j = choose|j: int| 0 <= j < extension(name).len() && extension(name)[j] == '.';
            assert(name[i + 1 + j] == '.');
        }
    }
}

proof fn lemma_last_index(s: Seq<char>, c: char)
    ensures
        -1 <= last_index(s, c) < s.len(),
        last_index(s, c) >= 0 ==> s[last_index(s, c)] == c,
        forall|i: int| last_index(s, c) < i < s.len() ==> s[i] != c,
    decreases s.len(),
{
    if s.len() > 0 && s.last() != c {
        lemma_last_index(s.drop_last(), c);
        assert forall|i: int| last_index(s, c) < i < s.len() implies s[i] != c by {
            if i < s.len() - 1 {
                assert(s.drop_last()[i] == s[i]);
            }
        }
    }
}

// ---- Joining ------------------------------------------------------------

/// `name` below the directory `dir`. An absolute name stands for itself, and a
/// separator goes between the two only where `dir` does not end with one.
pub open spec fn joined(dir: Seq<char>, name: Seq<char>) -> Seq<char> {
    if name.len() > 0 && name.first() == '/' {
        name
    } else if dir.len() == 0 || dir.last() == '/' {
        dir + name
    } else {
        dir.push('/') + name
    }
}

/// Joins a directory and a name.
pub fn join(dir: &str, name: &str) -> (path: String)
    ensures
        path@ == joined(dir@, name@),
{
    if name.unicode_len() > 0 && name.get_char(0) == '/' {
        return name.to_owned();
    }
    let mut path = dir.to_owned();
    let n = dir.unicode_len();
    if n > 0 && dir.get_char(n - 1) != '/' {
        path.push('/');
    }
    path.append(name);
    path
}

// ---- The last component -------------------------------------------------

/// The last component of a path, if it names something: trailing separators and `.`
/// components do not count, and `..` names nothing.
pub open spec fn file_name(path: Seq<char>) -> Option<Seq<char>>
    decreases path.len(),
{
    let last = path.skip(last_index(path, '/') + 1);
    if path.len() == 0 {
        None
    } else if last.len() == 0 || last == seq!['.'] {
        file_name(path.drop_last())
    } else if last == seq!['.', '.'] {
        None
    } else {
        Some(last)
    }
}

/// The last component of a path, if it names something.
pub fn file_name_of(path: &str) -> (r: Option<String>)
    ensures
        crate::card::text_in(r) == file_name(path@),
{
    let chars = chars_of(path);
    let mut n: usize = chars.len();
    assert(chars@.take(n as int) =~= chars@);
    while n > 0
        invariant
            n <= chars@.len(),
            file_name(chars@.take(n as int)) == file_name(path@),
        decreases n,
    {
        let mut i: usize = n;
        let ghost whole = chars@.take(n as int);
        assert(whole.take(n as int) =~= whole);
        while i > 0 && chars[i - 1] != '/'
            invariant
                i <= n <= chars@.len(),
                whole == chars@.take(n as int),
                last_index(whole, '/') == last_index(whole.take(i as int), '/'),
            decreases i,
        {
            assert(whole.take(i as int).drop_last() =~= whole.take(i - 1));
            i -= 1;
        }
        let last = text_of(&chars.as_slice()[i..n]);
        assert(last@ =~= whole.skip(last_index(whole, '/') + 1));
        assert(chars@.take(n - 1) =~= whole.drop_last());
        proof {
            reveal_strlit(".");
            reveal_strlit("..");
            assert("."@ =~= seq!['.']);
            assert(".."@ =~= seq!['.', '.']);
        }
        if last.as_str().is_empty() || same_text(last.as_str(), ".") {
            n -= 1;
        } else if same_text(last.as_str(), "..") {
            return None;
        } else {
            return Some(last);
        }
    }
    None
}

proof fn lemma_file_name(front: Seq<char>, last: Seq<char>)
    requires
        front.len() == 0 || front.last() == '/',
        !last.contains('/'),
        !is_no_name(last),
    ensures
        file_name(front + last) == Some(last),
{
    let path = front + last;
    lemma_last_index(path, '/');
    let i = last_index(path, '/');
    if i >= front.len() {
        assert(last[i - front.len()] == '/');
    }
    if front.len() > 0 && i < front.len() - 1 {
        assert(path[front.len() - 1] == '/');
    }
    assert(path.skip(i + 1) =~= last);
}

/// A last component that names something is no path of its own: it holds no separator, and
/// is neither empty nor a directory link.
pub proof fn a_last_component_names_a_file(path: Seq<char>)
    ensures
        file_name(path) matches Some(name) ==> !name.contains('/') && !is_no_name(name),
    decreases path.len(),
{
    lemma_last_index(path, '/');
    let at = last_index(path, '/');
    let last = path.skip(at + 1);
    if path.len() > 0 {
        if last.len() == 0 || last == seq!['.'] {
            a_last_component_names_a_file(path.drop_last());
        } else if last.contains('/') {
            let i = choose|i: int| 0 <= i < last.len() && last[i] == '/';
            assert(path[at + 1 + i] == '/');
        }
    }
}

// ---- Names that are free ------------------------------------------------

/// A dot and the extension of `name`; nothing where it has none.
pub open spec fn dot_extension(name: Seq<char>) -> Seq<char> {
    if extension(name).len() == 0 {
        seq![]
    } else {
        seq!['.'] + extension(name)
    }
}

/// `name` with a number behind its stem, as in `photo (2).jpg`.
pub open spec fn numbered(name: Seq<char>, n: nat) -> Seq<char> {
    stem(name) + seq![' ', '('] + crate::text::decimal(n) + seq![')'] + dot_extension(name)
}

/// `name` with a time stamp behind its stem, as in `photo.1700000000000.jpg`.
pub open spec fn stamped(name: Seq<char>, millis: nat) -> Seq<char> {
    stem(name) + seq!['.'] + crate::text::decimal(millis) + dot_extension(name)
}

/// The name to try after `n - 1` others: the name itself, then the numbered ones.
pub open spec fn candidate(name: Seq<char>, n: nat) -> Seq<char> {
    if n <= 1 {
        name
    } else {
        numbered(name, n)
    }
}

/// How many candidates are tried before a time stamp settles the name.
pub const CANDIDATES: u32 = 999;

fn append_extension(path: &mut String, extension: &str)
    ensures
        final(path)@ == old(path)@ + (if extension@.len() == 0 {
            seq![]
        } else {
            seq!['.'] + extension@
        }),
{
    if !extension.is_empty() {
        path.push('.');
        path.append(extension);
        assert(path@ =~= old(path)@ + (seq!['.'] + extension@));
    } else {
        assert(path@ =~= old(path)@ + Seq::<char>::empty());
    }
}

/// Puts a number behind the stem of `name`.
pub fn numbered_name(name: &str, n: u32) -> (r: String)
    ensures
        r@ == numbered(name@, n as nat),
{
    let (stem, extension) = split_name(name);
    let mut out = stem.to_owned();
    out.push(' ');
    out.push('(');
    out.append(decimal_text(n as u128).as_str());
    out.push(')');
    append_extension(&mut out, extension);
    assert(out@ =~= numbered(name@, n as nat));
    out
}

/// Puts a time stamp behind the stem of `name`.
pub fn stamped_name(name: &str, millis: u128) -> (r: String)
    ensures
        r@ == stamped(name@, millis as nat),
{
    let (stem, extension) = split_name(name);
    let mut out = stem.to_owned();
    out.push('.');
    out.append(decimal_text(millis).as_str());
    append_extension(&mut out, extension);
    assert(out@ =~= stamped(name@, millis as nat));
    out
}

/// `taken`, asked about `path`, may give this answer.
pub open spec fn answers<F: Fn(&str) -> bool>(taken: F, path: Seq<char>, answer: bool) -> bool {
    exists|p: &str| p@ == path && #[trigger] call_ensures(taken, (p,), answer)
}

/// The first `n` candidates for `name` in `dir` are all taken.
pub open spec fn taken_up_to<F: Fn(&str) -> bool>(
    dir: Seq<char>,
    name: Seq<char>,
    taken: F,
    n: nat,
) -> bool {
    forall|k: nat| 1 <= k <= n ==> answers(taken, joined(dir, #[trigger] candidate(name, k)), true)
}

/// `path` is the first candidate for `name` in `dir` that is not taken, the `n`-th.
pub open spec fn first_free<F: Fn(&str) -> bool>(
    dir: Seq<char>,
    name: Seq<char>,
    taken: F,
    path: Seq<char>,
    n: nat,
) -> bool {
    &&& 1 <= n <= CANDIDATES
    &&& path == joined(dir, candidate(name, n))
    &&& taken_up_to(dir, name, taken, (n - 1) as nat)
    &&& answers(taken, path, false)
}

/// `path` is where a file called `name` goes in `dir`: the first candidate that is not
/// taken, or the stamped name where all candidates are taken and it is not.
pub open spec fn settles_on<F: Fn(&str) -> bool>(
    dir: Seq<char>,
    name: Seq<char>,
    now_millis: nat,
    taken: F,
    path: Seq<char>,
) -> bool {
    ||| exists|n: nat| #[trigger] first_free(dir, name, taken, path, n)
    ||| {
        &&& taken_up_to(dir, name, taken, CANDIDATES as nat)
        &&& path == joined(dir, stamped(name, now_millis))
        &&& answers(taken, path, false)
    }
}

/// There is no place for a file called `name` in `dir`: all candidates are taken, and the
/// stamped name too.
pub open spec fn no_place<F: Fn(&str) -> bool>(
    dir: Seq<char>,
    name: Seq<char>,
    now_millis: nat,
    taken: F,
) -> bool {
    &&& taken_up_to(dir, name, taken, CANDIDATES as nat)
    &&& answers(taken, joined(dir, stamped(name, now_millis)), true)
}

/// The path under which a file called `name` goes into `dir` without taking the place
/// of another: `name` itself, else `name` numbered from 2 on, whichever `taken`
/// reports free first. Where all of them are taken the name gets the time stamp
/// `now_millis`; `None` where that is taken too.
pub fn unique_path<F: Fn(&str) -> bool>(
    dir: &str,
    name: &str,
    now_millis: u128,
    taken: F,
) -> (r: Option<String>)
    requires
        forall|p: &str| call_requires(taken, (p,)),
    ensures
        r matches Some(path) ==> settles_on(dir@, name@, now_millis as nat, taken, path@),
        r matches Some(path) ==> answers(taken, path@, false),
        r is None ==> no_place(dir@, name@, now_millis as nat, taken),
{
    let plain = join(dir, name);
    assert(candidate(name@, 1) == name@);
    if !taken(plain.as_str()) {
        assert(first_free(dir@, name@, taken, plain@, 1));
        return Some(plain);
    }
    let mut n: u32 = 2;
    while n <= CANDIDATES
        invariant
            2 <= n <= CANDIDATES + 1,
            forall|p: &str| call_requires(taken, (p,)),
            taken_up_to(dir@, name@, taken, (n - 1) as nat),
        decreases CANDIDATES + 1 - n,
    {
        let path = join(dir, numbered_name(name, n).as_str());
        assert(path@ == joined(dir@, candidate(name@, n as nat)));
        if !taken(path.as_str()) {
            assert(first_free(dir@, name@, taken, path@, n as nat));
            return Some(path);
        }
        n += 1;
    }
    let path = join(dir, stamped_name(name, now_millis).as_str());
    if taken(path.as_str()) {
        None
    } else {
        Some(path)
    }
}

/// Numbering gives every number a name of its own, and none of them is the name that
/// was numbered.
pub proof fn numbered_names_differ(name: Seq<char>, m: nat, n: nat)
    ensures
        numbered(name, n) != name,
        numbered(name, m) == numbered(name, n) ==> m == n,
{
    split_name_keeps_the_name(name);
    crate::text::decimal_has_a_digit(m);
    crate::text::decimal_has_a_digit(n);
    assert(numbered(name, n).len() > name.len());
    if numbered(name, m) == numbered(name, n) {
        let dm = crate::text::decimal(m);
        let dn = crate::text::decimal(n);
        let from: int = stem(name).len() as int + 2;
        assert(dm.len() == dn.len());
        assert(numbered(name, m).subrange(from, from + dm.len()) =~= dm);
        assert(numbered(name, n).subrange(from, from + dn.len()) =~= dn);
        crate::text::decimal_is_injective(m, n);
    }
}

/// `taken` tells the paths of `files` from all others.
pub open spec fn tells<F: Fn(&str) -> bool>(taken: F, files: Set<Seq<char>>) -> bool {
    forall|p: &str, answer: bool| #[trigger]
        call_ensures(taken, (p,), answer) ==> answer == files.contains(p@)
}

/// A file never lands on another: where `taken` tells the paths of `files` from all
/// others, the chosen path is not one of them.
pub proof fn never_lands_on_another_file<F: Fn(&str) -> bool>(
    dir: Seq<char>,
    name: Seq<char>,
    now_millis: nat,
    taken: F,
    path: Seq<char>,
    files: Set<Seq<char>>,
)
    requires
        tells(taken, files),
        settles_on(dir, name, now_millis, taken, path),
    ensures
        !files.contains(path),
{
    assert(answers(taken, path, false));
}

/// A place is found while there is one: a file is turned away only where every candidate
/// for it is among `files`, and the stamped name too.
pub proof fn a_free_place_is_found<F: Fn(&str) -> bool>(
    dir: Seq<char>,
    name: Seq<char>,
    now_millis: nat,
    taken: F,
    files: Set<Seq<char>>,
)
    requires
        tells(taken, files),
        no_place(dir, name, now_millis, taken),
    ensures
        forall|n: nat|
            1 <= n <= CANDIDATES ==> files.contains(joined(dir, #[trigger] candidate(name, n))),
        files.contains(joined(dir, stamped(name, now_millis))),
{
    assert forall|n: nat| 1 <= n <= CANDIDATES implies files.contains(
        joined(dir, #[trigger] candidate(name, n)),
    ) by {
        assert(answers(taken, joined(dir, candidate(name, n)), true));
    }
}

/// A name that is not taken is kept as it is.
pub proof fn a_free_name_is_kept<F: Fn(&str) -> bool>(
    dir: Seq<char>,
    name: Seq<char>,
    now_millis: nat,
    taken: F,
    path: Seq<char>,
)
    requires
        !answers(taken, joined(dir, name), true),
        settles_on(dir, name, now_millis, taken, path),
    ensures
        path == joined(dir, name),
{
    assert(candidate(name, 1) == name);
    if exists|n: nat| #[trigger] first_free(dir, name, taken, path, n) {
        let n = choose|n: nat| #[trigger] first_free(dir, name, taken, path, n);
        if n > 1 {
            assert(answers(taken, joined(dir, candidate(name, 1)), true));
        }
    }
}

/// A file whose name holds no separator lands in `dir` itself: its path is `dir` and
/// one name without a separator, which is `.`, `..` or empty only where the file was
/// called so.
pub proof fn lands_in_the_directory<F: Fn(&str) -> bool>(
    dir: Seq<char>,
    name: Seq<char>,
    now_millis: nat,
    taken: F,
    path: Seq<char>,
) -> (landed: Seq<char>)
    requires
        !name.contains('/'),
        settles_on(dir, name, now_millis, taken, path),
    ensures
        path == (if dir.len() == 0 || dir.last() == '/' {
            dir
        } else {
            dir.push('/')
        }) + landed,
        !landed.contains('/'),
        landed == name || !is_no_name(landed),
{
    split_name_keeps_the_name(name);
    lemma_parts_keep_separators_out(name);
    if exists|n: nat| #[trigger] first_free(dir, name, taken, path, n) {
        let n = choose|n: nat| #[trigger] first_free(dir, name, taken, path, n);
        if n > 1 {
            crate::text::decimal_has_a_digit(n);
            lemma_no_separator_in_sum(stem(name), seq![' ', '(']);
            lemma_no_separator_in_sum(stem(name) + seq![' ', '('], crate::text::decimal(n));
            lemma_no_separator_in_sum(
                stem(name) + seq![' ', '('] + crate::text::decimal(n),
                seq![')'],
            );
            lemma_no_separator_in_sum(
                stem(name) + seq![' ', '('] + crate::text::decimal(n) + seq![')'],
                dot_extension(name),
            );
        }
        let landed = candidate(name, n);
        assert(n > 1 ==> landed.len() > 2);
        landed
    } else {
        crate::text::decimal_has_a_digit(now_millis);
        lemma_no_separator_in_sum(stem(name), seq!['.']);
        lemma_no_separator_in_sum(stem(name) + seq!['.'], crate::text::decimal(now_millis));
        lemma_no_separator_in_sum(
            stem(name) + seq!['.'] + crate::text::decimal(now_millis),
            dot_extension(name),
        );
        let landed = stamped(name, now_millis);
        if landed.len() == 2 {
            assert(landed[1] == crate::text::decimal(now_millis)[0]);
        }
        landed
    }
}

proof fn lemma_no_separator_in_sum(a: Seq<char>, b: Seq<char>)
    requires
        !a.contains('/'),
        forall|i: int| 0 <= i < b.len() ==> b[i] != '/',
    ensures
        !(a + b).contains('/'),
{
    if (a + b).contains('/') {
        let i = choose|i: int| 0 <= i < (a + b).len() && (a + b)[i] == '/';
        if i < a.len() {
            assert(a[i] == '/');
        } else {
            assert(b[i - a.len()] == '/');
        }
    }
}

proof fn lemma_parts_keep_separators_out(name: Seq<char>)
    requires
        !name.contains('/'),
    ensures
        !stem(name).contains('/'),
        forall|i: int| 0 <= i < dot_extension(name).len() ==> dot_extension(name)[i] != '/',
{
    lemma_last_index(name, '.');
    let i = last_index(name, '.');
    if i > 0 {
        if stem(name).contains('/') {
            let j = choose|j: int| 0 <= j < stem(name).len() && stem(name)[j] == '/';
            assert(name[j] == '/');
        }
        assert forall|j: int| 0 <= j < dot_extension(name).len() implies dot_extension(name)[j] != '/' by {
            if j > 0 {
                assert(dot_extension(name)[j] == name[i + j]);
            }
        }
    }
}

// ---- Names from outside -------------------------------------------------

/// A character that separates the components of a path, on any system.
pub open spec fn is_separator(c: char) -> bool {
    c == '/' || c == '\\'
}

/// What follows the last separator of `raw`; all of it where there is none.
pub open spec fn last_component(raw: Seq<char>) -> Seq<char>
    decreases raw.len(),
{
    if raw.len() == 0 {
        raw
    } else if is_separator(raw.last()) {
        seq![]
    } else {
        last_component(raw.drop_last()).push(raw.last())
    }
}

/// Whether `name` names no file of its own: empty, or one of the two directory links.
pub open spec fn is_no_name(name: Seq<char>) -> bool {
    name.len() == 0 || name == seq!['.'] || name == seq!['.', '.']
}

/// The file name under which an upload called `raw` is kept.
pub open spec fn sanitized(raw: Seq<char>) -> Seq<char> {
    let base = crate::text::trimmed(last_component(raw));
    if is_no_name(base) {
        seq!['u', 'p', 'l', 'o', 'a', 'd']
    } else {
        base
    }
}

fn last_component_of(raw: &str) -> (r: String)
    ensures
        r@ == last_component(raw@),
{
    let chars = chars_of(raw);
    let n = chars.len();
    let mut i: usize = n;
    assert(chars@.take(n as int) =~= chars@);
    assert(last_component(chars@.take(n as int)) + chars@.skip(n as int) =~= last_component(chars@));
    while i > 0 && chars[i - 1] != '/' && chars[i - 1] != '\\'
        invariant
            i <= n == chars@.len(),
            last_component(chars@.take(i as int)) + chars@.skip(i as int) == last_component(chars@),
        decreases i,
    {
        let ghost shorter = last_component(chars@.take(i - 1));
        assert(chars@.take(i as int).drop_last() =~= chars@.take(i - 1));
        assert(shorter.push(chars@[i - 1]) + chars@.skip(i as int) =~= shorter + chars@.skip(i - 1));
        i -= 1;
    }
    assert(last_component(chars@.take(i as int)) =~= seq![]);
    assert(last_component(chars@) =~= chars@.skip(i as int));
    assert(chars@.subrange(i as int, n as int) =~= chars@.skip(i as int));
    text_of(&chars.as_slice()[i..n])
}

/// Keeps only the final path component of whatever a browser sent, and never lets it
/// be empty.
pub fn sanitize_name(raw: &str) -> (name: String)
    ensures
        name@ == sanitized(raw@),
{
    let component = last_component_of(raw);
    let base = component.trim();
    proof {
        reveal_strlit(".");
        reveal_strlit("..");
        reveal_strlit("upload");
        assert("."@ =~= seq!['.']);
        assert(".."@ =~= seq!['.', '.']);
        assert("upload"@ =~= seq!['u', 'p', 'l', 'o', 'a', 'd']);
    }
    if base.is_empty() || same_text(base, ".") || same_text(base, "..") {
        "upload".to_owned()
    } else {
        base.to_owned()
    }
}

/// Whatever the other side sends, the sanitized name names a file: it is not empty, is
/// neither `.` nor `..`, and holds no separator.
pub proof fn sanitized_names_a_file(raw: Seq<char>)
    ensures
        !is_no_name(sanitized(raw)),
        forall|i: int| 0 <= i < sanitized(raw).len() ==> !is_separator(#[trigger] sanitized(raw)[i]),
{
    lemma_last_component(raw);
    let ends = crate::text::trimming_cuts_only_white_space(last_component(raw));
    let base = crate::text::trimmed(last_component(raw));
    assert forall|i: int| 0 <= i < base.len() implies !is_separator(#[trigger] base[i]) by {
        assert(base[i] == last_component(raw)[ends.0 + i]);
    }
    let upload = seq!['u', 'p', 'l', 'o', 'a', 'd'];
    assert(upload.len() == 6);
}

/// A name that is already clean is kept: sanitizing twice is sanitizing once.
pub proof fn sanitizing_twice_is_sanitizing_once(raw: Seq<char>)
    ensures
        sanitized(sanitized(raw)) == sanitized(raw),
{
    let name = sanitized(raw);
    sanitized_names_a_file(raw);
    lemma_without_separators_is_a_component(name);
    let ends = crate::text::trimming_cuts_only_white_space(last_component(raw));
    assert(crate::text::is_trimmed(name));
    crate::text::padding_is_trimmed_off(seq![], name, seq![]);
    assert(Seq::<char>::empty() + name + Seq::<char>::empty() =~= name);
}

proof fn lemma_last_component(raw: Seq<char>)
    ensures
        forall|i: int|
            0 <= i < last_component(raw).len() ==> !is_separator(#[trigger] last_component(raw)[i]),
    decreases raw.len(),
{
    if raw.len() > 0 && !is_separator(raw.last()) {
        lemma_last_component(raw.drop_last());
        let shorter = last_component(raw.drop_last());
        assert forall|i: int| 0 <= i < last_component(raw).len() implies !is_separator(
            #[trigger] last_component(raw)[i],
        ) by {
            if i < shorter.len() {
                assert(!is_separator(shorter[i]));
            }
        }
    }
}

proof fn lemma_without_separators_is_a_component(s: Seq<char>)
    requires
        forall|i: int| 0 <= i < s.len() ==> !is_separator(#[trigger] s[i]),
    ensures
        last_component(s) == s,
    decreases s.len(),
{
    if s.len() > 0 {
        assert forall|i: int| 0 <= i < s.len() - 1 implies !is_separator(#[trigger] s.drop_last()[i]) by {
            assert(s.drop_last()[i] == s[i]);
        }
        lemma_without_separators_is_a_component(s.drop_last());
        assert(s.drop_last().push(s.last()) =~= s);
    }
}

/// What follows the last `/` of the name that a peer offers, as it is; `file` where that
/// names no file.
pub open spec fn plain_name(offered: Seq<char>) -> Seq<char> {
    let base = offered.skip(last_index(offered, '/') + 1);
    if is_no_name(base) {
        "file"@
    } else {
        base
    }
}

/// The file name under which an offered file is kept: only the part after the last `/`
/// counts, and it is never empty or a directory link.
pub fn plain_name_of(offered: &str) -> (name: String)
    ensures
        name@ == plain_name(offered@),
{
    let chars = chars_of(offered);
    let n = chars.len();
    let mut i: usize = n;
    assert(chars@.take(n as int) =~= chars@);
    while i > 0 && chars[i - 1] != '/'
        invariant
            i <= n == chars@.len(),
            last_index(chars@, '/') == last_index(chars@.take(i as int), '/'),
        decreases i,
    {
        assert(chars@.take(i as int).drop_last() =~= chars@.take(i - 1));
        i -= 1;
    }
    let base = text_of(&chars.as_slice()[i..n]);
    assert(base@ =~= chars@.skip(last_index(chars@, '/') + 1));
    proof {
        reveal_strlit(".");
        reveal_strlit("..");
        assert("."@ =~= seq!['.']);
        assert(".."@ =~= seq!['.', '.']);
    }
    if base.as_str().is_empty() || same_text(base.as_str(), ".") || same_text(base.as_str(), "..") {
        "file".to_owned()
    } else {
        base
    }
}

/// Whatever a peer offers, the plain name names a file: it is not empty, is neither `.` nor
/// `..`, and holds no `/`. A name that is so already is kept as it is.
pub proof fn plain_names_name_a_file(offered: Seq<char>)
    ensures
        !is_no_name(plain_name(offered)),
        !plain_name(offered).contains('/'),
        !is_no_name(offered) && !offered.contains('/') ==> plain_name(offered) == offered,
{
    reveal_strlit("file");
    let file = "file"@;
    assert(file.len() == 4 && file[0] == 'f' && file[1] == 'i' && file[2] == 'l' && file[3] == 'e');
    lemma_last_index(offered, '/');
    let at = last_index(offered, '/');
    let base = offered.skip(at + 1);
    if base.contains('/') {
        let i = choose|i: int| 0 <= i < base.len() && base[i] == '/';
        assert(offered[at + 1 + i] == '/');
    }
    if !offered.contains('/') {
        assert(at == -1);
        assert(base =~= offered);
    }
}

/// A file that goes under a name that names a file lands in `dir` itself: its path is `dir`
/// and one name without a separator, which is the last component of the path.
pub proof fn named_files_land_in_the_directory<F: Fn(&str) -> bool>(
    dir: Seq<char>,
    name: Seq<char>,
    now_millis: nat,
    taken: F,
    path: Seq<char>,
) -> (landed: Seq<char>)
    requires
        !name.contains('/'),
        !is_no_name(name),
        settles_on(dir, name, now_millis, taken, path),
    ensures
        path == joined(dir, landed),
        !landed.contains('/'),
        !is_no_name(landed),
        file_name(path) == Some(landed),
{
    let landed = lands_in_the_directory(dir, name, now_millis, taken, path);
    if landed.first() == '/' {
        assert(landed[0] == '/');
    }
    assert(path == joined(dir, landed));
    let front = if dir.len() == 0 || dir.last() == '/' {
        dir
    } else {
        dir.push('/')
    };
    lemma_file_name(front, landed);
    landed
}

// ---- What names come to -------------------------------------------------

proof fn lemma_last_index_is(s: Seq<char>, c: char, at: int)
    requires
        -1 <= at < s.len(),
        at >= 0 ==> s[at] == c,
        forall|i: int| at < i < s.len() ==> s[i] != c,
    ensures
        last_index(s, c) == at,
{
    lemma_last_index(s, c);
    let l = last_index(s, c);
    if l < at {
        assert(s[at] != c);
    } else if at < l {
        assert(s[l] != c);
    }
}

/// A name is split at its last dot: the stem is all that stands before it, and the
/// extension all that stands behind it, however long either is.
pub proof fn a_name_is_split_at_its_last_dot(s: Seq<char>, e: Seq<char>)
    requires
        s.len() > 0,
        !e.contains('.'),
    ensures
        stem(s.push('.') + e) == s,
        extension(s.push('.') + e) == e,
{
    let name = s.push('.') + e;
    assert forall|i: int| s.len() < i < name.len() implies name[i] != '.' by {
        assert(name[i] == e[i - s.len() - 1]);
    }
    lemma_last_index_is(name, '.', s.len() as int);
    assert(name.take(s.len() as int) =~= s);
    assert(name.skip(s.len() as int + 1) =~= e);
}

/// A name with no dot behind its first character has no extension.
pub proof fn a_name_without_a_dot_is_all_stem(name: Seq<char>)
    requires
        forall|i: int| 0 < i < name.len() ==> name[i] != '.',
    ensures
        stem(name) == name,
        extension(name).len() == 0,
{
    lemma_last_index(name, '.');
}

/// A number goes right behind the stem, in brackets and after a space, and so does a time
/// stamp, after a dot; the extension follows as it was.
pub proof fn the_extension_stays_behind_the_number(s: Seq<char>, e: Seq<char>, n: nat)
    requires
        s.len() > 0,
        !e.contains('.'),
    ensures
        e.len() > 0 ==> numbered(s.push('.') + e, n) == s + seq![' ', '('] + crate::text::decimal(n)
            + seq![')', '.'] + e,
        e.len() > 0 ==> stamped(s.push('.') + e, n) == s + seq!['.'] + crate::text::decimal(n)
            + seq!['.'] + e,
        e.len() == 0 ==> numbered(s.push('.') + e, n) == s + seq![' ', '('] + crate::text::decimal(n)
            + seq![')'],
        e.len() == 0 ==> stamped(s.push('.') + e, n) == s + seq!['.'] + crate::text::decimal(n),
{
    a_name_is_split_at_its_last_dot(s, e);
    let name = s.push('.') + e;
    let d = crate::text::decimal(n);
    if e.len() > 0 {
        assert(numbered(name, n) =~= s + seq![' ', '('] + d + seq![')', '.'] + e);
        assert(stamped(name, n) =~= s + seq!['.'] + d + seq!['.'] + e);
    } else {
        assert(numbered(name, n) =~= s + seq![' ', '('] + d + seq![')']);
        assert(stamped(name, n) =~= s + seq!['.'] + d);
    }
}

/// A name without an extension gets its number, or its time stamp, at the end.
pub proof fn a_name_without_an_extension_ends_with_the_number(name: Seq<char>, n: nat)
    requires
        forall|i: int| 0 < i < name.len() ==> name[i] != '.',
    ensures
        numbered(name, n) == name + seq![' ', '('] + crate::text::decimal(n) + seq![')'],
        stamped(name, n) == name + seq!['.'] + crate::text::decimal(n),
{
    a_name_without_a_dot_is_all_stem(name);
    let d = crate::text::decimal(n);
    assert(numbered(name, n) =~= name + seq![' ', '('] + d + seq![')']);
    assert(stamped(name, n) =~= name + seq!['.'] + d);
}

/// The first name that is free is the one: the name itself, else the first number from 2
/// to 999 that is free, else the time stamp.
pub proof fn the_first_free_name_is_chosen<F: Fn(&str) -> bool>(
    dir: Seq<char>,
    name: Seq<char>,
    now_millis: nat,
    taken: F,
    path: Seq<char>,
    files: Set<Seq<char>>,
    k: nat,
)
    requires
        tells(taken, files),
        settles_on(dir, name, now_millis, taken, path),
    ensures
        !files.contains(joined(dir, name)) ==> path == joined(dir, name),
        (2 <= k <= 999 && files.contains(joined(dir, name)) && !files.contains(
            joined(dir, numbered(name, k)),
        ) && forall|j: nat|
            2 <= j < k ==> files.contains(joined(dir, #[trigger] numbered(name, j)))) ==> path
            == joined(dir, numbered(name, k)),
        (files.contains(joined(dir, name)) && forall|j: nat|
            2 <= j <= 999 ==> files.contains(joined(dir, #[trigger] numbered(name, j)))) ==> path
            == joined(dir, stamped(name, now_millis)),
{
    assert(candidate(name, 1) == name);
    if exists|n: nat| #[trigger] first_free(dir, name, taken, path, n) {
        let n = choose|n: nat| #[trigger] first_free(dir, name, taken, path, n);
        assert(answers(taken, path, false));
        assert(!files.contains(path));
        if n > 1 {
            assert(answers(taken, joined(dir, candidate(name, 1)), true));
            assert(candidate(name, n) == numbered(name, n));
            if 2 <= k < n {
                assert(answers(taken, joined(dir, candidate(name, k)), true));
            }
        }
    } else {
        assert(answers(taken, joined(dir, candidate(name, 1)), true));
        if 2 <= k <= 999 {
            assert(answers(taken, joined(dir, candidate(name, k)), true));
        }
    }
}

/// A path is the directory, a separator where one is missing, and the name.
pub proof fn a_path_is_directory_and_name(dir: Seq<char>, name: Seq<char>) -> (between: Seq<char>)
    requires
        name.len() > 0 ==> name[0] != '/',
    ensures
        joined(dir, name) == dir + between + name,
        dir.len() > 0 && dir.last() != '/' ==> between == seq!['/'],
        dir.len() == 0 || dir.last() == '/' ==> between.len() == 0,
{
    if dir.len() > 0 && dir.last() != '/' {
        assert(joined(dir, name) =~= dir + seq!['/'] + name);
        seq!['/']
    } else {
        assert(joined(dir, name) =~= dir + Seq::<char>::empty() + name);
        seq![]
    }
}

/// A name that begins with a separator stands for itself, whatever the directory.
pub proof fn an_absolute_name_stands_for_itself(dir: Seq<char>, name: Seq<char>)
    requires
        name.len() > 0,
        name[0] == '/',
    ensures
        joined(dir, name) == name,
{
}

/// What follows the last separator is the last component of a path, whatever it is called,
/// unless it is empty or a directory link.
pub proof fn the_last_component_is_what_follows_the_last_separator(
    front: Seq<char>,
    last: Seq<char>,
)
    requires
        front.len() > 0 ==> front.last() == '/',
        !last.contains('/'),
    ensures
        last.len() > 0 && last != seq!['.'] && last != seq!['.', '.'] ==> file_name(front + last)
            == Some(last),
        last == seq!['.', '.'] ==> file_name(front + last) is None,
        last == seq!['.'] ==> file_name(front + last) == file_name(front),
        front.len() == 0 ==> file_name(front) is None,
        front.len() > 0 ==> file_name(front) == file_name(front.drop_last()),
{
    let path = front + last;
    let at = front.len() - 1;
    assert forall|i: int| at < i < path.len() implies path[i] != '/' by {
        assert(path[i] == last[i - front.len()]);
    }
    lemma_last_index_is(path, '/', at);
    assert(path.skip(at + 1) =~= last);
    lemma_last_index_is(front, '/', at);
    assert(front.skip(at + 1) =~= seq![]);
    if last == seq!['.'] {
        assert(path.drop_last() =~= front);
    }
}

/// An upload is kept under the final component of whatever name was sent, without the white
/// space around it, and under `upload` where that names no file.
pub proof fn an_upload_keeps_its_final_component(
    front: Seq<char>,
    before: Seq<char>,
    name: Seq<char>,
    after: Seq<char>,
)
    requires
        front.len() > 0 ==> front.last() == '/' || front.last() == '\\',
        crate::text::all_white_space(before),
        crate::text::all_white_space(after),
        crate::text::is_trimmed(name),
        !name.contains('/'),
        !name.contains('\\'),
    ensures
        name.len() > 0 && name != seq!['.'] && name != seq!['.', '.'] ==> sanitized(
            front + (before + name + after),
        ) == name,
        name.len() == 0 || name == seq!['.'] || name == seq!['.', '.'] ==> sanitized(
            front + (before + name + after),
        ) == "upload"@,
{
    reveal_strlit("upload");
    assert("upload"@ =~= seq!['u', 'p', 'l', 'o', 'a', 'd']);
    let tail = before + name + after;
    assert forall|i: int| 0 <= i < tail.len() implies tail[i] != '/' && tail[i] != '\\' by {
        if i < before.len() {
            assert(tail[i] == before[i]);
            assert(crate::text::is_white_space(before[i]));
        } else if i < before.len() + name.len() {
            assert(tail[i] == name[i - before.len()]);
        } else {
            assert(tail[i] == after[i - before.len() - name.len()]);
            assert(crate::text::is_white_space(after[i - before.len() - name.len()]));
        }
    }
    lemma_last_component_is(front, tail);
    crate::text::padding_is_trimmed_off(before, name, after);
}

proof fn lemma_last_component_is(front: Seq<char>, tail: Seq<char>)
    requires
        front.len() > 0 ==> front.last() == '/' || front.last() == '\\',
        forall|i: int| 0 <= i < tail.len() ==> tail[i] != '/' && tail[i] != '\\',
    ensures
        last_component(front + tail) == tail,
    decreases tail.len(),
{
    let raw = front + tail;
    if tail.len() == 0 {
        assert(raw =~= front);
        assert(last_component(raw) =~= tail);
    } else {
        assert(raw.last() == tail[tail.len() - 1]);
        assert(raw.drop_last() =~= front + tail.drop_last());
        lemma_last_component_is(front, tail.drop_last());
        assert(tail.drop_last().push(tail.last()) =~= tail);
    }
}

/// An offered file is kept under what follows the last `/` of the name that was offered,
/// character by character, and under `file` where that names no file.
pub proof fn an_offer_keeps_what_follows_the_last_slash(front: Seq<char>, name: Seq<char>)
    requires
        front.len() > 0 ==> front.last() == '/',
        !name.contains('/'),
    ensures
        name.len() > 0 && name != seq!['.'] && name != seq!['.', '.'] ==> plain_name(front + name)
            == name,
        name.len() == 0 || name == seq!['.'] || name == seq!['.', '.'] ==> plain_name(front + name)
            == "file"@,
{
    let offered = front + name;
    let at = front.len() - 1;
    assert forall|i: int| at < i < offered.len() implies offered[i] != '/' by {
        assert(offered[i] == name[i - front.len()]);
    }
    lemma_last_index_is(offered, '/', at);
    assert(offered.skip(at + 1) =~= name);
}

} // verus!
