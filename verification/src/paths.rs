//! Where things are kept, and how a file is handed to the desktop.

use vstd::prelude::*;
use vstd::string::*;
use vstd::utf8::*;

use crate::card::text_in;
use crate::names::{join, joined};

verus! {

// ---- Directories --------------------------------------------------------

/// The directory of this program below a base directory.
pub open spec fn own_dir(base: Seq<char>) -> Seq<char> {
    joined(base, "krill-file-drop"@)
}

/// Where received files go: below the configured download directory, else below
/// `Downloads` in the home directory, else below the working directory.
pub open spec fn downloads(configured: Option<Seq<char>>, home: Option<Seq<char>>) -> Seq<char> {
    own_dir(
        match configured {
            Some(dir) => dir,
            None => match home {
                Some(dir) => joined(dir, "Downloads"@),
                None => "."@,
            },
        },
    )
}

/// Where the state is kept: below the configured state directory, else below
/// `.local/state` in the home directory, else below the working directory.
pub open spec fn state(configured: Option<Seq<char>>, home: Option<Seq<char>>) -> Seq<char> {
    own_dir(
        match configured {
            Some(dir) => dir,
            None => match home {
                Some(dir) => joined(joined(dir, ".local"@), "state"@),
                None => "."@,
            },
        },
    )
}

/// The directory for received files, given the configured download directory and the
/// home directory.
pub fn downloads_dir(configured: Option<String>, home: Option<String>) -> (dir: String)
    ensures
        dir@ == downloads(text_in(configured), text_in(home)),
{
    let base = match configured {
        Some(dir) => dir,
        None => match home {
            Some(dir) => join(dir.as_str(), "Downloads"),
            None => ".".to_owned(),
        },
    };
    join(base.as_str(), "krill-file-drop")
}

/// The directory for the state, given the configured state directory and the home
/// directory.
pub fn state_dir(configured: Option<String>, home: Option<String>) -> (dir: String)
    ensures
        dir@ == state(text_in(configured), text_in(home)),
{
    let base = match configured {
        Some(dir) => dir,
        None => match home {
            Some(dir) => join(join(dir.as_str(), ".local").as_str(), "state"),
            None => ".".to_owned(),
        },
    };
    join(base.as_str(), "krill-file-drop")
}

/// The file that holds the contacts, given the configured state directory and the home
/// directory.
pub fn contacts_path(configured: Option<String>, home: Option<String>) -> (path: String)
    ensures
        path@ == joined(state(text_in(configured), text_in(home)), "contacts.json"@),
{
    join(state_dir(configured, home).as_str(), "contacts.json")
}

// ---- File URIs ----------------------------------------------------------

/// A byte that stands for itself in a URI path: an unreserved character or the
/// separator.
pub open spec fn is_plain(b: u8) -> bool {
    ||| 'A' as u8 <= b <= 'Z' as u8
    ||| 'a' as u8 <= b <= 'z' as u8
    ||| '0' as u8 <= b <= '9' as u8
    ||| b == '-' as u8
    ||| b == '.' as u8
    ||| b == '_' as u8
    ||| b == '~' as u8
    ||| b == '/' as u8
}

/// The capital hexadecimal digit for four bits.
pub open spec fn hex_capital(v: int) -> char {
    if v < 10 {
        (48 + v) as char
    } else {
        (55 + v) as char
    }
}

/// A byte in a URI path: itself, or a percent sign and two digits.
pub open spec fn escaped_byte(b: u8) -> Seq<char> {
    if is_plain(b) {
        seq![b as char]
    } else {
        seq!['%', hex_capital(b as int / 16), hex_capital(b as int % 16)]
    }
}

/// Bytes in a URI path, one after the other.
pub open spec fn escaped(bytes: Seq<u8>) -> Seq<char>
    decreases bytes.len(),
{
    if bytes.len() == 0 {
        seq![]
    } else {
        escaped_byte(bytes.first()) + escaped(bytes.drop_first())
    }
}

/// The URI of the file at an absolute path.
pub open spec fn file_uri(path: Seq<char>) -> Seq<char> {
    "file://"@ + escaped(encode_utf8(path))
}

proof fn lemma_escaped_push(bytes: Seq<u8>, b: u8)
    ensures
        escaped(bytes.push(b)) == escaped(bytes) + escaped_byte(b),
    decreases bytes.len(),
{
    if bytes.len() == 0 {
        assert(bytes.push(b).drop_first() =~= bytes);
        assert(escaped(bytes) =~= seq![]);
        assert(escaped(bytes.push(b)) =~= escaped(bytes) + escaped_byte(b));
    } else {
        lemma_escaped_push(bytes.drop_first(), b);
        assert(bytes.push(b).drop_first() =~= bytes.drop_first().push(b));
        assert(escaped(bytes.push(b)) =~= escaped(bytes) + escaped_byte(b));
    }
}

fn hex_capital_of(v: u8) -> (c: char)
    requires
        v < 16,
    ensures
        c == hex_capital(v as int),
{
    if v < 10 {
        (48 + v) as char
    } else {
        (55 + v) as char
    }
}

fn push_escaped(out: &mut String, b: u8)
    ensures
        final(out)@ == old(out)@ + escaped_byte(b),
{
    let plain = (65 <= b && b <= 90) || (97 <= b && b <= 122) || (48 <= b && b <= 57) || b == 45 || b
        == 46 || b == 95 || b == 126 || b == 47;
    if plain {
        out.push(b as char);
    } else {
        out.push('%');
        out.push(hex_capital_of(b / 16));
        out.push(hex_capital_of(b % 16));
    }
    assert(plain == is_plain(b));
    assert(out@ =~= old(out)@ + escaped_byte(b));
}

/// Encodes an absolute path as a `file://` URI: every byte that is neither an unreserved
/// character nor a separator is escaped.
pub fn path_to_file_uri(path: &str) -> (uri: String)
    ensures
        uri@ == file_uri(path@),
{
    let mut out = "file://".to_owned();
    let bytes = path.as_bytes();
    let mut i: usize = 0;
    assert(out@ =~= "file://"@ + escaped(bytes@.take(0)));
    while i < bytes.len()
        invariant
            i <= bytes@.len(),
            out@ == "file://"@ + escaped(bytes@.take(i as int)),
        decreases bytes@.len() - i,
    {
        push_escaped(&mut out, bytes[i]);
        proof {
            lemma_escaped_push(bytes@.take(i as int), bytes@[i as int]);
            assert(bytes@.take(i as int).push(bytes@[i as int]) =~= bytes@.take(i + 1));
        }
        assert(out@ =~= "file://"@ + escaped(bytes@.take(i + 1)));
        i += 1;
    }
    assert(bytes@.take(i as int) =~= bytes@);
    out
}

proof fn lemma_escaped_is_injective(a: Seq<u8>, b: Seq<u8>)
    requires
        escaped(a) == escaped(b),
    ensures
        a == b,
    decreases a.len(),
{
    if a.len() == 0 {
        if b.len() > 0 {
            assert(escaped(b).len() > 0);
        }
        assert(a =~= b);
    } else if b.len() == 0 {
        assert(escaped(a).len() > 0);
    } else {
        let ea = escaped_byte(a.first());
        let eb = escaped_byte(b.first());
        let ra = escaped(a.drop_first());
        let rb = escaped(b.drop_first());
        assert((ea + ra)[0] == (eb + rb)[0]);
        assert(is_plain(a.first()) == is_plain(b.first()));
        if !is_plain(a.first()) {
            assert((ea + ra)[1] == (eb + rb)[1]);
            assert((ea + ra)[2] == (eb + rb)[2]);
        }
        assert(a.first() == b.first());
        assert((ea + ra).skip(ea.len() as int) =~= ra);
        assert((eb + rb).skip(eb.len() as int) =~= rb);
        lemma_escaped_is_injective(a.drop_first(), b.drop_first());
        assert(a =~= seq![a.first()] + a.drop_first());
        assert(b =~= seq![b.first()] + b.drop_first());
    }
}

/// Different files have different URIs.
pub proof fn file_uris_are_unambiguous(a: Seq<char>, b: Seq<char>)
    requires
        file_uri(a) == file_uri(b),
    ensures
        a == b,
{
    let n = "file://"@.len() as int;
    assert(file_uri(a).skip(n) =~= escaped(encode_utf8(a)));
    assert(file_uri(b).skip(n) =~= escaped(encode_utf8(b)));
    lemma_escaped_is_injective(encode_utf8(a), encode_utf8(b));
    encode_utf8_decode_utf8(a);
    encode_utf8_decode_utf8(b);
}

/// A character that may stand in a URI.
pub open spec fn is_uri_char(c: char) -> bool {
    c == '%' || (c as int <= 127 && is_plain(c as u8))
}

/// An escaped path holds only unreserved characters, separators and escapes.
pub proof fn escaped_paths_are_plain(bytes: Seq<u8>)
    ensures
        forall|i: int| 0 <= i < escaped(bytes).len() ==> is_uri_char(#[trigger] escaped(bytes)[i]),
    decreases bytes.len(),
{
    if bytes.len() > 0 {
        escaped_paths_are_plain(bytes.drop_first());
        let first = escaped_byte(bytes.first());
        let rest = escaped(bytes.drop_first());
        assert forall|i: int| 0 <= i < escaped(bytes).len() implies is_uri_char(
            #[trigger] escaped(bytes)[i],
        ) by {
            if i < first.len() {
                assert(escaped(bytes)[i] == first[i]);
            } else {
                assert(escaped(bytes)[i] == rest[i - first.len()]);
            }
        }
    }
}

// ---- Helper programs ----------------------------------------------------

/// A program to run, with its arguments.
#[derive(Debug, PartialEq, Eq)]
pub struct HelperCommand {
    pub program: String,
    pub args: Vec<String>,
}

/// The texts in a list of strings.
pub open spec fn texts(list: Seq<String>) -> Seq<Seq<char>> {
    list.map_values(|s: String| s@)
}

/// A job for the clipboard helper: what to run, what to write to it, and what to tell the
/// user where it cannot be run.
#[derive(Debug, PartialEq, Eq)]
pub struct ClipboardJob {
    pub command: HelperCommand,
    pub input: String,
    pub spawn_error: String,
}

/// How to open the file at `path` with the program that the desktop has for it.
pub fn open_path(path: &str) -> (command: HelperCommand)
    ensures
        command.program@ == "xdg-open"@,
        texts(command.args@) == seq![path@],
{
    let mut args: Vec<String> = Vec::new();
    args.push(path.to_owned());
    assert(texts(args@) =~= seq![path@]);
    HelperCommand { program: "xdg-open".to_owned(), args }
}

/// How to put a reference to the file at `path` onto the clipboard, so that it can be
/// pasted as a file: through `wl-copy` on Wayland, through `xclip` on X11.
pub fn copy_file_to_clipboard(path: &str, wayland: bool) -> (job: ClipboardJob)
    ensures
        job.input@ == file_uri(path@),
        wayland ==> {
            &&& job.command.program@ == "wl-copy"@
            &&& texts(job.command.args@) == seq!["--type"@, "text/uri-list"@]
            &&& job.spawn_error@ == "spawning wl-copy (install wl-clipboard?)"@
        },
        !wayland ==> {
            &&& job.command.program@ == "xclip"@
            &&& texts(job.command.args@) == seq![
                "-selection"@,
                "clipboard"@,
                "-t"@,
                "text/uri-list"@,
            ]
            &&& job.spawn_error@ == "spawning xclip (install xclip?)"@
        },
{
    let input = path_to_file_uri(path);
    let mut args: Vec<String> = Vec::new();
    if wayland {
        args.push("--type".to_owned());
        args.push("text/uri-list".to_owned());
        assert(texts(args@) =~= seq!["--type"@, "text/uri-list"@]);
        ClipboardJob {
            command: HelperCommand { program: "wl-copy".to_owned(), args },
            input,
            spawn_error: "spawning wl-copy (install wl-clipboard?)".to_owned(),
        }
    } else {
        args.push("-selection".to_owned());
        args.push("clipboard".to_owned());
        args.push("-t".to_owned());
        args.push("text/uri-list".to_owned());
        assert(texts(args@) =~= seq!["-selection"@, "clipboard"@, "-t"@, "text/uri-list"@]);
        ClipboardJob {
            command: HelperCommand { program: "xclip".to_owned(), args },
            input,
            spawn_error: "spawning xclip (install xclip?)".to_owned(),
        }
    }
}

// ---- What URIs and directories come to ----------------------------------

/// The value of a hexadecimal digit in capitals.
pub open spec fn hex_value(c: char) -> int {
    if '0' <= c <= '9' {
        c as int - '0' as int
    } else {
        c as int - 'A' as int + 10
    }
}

/// A hexadecimal digit in capitals.
pub open spec fn is_hex_digit(c: char) -> bool {
    '0' <= c <= '9' || 'A' <= c <= 'F'
}

/// The bytes that a percent-encoded text stands for.
pub open spec fn percent_decoded(s: Seq<char>) -> Seq<u8>
    decreases s.len(),
{
    if s.len() == 0 {
        seq![]
    } else if s[0] == '%' && s.len() >= 3 {
        seq![(16 * hex_value(s[1]) + hex_value(s[2])) as u8] + percent_decoded(s.skip(3))
    } else {
        seq![s[0] as u8] + percent_decoded(s.skip(1))
    }
}

/// A text of letters, digits, `-`, `.`, `_`, `~`, `/`, and percent signs with two digits.
pub open spec fn is_well_escaped(s: Seq<char>) -> bool
    decreases s.len(),
{
    if s.len() == 0 {
        true
    } else if s[0] == '%' {
        s.len() >= 3 && is_hex_digit(s[1]) && is_hex_digit(s[2]) && is_well_escaped(s.skip(3))
    } else {
        ('A' <= s[0] <= 'Z' || 'a' <= s[0] <= 'z' || '0' <= s[0] <= '9' || s[0] == '-' || s[0] == '.'
            || s[0] == '_' || s[0] == '~' || s[0] == '/') && is_well_escaped(s.skip(1))
    }
}

proof fn lemma_escaped(bytes: Seq<u8>)
    ensures
        is_well_escaped(escaped(bytes)),
        percent_decoded(escaped(bytes)) == bytes,
    decreases bytes.len(),
{
    if bytes.len() == 0 {
        assert(percent_decoded(escaped(bytes)) =~= bytes);
    } else {
        let b = bytes.first();
        let rest = escaped(bytes.drop_first());
        let all = escaped(bytes);
        lemma_escaped(bytes.drop_first());
        if is_plain(b) {
            assert(all[0] == b as char);
            assert(all.skip(1) =~= rest);
        } else {
            assert(all[0] == '%' && all[1] == hex_capital(b as int / 16) && all[2] == hex_capital(
                b as int % 16,
            ));
            assert(all.skip(3) =~= rest);
            assert(hex_value(all[1]) == b as int / 16 && hex_value(all[2]) == b as int % 16);
        }
        assert(percent_decoded(all) =~= seq![b] + bytes.drop_first());
        assert(seq![b] + bytes.drop_first() =~= bytes);
    }
}

/// A file URI names the file: behind `file://` there are only letters, digits, `-`, `.`,
/// `_`, `~`, `/` and percent signs with two capital hexadecimal digits, and decoding these
/// gives back the bytes of the path.
pub proof fn a_file_uri_decodes_to_the_path(path: Seq<char>) -> (rest: Seq<char>)
    ensures
        file_uri(path) == "file://"@ + rest,
        is_well_escaped(rest),
        percent_decoded(rest) == encode_utf8(path),
{
    lemma_escaped(encode_utf8(path));
    escaped(encode_utf8(path))
}

/// Nothing is escaped that need not be: letters, digits, `-`, `.`, `_`, `~` and `/` stand
/// for themselves, wherever in a path they are.
pub proof fn plain_characters_stand_for_themselves(before: Seq<u8>, plain: Seq<u8>, after: Seq<u8>)
    requires
        forall|i: int|
            0 <= i < plain.len() ==> ('A' as u8 <= #[trigger] plain[i] <= 'Z' as u8 || 'a' as u8
                <= plain[i] <= 'z' as u8 || '0' as u8 <= plain[i] <= '9' as u8 || plain[i] == '-' as u8
                || plain[i] == '.' as u8 || plain[i] == '_' as u8 || plain[i] == '~' as u8 || plain[i]
                == '/' as u8),
    ensures
        escaped(before + plain + after) == escaped(before) + plain.map_values(|b: u8| b as char)
            + escaped(after),
{
    lemma_escaped_sum(before + plain, after);
    lemma_escaped_sum(before, plain);
    lemma_escaped_plain(plain);
}

proof fn lemma_escaped_sum(a: Seq<u8>, b: Seq<u8>)
    ensures
        escaped(a + b) == escaped(a) + escaped(b),
    decreases a.len(),
{
    if a.len() == 0 {
        assert(a + b =~= b);
        assert(escaped(a) + escaped(b) =~= escaped(b));
    } else {
        assert((a + b).drop_first() =~= a.drop_first() + b);
        lemma_escaped_sum(a.drop_first(), b);
        assert(escaped(a + b) =~= escaped(a) + escaped(b));
    }
}

proof fn lemma_escaped_plain(plain: Seq<u8>)
    requires
        forall|i: int| 0 <= i < plain.len() ==> is_plain(#[trigger] plain[i]),
    ensures
        escaped(plain) == plain.map_values(|b: u8| b as char),
    decreases plain.len(),
{
    let mapped = plain.map_values(|b: u8| b as char);
    if plain.len() > 0 {
        assert forall|i: int| 0 <= i < plain.len() - 1 implies is_plain(
            #[trigger] plain.drop_first()[i],
        ) by {
            assert(plain.drop_first()[i] == plain[i + 1]);
        }
        lemma_escaped_plain(plain.drop_first());
        assert(is_plain(plain[0]));
    }
    assert(escaped(plain) =~= mapped);
}

/// Files and state go below a directory of the program's own: in the configured directory
/// where there is one, else in the usual place below the home directory, else in the working
/// directory.
pub proof fn directories_are_below_the_base(configured: Seq<char>, home: Seq<char>, any: Option<Seq<char>>)
    ensures
        downloads(Some(configured), any) == joined(configured, "krill-file-drop"@),
        downloads(None, Some(home)) == joined(joined(home, "Downloads"@), "krill-file-drop"@),
        downloads(None, None) == joined("."@, "krill-file-drop"@),
        state(Some(configured), any) == joined(configured, "krill-file-drop"@),
        state(None, Some(home)) == joined(
            joined(joined(home, ".local"@), "state"@),
            "krill-file-drop"@,
        ),
        state(None, None) == joined("."@, "krill-file-drop"@),
{
}

/// The texts of a list are those of its strings, one for one.
pub proof fn texts_are_those_of_the_strings(list: Seq<String>)
    ensures
        texts(list).len() == list.len(),
        forall|i: int| 0 <= i < list.len() ==> texts(list)[i] == (#[trigger] list[i])@,
{
}

} // verus!
