//! The decisions of the steamcmd runner: which operating systems get a
//! dedicated server, which bootstrap archive to fetch, where steamcmd lives
//! inside the bundle, and how its console output is cleaned and read.
//!
//! No hardcoded absolute paths: every location resolves from a bundle dir
//! supplied by the caller.
use std::path::PathBuf;
use vstd::prelude::*;

use crate::paths::{join, path_joined};
use crate::game::strings_view;
use crate::text::{
    chars_between, chars_of, contains_str, contains_text, find_spec, find_text, is_digit,
    line_ranges, lines_spec, owned, parse_uint, parse_uint_spec, push_char, push_str, ranges_view,
    skip_white, string_of, to_lowercase, trim_bounds, trim_end_index, trim_end_spec, trim_spec,
    trim_start_spec, unicode_lowercase,
};

verus! {

/// Operating system, as named by `std::env::consts::OS`.
#[derive(Debug, Clone, Copy, PartialEq, Eq, Structural)]
pub enum Os {
    Linux,
    Windows,
    Macos,
    Other,
}

/// The operating system a `std::env::consts::OS` name stands for.
pub open spec fn os_from_name(name: Seq<char>) -> Os {
    if name == "linux"@ {
        Os::Linux
    } else if name == "windows"@ {
        Os::Windows
    } else if name == "macos"@ {
        Os::Macos
    } else {
        Os::Other
    }
}

impl Os {
    /// The operating system named `os_name` (pass `std::env::consts::OS` for
    /// the running one).
    pub fn detect(os_name: &str) -> (r: Os)
        ensures
            r == os_from_name(os_name@),
    {
        if crate::text::same_text(os_name, "linux") {
            Os::Linux
        } else if crate::text::same_text(os_name, "windows") {
            Os::Windows
        } else if crate::text::same_text(os_name, "macos") {
            Os::Macos
        } else {
            Os::Other
        }
    }

    /// The Sven Co-op dedicated server (app 276060) ships only for Windows and
    /// Linux. macOS has no native build.
    pub fn supports_dedicated_server(self) -> (r: bool)
        ensures
            r == (self == Os::Linux || self == Os::Windows),
    {
        match self {
            Os::Linux | Os::Windows => true,
            _ => false,
        }
    }
}

/// Valve's primary CDN for the steamcmd bootstrap.
pub const STEAMCDN_PRIMARY: &'static str = "https://steamcdn-a.akamaihd.net/client/installer";

/// The mirror tried when the primary CDN fails.
pub const STEAMCDN_FALLBACK: &'static str = "http://media.steampowered.com/installer";

/// The steamcmd bootstrap archive for each OS.
pub open spec fn archive_spec(os: Os) -> Option<Seq<char>> {
    match os {
        Os::Linux => Some("steamcmd_linux.tar.gz"@),
        Os::Windows => Some("steamcmd.zip"@),
        Os::Macos => Some("steamcmd_osx.tar.gz"@),
        Os::Other => None,
    }
}

/// The steamcmd bootstrap archive name for this OS (none on unsupported OSes).
pub fn steamcmd_archive(os: Os) -> (r: Option<&'static str>)
    ensures
        match r {
            Some(name) => archive_spec(os) == Some(name@),
            None => archive_spec(os) is None,
        },
{
    match os {
        Os::Linux => Some("steamcmd_linux.tar.gz"),
        Os::Windows => Some("steamcmd.zip"),
        Os::Macos => Some("steamcmd_osx.tar.gz"),
        Os::Other => None,
    }
}

/// The name of the steamcmd executable on `os`.
pub open spec fn steamcmd_exe_spec(os: Os) -> Seq<char> {
    if os == Os::Windows {
        "steamcmd.exe"@
    } else {
        "steamcmd.sh"@
    }
}

/// OS-correct steamcmd layout inside a bundle dir supplied by the caller.
pub struct SteamcmdRunner {
    bundle_dir: PathBuf,
    os: Os,
}

impl SteamcmdRunner {
    /// The bundle dir the runner was made for.
    pub closed spec fn bundle(&self) -> PathBuf {
        self.bundle_dir
    }

    /// The OS the runner lays steamcmd out for.
    pub closed spec fn os_spec(&self) -> Os {
        self.os
    }

    /// A runner for the OS named `os_name` (pass `std::env::consts::OS`).
    pub fn new(bundle_dir: PathBuf, os_name: &str) -> (r: Self)
        ensures
            r.bundle() == bundle_dir,
            r.os_spec() == os_from_name(os_name@),
    {
        Self { bundle_dir, os: Os::detect(os_name) }
    }

    /// A runner for a given OS.
    pub fn with_os(bundle_dir: PathBuf, os: Os) -> (r: Self)
        ensures
            r.bundle() == bundle_dir,
            r.os_spec() == os,
    {
        Self { bundle_dir, os }
    }

    /// The OS the runner lays steamcmd out for.
    pub fn os(&self) -> (r: Os)
        ensures
            r == self.os_spec(),
    {
        self.os
    }

    /// The steamcmd directory (`<bundle>/steamcmd`).
    pub fn steamcmd_dir(&self) -> (r: PathBuf)
        ensures
            r == path_joined(self.bundle(), "steamcmd"@),
    {
        join(&self.bundle_dir, "steamcmd")
    }

    /// Path to the steamcmd executable for this OS
    /// (`<bundle>/steamcmd/steamcmd.exe` on Windows, `.../steamcmd.sh` elsewhere).
    pub fn steamcmd_path(&self) -> (r: PathBuf)
        ensures
            r == path_joined(path_joined(self.bundle(), "steamcmd"@), steamcmd_exe_spec(self.os_spec())),
    {
        let dir = self.steamcmd_dir();
        if self.os == Os::Windows {
            join(&dir, "steamcmd.exe")
        } else {
            join(&dir, "steamcmd.sh")
        }
    }
}

/// Where the ANSI scanner stands: in plain text, just after an escape
/// character, or inside a `ESC [` control sequence.
#[derive(Debug, Clone, Copy, PartialEq, Eq, Structural)]
pub enum AnsiState {
    Text,
    Escape,
    Control,
}

/// The escape character (`\x1b`) that starts an ANSI sequence.
pub open spec fn is_escape(c: char) -> bool {
    c == '\u{1b}'
}

/// Whether `c` is an ASCII letter, the byte that ends a control sequence.
pub open spec fn is_ascii_alpha(c: char) -> bool {
    ('a' <= c && c <= 'z') || ('A' <= c && c <= 'Z')
}

/// The characters of `s` that survive when the scanner starts in `st`. An
/// escape character is dropped with the one after it; when that one is `[`,
/// everything up to and including the next ASCII letter goes too.
pub open spec fn strip_from(s: Seq<char>, st: AnsiState) -> Seq<char>
    decreases s.len(),
{
    if s.len() == 0 {
        Seq::empty()
    } else {
        let c = s[0];
        let rest = s.drop_first();
        match st {
            AnsiState::Text => if is_escape(c) {
                strip_from(rest, AnsiState::Escape)
            } else {
                seq![c] + strip_from(rest, AnsiState::Text)
            },
            AnsiState::Escape => if c == '[' {
                strip_from(rest, AnsiState::Control)
            } else {
                strip_from(rest, AnsiState::Text)
            },
            AnsiState::Control => if is_ascii_alpha(c) {
                strip_from(rest, AnsiState::Text)
            } else {
                strip_from(rest, AnsiState::Control)
            },
        }
    }
}

/// `s` with its ANSI escape sequences (colour codes, cursor moves) removed.
pub open spec fn strip_ansi_spec(s: Seq<char>) -> Seq<char> {
    strip_from(s, AnsiState::Text)
}

/// Strip ANSI escape sequences (colour codes, cursor moves) that steamcmd
/// emits, so the progress line shown in the UI is readable.
pub fn strip_ansi(s: &str) -> (r: String)
    ensures
        r@ == strip_ansi_spec(s@),
{
    let cs = chars_of(s);
    let mut out = String::new();
    let mut st = AnsiState::Text;
    let mut i: usize = 0;
    assert(cs@.skip(0) =~= s@);
    while i < cs.len()
        invariant
            cs@ == s@,
            i <= cs@.len(),
            strip_ansi_spec(s@) == out@ + strip_from(cs@.skip(i as int), st),
        decreases cs@.len() - i,
    {
        let c = cs[i];
        let ghost rest = cs@.skip(i as int);
        assert(rest.drop_first() =~= cs@.skip(i + 1));
        assert(rest[0] == c);
        match st {
            AnsiState::Text => {
                if c == '\u{1b}' {
                    st = AnsiState::Escape;
                } else {
                    let ghost before = out@;
                    push_char(&mut out, c);
                    assert(out@ + strip_from(cs@.skip(i + 1), st) =~= before + (seq![c]
                        + strip_from(cs@.skip(i + 1), st)));
                }
            },
            AnsiState::Escape => {
                if c == '[' {
                    st = AnsiState::Control;
                } else {
                    st = AnsiState::Text;
                }
            },
            AnsiState::Control => {
                if ('a' <= c && c <= 'z') || ('A' <= c && c <= 'Z') {
                    st = AnsiState::Text;
                }
            },
        }
        i = i + 1;
    }
    assert(cs@.skip(i as int) =~= Seq::<char>::empty());
    assert(out@ + Seq::<char>::empty() =~= out@);
    out
}

proof fn lemma_strip_has_no_escape(s: Seq<char>, st: AnsiState)
    ensures
        forall|k: int| 0 <= k < strip_from(s, st).len() ==> !is_escape(#[trigger] strip_from(s, st)[k]),
    decreases s.len(),
{
    if s.len() > 0 {
        let rest = s.drop_first();
        lemma_strip_has_no_escape(rest, AnsiState::Text);
        lemma_strip_has_no_escape(rest, AnsiState::Escape);
        lemma_strip_has_no_escape(rest, AnsiState::Control);
        let next = if st == AnsiState::Text {
            if is_escape(s[0]) {
                AnsiState::Escape
            } else {
                AnsiState::Text
            }
        } else if st == AnsiState::Escape {
            if s[0] == '[' {
                AnsiState::Control
            } else {
                AnsiState::Text
            }
        } else if is_ascii_alpha(s[0]) {
            AnsiState::Text
        } else {
            AnsiState::Control
        };
        let t = strip_from(rest, next);
        if st == AnsiState::Text && !is_escape(s[0]) {
            assert(strip_from(s, st) == seq![s[0]] + t);
            assert forall|k: int| 0 <= k < strip_from(s, st).len() implies !is_escape(
                #[trigger] strip_from(s, st)[k],
            ) by {
                if k > 0 {
                    assert(strip_from(s, st)[k] == t[k - 1]);
                }
            }
        } else {
            assert(strip_from(s, st) == t);
        }
    }
}

proof fn lemma_strip_keeps_plain_text(s: Seq<char>)
    requires
        forall|k: int| 0 <= k < s.len() ==> !is_escape(#[trigger] s[k]),
    ensures
        strip_from(s, AnsiState::Text) == s,
    decreases s.len(),
{
    if s.len() > 0 {
        let rest = s.drop_first();
        assert forall|k: int| 0 <= k < rest.len() implies !is_escape(#[trigger] rest[k]) by {
            assert(rest[k] == s[k + 1]);
        }
        lemma_strip_keeps_plain_text(rest);
        assert(!is_escape(s[0]));
        assert(seq![s[0]] + rest =~= s);
    }
}

/// Law: what `strip_ansi` leaves holds no escape character, so a line
/// shown in the UI carries no colour codes.
pub proof fn stripped_text_has_no_escape(s: Seq<char>)
    ensures
        forall|k: int|
            0 <= k < strip_ansi_spec(s).len() ==> !is_escape(#[trigger] strip_ansi_spec(s)[k]),
{
    lemma_strip_has_no_escape(s, AnsiState::Text);
}

/// Law: text without an escape character comes back from `strip_ansi`
/// unchanged.
pub proof fn plain_text_is_kept(s: Seq<char>)
    requires
        forall|k: int| 0 <= k < s.len() ==> !is_escape(#[trigger] s[k]),
    ensures
        strip_ansi_spec(s) == s,
{
    lemma_strip_keeps_plain_text(s);
}

/// Law: stripping twice is stripping once.
pub proof fn strip_ansi_is_idempotent(s: Seq<char>)
    ensures
        strip_ansi_spec(strip_ansi_spec(s)) == strip_ansi_spec(s),
{
    lemma_strip_has_no_escape(s, AnsiState::Text);
    lemma_strip_keeps_plain_text(strip_ansi_spec(s));
}

proof fn lemma_strip_plain_prefix(a: Seq<char>, s: Seq<char>)
    requires
        forall|k: int| 0 <= k < a.len() ==> !is_escape(#[trigger] a[k]),
    ensures
        strip_from(a + s, AnsiState::Text) == a + strip_from(s, AnsiState::Text),
    decreases a.len(),
{
    if a.len() > 0 {
        let rest = a.drop_first();
        assert forall|k: int| 0 <= k < rest.len() implies !is_escape(#[trigger] rest[k]) by {
            assert(rest[k] == a[k + 1]);
        }
        lemma_strip_plain_prefix(rest, s);
        assert((a + s).drop_first() =~= rest + s);
        assert((a + s)[0] == a[0]);
        assert(a =~= seq![a[0]] + rest);
        assert(seq![a[0]] + (rest + strip_from(s, AnsiState::Text)) =~= a + strip_from(
            s,
            AnsiState::Text,
        ));
    }
}

proof fn lemma_strip_parameters(p: Seq<char>, s: Seq<char>)
    requires
        forall|k: int| 0 <= k < p.len() ==> ('0' <= #[trigger] p[k] <= '9' || p[k] == ';'),
    ensures
        strip_from(p + s, AnsiState::Control) == strip_from(s, AnsiState::Control),
    decreases p.len(),
{
    if p.len() > 0 {
        let rest = p.drop_first();
        assert forall|k: int| 0 <= k < rest.len() implies ('0' <= #[trigger] rest[k] <= '9'
            || rest[k] == ';') by {
            assert(rest[k] == p[k + 1]);
        }
        lemma_strip_parameters(rest, s);
        assert((p + s).drop_first() =~= rest + s);
        assert((p + s)[0] == p[0]);
        assert('0' <= p[0] <= '9' || p[0] == ';');
    }
}

/// Law: a control sequence (`ESC [`, then digits and `;`, ended by any
/// ASCII letter: a colour code, a cursor move, an erase-line code) is
/// removed whole, and what stands before and after it is kept as it is.
pub proof fn control_sequence_is_removed(
    before: Seq<char>,
    params: Seq<char>,
    letter: char,
    after: Seq<char>,
)
    requires
        forall|k: int| 0 <= k < before.len() ==> !is_escape(#[trigger] before[k]),
        forall|k: int|
            0 <= k < params.len() ==> ('0' <= #[trigger] params[k] <= '9' || params[k] == ';'),
        ('a' <= letter <= 'z') || ('A' <= letter <= 'Z'),
    ensures
        strip_ansi_spec(before + seq!['\u{1b}', '['] + params + seq![letter] + after) == before
            + strip_ansi_spec(after),
{
    let tail = seq!['\u{1b}', '['] + params + seq![letter] + after;
    assert(before + seq!['\u{1b}', '['] + params + seq![letter] + after =~= before + tail);
    lemma_strip_plain_prefix(before, tail);
    let ctl = params + (seq![letter] + after);
    assert(tail.drop_first().drop_first() =~= ctl);
    assert(tail[0] == '\u{1b}');
    assert(tail.drop_first()[0] == '[');
    assert(strip_from(tail, AnsiState::Text) == strip_from(tail.drop_first(), AnsiState::Escape));
    assert(strip_from(tail.drop_first(), AnsiState::Escape) == strip_from(ctl, AnsiState::Control));
    lemma_strip_parameters(params, seq![letter] + after);
    let la = seq![letter] + after;
    assert(la.drop_first() =~= after);
    assert(la[0] == letter);
    assert(strip_from(la, AnsiState::Control) == strip_from(after, AnsiState::Text));
}

/// Law: an escape character followed by anything but `[` is removed
/// together with that one character; the text around them is kept.
pub proof fn bare_escape_is_removed(before: Seq<char>, c: char, after: Seq<char>)
    requires
        forall|k: int| 0 <= k < before.len() ==> !is_escape(#[trigger] before[k]),
        c != '[',
    ensures
        strip_ansi_spec(before + seq!['\u{1b}', c] + after) == before + strip_ansi_spec(after),
{
    let tail = seq!['\u{1b}', c] + after;
    assert(before + seq!['\u{1b}', c] + after =~= before + tail);
    lemma_strip_plain_prefix(before, tail);
    assert(tail[0] == '\u{1b}');
    assert(tail.drop_first()[0] == c);
    assert(tail.drop_first().drop_first() =~= after);
    assert(strip_from(tail, AnsiState::Text) == strip_from(tail.drop_first(), AnsiState::Escape));
}

/// Law: a line that opens with a control sequence ended by any ASCII letter,
/// followed by plain text, reads as that text.
pub proof fn leading_control_sequence_leaves_text(params: Seq<char>, letter: char, text: Seq<char>)
    requires
        forall|k: int|
            0 <= k < params.len() ==> ('0' <= #[trigger] params[k] <= '9' || params[k] == ';'),
        ('a' <= letter <= 'z') || ('A' <= letter <= 'Z'),
        forall|k: int| 0 <= k < text.len() ==> !is_escape(#[trigger] text[k]),
    ensures
        strip_ansi_spec(seq!['\u{1b}', '['] + params + seq![letter] + text) == text,
{
    let empty = Seq::<char>::empty();
    control_sequence_is_removed(empty, params, letter, text);
    assert(empty + seq!['\u{1b}', '['] + params + seq![letter] + text =~= seq!['\u{1b}', '[']
        + params + seq![letter] + text);
    lemma_strip_keeps_plain_text(text);
    assert(empty + text =~= text);
}

/// A character that may belong to the percent figure of a progress line.
pub open spec fn is_number_char(c: char) -> bool {
    is_digit(c) || c == '.' || c == '-'
}

/// How many leading characters of `s` may belong to a number.
pub open spec fn number_len(s: Seq<char>) -> nat
    decreases s.len(),
{
    if s.len() > 0 && is_number_char(s[0]) {
        1 + number_len(s.drop_first())
    } else {
        0
    }
}

/// `s` without its trailing commas (`trim_end_matches(',')`).
pub open spec fn trim_commas_end(s: Seq<char>) -> Seq<char>
    decreases s.len(),
{
    if s.len() > 0 && s.last() == ',' {
        trim_commas_end(s.drop_last())
    } else {
        s
    }
}

/// The `(cur / total)` byte counts in the text after the percent figure: the
/// first `(`, the first `)` after it, and the two unsigned integers around
/// the first `/` between them, each trimmed.
pub open spec fn byte_counts_spec(after: Seq<char>) -> Option<(nat, nat)> {
    match find_spec(after, seq!['(']) {
        None => None,
        Some(open) => match find_spec(after.skip(open), seq![')']) {
            None => None,
            Some(close) => {
                let inside = trim_spec(after.subrange(open + 1, open + close));
                match find_spec(inside, seq!['/']) {
                    None => None,
                    Some(slash) => {
                        let cur = parse_uint_spec(trim_spec(inside.take(slash)), u64::MAX as nat);
                        let total = parse_uint_spec(
                            trim_spec(inside.skip(slash + 1)),
                            u64::MAX as nat,
                        );
                        if cur is Some && total is Some {
                            Some((cur->0, total->0))
                        } else {
                            None
                        }
                    },
                }
            },
        },
    }
}

/// The update-state verb of a progress line: the text between the first `)`
/// after `Update state` and the next `progress:`, trimmed and without
/// trailing commas; none when absent or empty.
pub open spec fn update_state_spec(clean: Seq<char>) -> Option<Seq<char>> {
    match find_spec(clean, "Update state"@) {
        None => None,
        Some(start) => {
            let after = clean.skip(start);
            match find_spec(after, seq![')']) {
                None => None,
                Some(close) => match find_spec(after.skip(close + 1), "progress:"@) {
                    None => None,
                    Some(e) => {
                        let verb = trim_spec(
                            trim_commas_end(trim_spec(after.subrange(close + 1, close + 1 + e))),
                        );
                        if verb.len() == 0 {
                            None
                        } else {
                            Some(verb)
                        }
                    },
                },
            }
        },
    }
}

/// What a steamcmd progress line holds, once ANSI codes are stripped: after
/// the first `progress:` and its whitespace, the percent figure (the run of
/// digits, `.` and `-`), then the optional `(cur / total)` byte counts (none
/// when they are absent or do not read as two unsigned integers), and the
/// update-state verb. None for a line without `progress:`.
pub open spec fn progress_scan_spec(line: Seq<char>) -> Option<
    (Seq<char>, Option<(nat, nat)>, Option<Seq<char>>),
> {
    let clean = strip_ansi_spec(line);
    match find_spec(clean, "progress:"@) {
        None => None,
        Some(p) => {
            let rest = trim_start_spec(clean.skip(p + "progress:"@.len()));
            let end = number_len(rest) as int;
            Some((rest.take(end), byte_counts_spec(rest.skip(end)), update_state_spec(clean)))
        },
    }
}

/// What a steamcmd progress line holds: the percent figure as written
/// (its value is read as a float by the caller), the optional byte counts
/// (both present or both absent) and the update-state verb (e.g.
/// "downloading", "verifying install").
#[derive(Debug)]
pub struct ProgressScan {
    pub pct_text: String,
    pub cur_bytes: Option<u64>,
    pub total_bytes: Option<u64>,
    pub state: Option<String>,
}

/// The byte counts a scan holds, as numbers.
pub open spec fn scan_counts(cur: Option<u64>, total: Option<u64>) -> Option<(nat, nat)> {
    match (cur, total) {
        (Some(c), Some(t)) => Some((c as nat, t as nat)),
        _ => None,
    }
}

/// The characters of an optional string.
pub open spec fn opt_chars(s: Option<String>) -> Option<Seq<char>> {
    match s {
        Some(t) => Some(t@),
        None => None,
    }
}

fn parse_u64_trimmed(cs: &[char], from: usize, to: usize) -> (r: Option<u64>)
    requires
        from <= to <= cs@.len(),
    ensures
        match r {
            Some(v) => parse_uint_spec(trim_spec(cs@.subrange(from as int, to as int)), u64::MAX as nat)
                == Some(v as nat),
            None => parse_uint_spec(trim_spec(cs@.subrange(from as int, to as int)), u64::MAX as nat)
                is None,
        },
{
    let (x, y) = trim_bounds(cs, from, to);
    parse_uint(cs, x, y, u64::MAX)
}

/// The byte counts in `cs[from..to]`.
fn byte_counts(cs: &[char], from: usize, to: usize) -> (r: Option<(u64, u64)>)
    requires
        from <= to <= cs@.len(),
    ensures
        match r {
            Some(c) => byte_counts_spec(cs@.subrange(from as int, to as int)) == Some(
                (c.0 as nat, c.1 as nat),
            ),
            None => byte_counts_spec(cs@.subrange(from as int, to as int)) is None,
        },
{
    let ghost after = cs@.subrange(from as int, to as int);
    let open_paren: Vec<char> = vec!['('];
    let close_paren: Vec<char> = vec![')'];
    let slash_char: Vec<char> = vec!['/'];
    assert(open_paren@ =~= seq!['(']);
    assert(close_paren@ =~= seq![')']);
    assert(slash_char@ =~= seq!['/']);
    let o = match find_text(cs, from, to, open_paren.as_slice()) {
        Some(o) => o,
        None => return None,
    };
    let ghost open = o - from;
    assert(after.skip(open) =~= cs@.subrange(o as int, to as int));
    let c = match find_text(cs, o, to, close_paren.as_slice()) {
        Some(c) => c,
        None => return None,
    };
    let ghost close = c - o;
    assert(cs@.subrange(o as int, o + 1)[0] == '(');
    assert(cs@.subrange(c as int, c + 1)[0] == ')');
    assert(c != o);
    assert(after.subrange(open + 1, open + close) =~= cs@.subrange(o + 1, c as int));
    let (x, y) = trim_bounds(cs, o + 1, c);
    let ghost inside = cs@.subrange(x as int, y as int);
    let sl = match find_text(cs, x, y, slash_char.as_slice()) {
        Some(sl) => sl,
        None => return None,
    };
    let ghost slash = sl - x;
    assert(inside.take(slash) =~= cs@.subrange(x as int, sl as int));
    assert(inside.skip(slash + 1) =~= cs@.subrange(sl + 1, y as int));
    let cur = parse_u64_trimmed(cs, x, sl);
    let total = parse_u64_trimmed(cs, sl + 1, y);
    match (cur, total) {
        (Some(a), Some(b)) => Some((a, b)),
        _ => None,
    }
}

/// The update-state verb of the stripped line `cs`.
fn update_state(cs: &[char]) -> (r: Option<String>)
    ensures
        opt_chars(r) == update_state_spec(cs@),
{
    let n = cs.len();
    assert(cs@.subrange(0, n as int) =~= cs@);
    let marker = chars_of("Update state");
    let progress = chars_of("progress:");
    let close_paren: Vec<char> = vec![')'];
    assert(close_paren@ =~= seq![')']);
    let start = match find_text(cs, 0, n, marker.as_slice()) {
        Some(s) => s,
        None => return None,
    };
    let ghost after = cs@.skip(start as int);
    assert(after =~= cs@.subrange(start as int, n as int));
    let c = match find_text(cs, start, n, close_paren.as_slice()) {
        Some(c) => c,
        None => return None,
    };
    let ghost close = c - start;
    assert(after.skip(close + 1) =~= cs@.subrange(c + 1, n as int));
    let e = match find_text(cs, c + 1, n, progress.as_slice()) {
        Some(e) => e,
        None => return None,
    };
    let ghost rel = e - (c + 1);
    assert(after.subrange(close + 1, close + 1 + rel) =~= cs@.subrange(c + 1, e as int));
    let (x, y) = trim_bounds(cs, c + 1, e);
    let mut z = y;
    while z > x && cs[z - 1] == ','
        invariant
            x <= z <= y <= cs@.len(),
            trim_commas_end(cs@.subrange(x as int, y as int)) == trim_commas_end(
                cs@.subrange(x as int, z as int),
            ),
        decreases z - x,
    {
        assert(cs@.subrange(x as int, z as int).drop_last() =~= cs@.subrange(x as int, z - 1));
        z = z - 1;
    }
    assert(trim_commas_end(cs@.subrange(x as int, z as int)) == cs@.subrange(x as int, z as int));
    let (x2, y2) = trim_bounds(cs, x, z);
    if x2 == y2 {
        None
    } else {
        Some(string_of(cs, x2, y2))
    }
}

/// Scan a steamcmd progress line. steamcmd emits:
///   `Update state (0x61) downloading, progress: 92.78 (2540760050 / 2738389637)`
/// where `92.78` is already a percent and the parens hold `cur / total` bytes.
/// Handles ANSI-wrapped lines; the byte counts are optional. Returns None for
/// lines without progress info.
pub fn scan_progress(line: &str) -> (r: Option<ProgressScan>)
    ensures
        match r {
            Some(p) => progress_scan_spec(line@) == Some(
                (p.pct_text@, scan_counts(p.cur_bytes, p.total_bytes), opt_chars(p.state)),
            ) && (p.cur_bytes is Some <==> p.total_bytes is Some),
            None => progress_scan_spec(line@) is None,
        },
{
    let clean = strip_ansi(line);
    let cs = chars_of(clean.as_str());
    let n = cs.len();
    assert(cs@.subrange(0, n as int) =~= cs@);
    let progress = chars_of("progress:");
    let p = match find_text(cs.as_slice(), 0, n, progress.as_slice()) {
        Some(p) => p,
        None => return None,
    };
    let q = p + progress.len();
    assert(cs@.skip(q as int) =~= cs@.subrange(q as int, n as int));
    let q2 = skip_white(cs.as_slice(), q, n);
    let ghost rest = cs@.subrange(q2 as int, n as int);
    let mut e = q2;
    while e < n && (('0' <= cs[e] && cs[e] <= '9') || cs[e] == '.' || cs[e] == '-')
        invariant
            q2 <= e <= n,
            n == cs@.len(),
            rest == cs@.subrange(q2 as int, n as int),
            number_len(rest) == (e - q2) + number_len(cs@.subrange(e as int, n as int)),
        decreases n - e,
    {
        assert(cs@.subrange(e as int, n as int).drop_first() =~= cs@.subrange(e + 1, n as int));
        e = e + 1;
    }
    assert(number_len(cs@.subrange(e as int, n as int)) == 0);
    assert(rest.skip(e - q2) =~= cs@.subrange(e as int, n as int));
    assert(rest.take(e - q2) =~= cs@.subrange(q2 as int, e as int));
    let (cur_bytes, total_bytes) = match byte_counts(cs.as_slice(), e, n) {
        Some(c) => (Some(c.0), Some(c.1)),
        None => (None, None),
    };
    let state = update_state(cs.as_slice());
    Some(ProgressScan { pct_text: string_of(cs.as_slice(), q2, e), cur_bytes, total_bytes, state })
}

/// The unit a byte count is shown in: the largest of TB, GB, MB and KB
/// (powers of 1000) that it reaches, with that unit's size in bytes; none
/// below a kilobyte, where the count is shown in plain bytes.
pub open spec fn byte_unit_spec(b: u64) -> Option<(Seq<char>, u64)> {
    if b >= 1_000_000_000_000 {
        Some(("TB"@, 1_000_000_000_000))
    } else if b >= 1_000_000_000 {
        Some(("GB"@, 1_000_000_000))
    } else if b >= 1_000_000 {
        Some(("MB"@, 1_000_000))
    } else if b >= 1_000 {
        Some(("KB"@, 1_000))
    } else {
        None
    }
}

/// The unit `b` bytes are shown in, and its size (e.g. "GB" and 10^9 for
/// 2.5 GB); `None` for fewer than 1000 bytes.
pub fn byte_unit(b: u64) -> (r: Option<(&'static str, u64)>)
    ensures
        match r {
            Some(u) => byte_unit_spec(b) == Some((u.0@, u.1)),
            None => byte_unit_spec(b) is None,
        },
{
    if b >= 1_000_000_000_000 {
        Some(("TB", 1_000_000_000_000))
    } else if b >= 1_000_000_000 {
        Some(("GB", 1_000_000_000))
    } else if b >= 1_000_000 {
        Some(("MB", 1_000_000))
    } else if b >= 1_000 {
        Some(("KB", 1_000))
    } else {
        None
    }
}

/// How a steamcmd bootstrap archive is packed.
#[derive(Debug, Clone, Copy, PartialEq, Eq, Structural)]
pub enum ArchiveKind {
    /// A gzip-compressed tar archive (Linux, macOS).
    TarGz,
    /// A zip archive (Windows).
    Zip,
}

/// How the bootstrap archive for `os` is packed (none on unsupported OSes:
/// "no steamcmd archive for unsupported OS").
pub fn archive_kind(os: Os) -> (r: Option<ArchiveKind>)
    ensures
        r == (match os {
            Os::Linux | Os::Macos => Some(ArchiveKind::TarGz),
            Os::Windows => Some(ArchiveKind::Zip),
            Os::Other => None,
        }),
{
    match os {
        Os::Linux | Os::Macos => Some(ArchiveKind::TarGz),
        Os::Windows => Some(ArchiveKind::Zip),
        Os::Other => None,
    }
}

/// The URLs the bootstrap archive is downloaded from, in the order tried:
/// the primary CDN, then the mirror.
pub fn download_urls(archive_name: &str) -> (r: Vec<String>)
    ensures
        strings_view(r@) == seq![
            STEAMCDN_PRIMARY@ + "/"@ + archive_name@,
            STEAMCDN_FALLBACK@ + "/"@ + archive_name@,
        ],
{
    let mut primary = String::new();
    push_str(&mut primary, STEAMCDN_PRIMARY);
    push_str(&mut primary, "/");
    push_str(&mut primary, archive_name);
    let mut fallback = String::new();
    push_str(&mut fallback, STEAMCDN_FALLBACK);
    push_str(&mut fallback, "/");
    push_str(&mut fallback, archive_name);
    assert(primary@ =~= STEAMCDN_PRIMARY@ + "/"@ + archive_name@);
    assert(fallback@ =~= STEAMCDN_FALLBACK@ + "/"@ + archive_name@);
    let mut out: Vec<String> = Vec::new();
    out.push(primary);
    out.push(fallback);
    assert(strings_view(out@) =~= seq![primary@, fallback@]);
    out
}

/// The steamcmd arguments that pull the dedicated server (app 276060) into
/// `install_dir` with anonymous login: `+force_install_dir` comes before
/// `+login`, or steamcmd exits 8 ("Please use force_install_dir before
/// logon!").
pub open spec fn pull_args_spec(install_dir: Seq<char>) -> Seq<Seq<char>> {
    seq![
        "+force_install_dir "@ + install_dir,
        "+login"@,
        "anonymous"@,
        "+app_update"@,
        "276060"@,
        "validate"@,
        "+quit"@,
    ]
}

/// The steamcmd command line that pulls the dedicated server into the
/// directory shown as `install_dir`.
pub fn steamcmd_pull_args(install_dir: &str) -> (r: Vec<String>)
    ensures
        strings_view(r@) == pull_args_spec(install_dir@),
{
    let mut first = String::new();
    push_str(&mut first, "+force_install_dir ");
    push_str(&mut first, install_dir);
    assert(first@ =~= "+force_install_dir "@ + install_dir@);
    let mut out: Vec<String> = Vec::new();
    out.push(first);
    out.push(owned("+login"));
    out.push(owned("anonymous"));
    out.push(owned("+app_update"));
    out.push(owned("276060"));
    out.push(owned("validate"));
    out.push(owned("+quit"));
    assert(strings_view(out@) =~= pull_args_spec(install_dir@));
    out
}

/// The lines of a piece of steamcmd console output that are shown: the
/// piece without trailing whitespace, split as `str::lines` splits it, each
/// line with its ANSI codes removed.
pub open spec fn console_lines_spec(chunk: Seq<char>) -> Seq<Seq<char>> {
    lines_spec(trim_end_spec(chunk)).map_values(|l: Seq<char>| strip_ansi_spec(l))
}

/// The lines of a piece of steamcmd console output, ready for the progress
/// callback.
pub fn console_lines(chunk: &str) -> (r: Vec<String>)
    ensures
        strings_view(r@) == console_lines_spec(chunk@),
{
    let cs = chars_of(chunk);
    let end = trim_end_index(cs.as_slice(), 0, cs.len());
    assert(cs@.subrange(0, cs@.len() as int) =~= chunk@);
    let head = chars_between(cs.as_slice(), 0, end);
    let ranges = line_ranges(head.as_slice());
    let ghost want = console_lines_spec(chunk@);
    let ghost lv = ranges_view(head@, ranges@);
    let mut out: Vec<String> = Vec::new();
    let mut k: usize = 0;
    while k < ranges.len()
        invariant
            k <= ranges@.len(),
            lv == ranges_view(head@, ranges@),
            lv == lines_spec(trim_end_spec(chunk@)),
            crate::text::ranges_within(head@.len(), ranges@),
            want == console_lines_spec(chunk@),
            out@.len() == k,
            forall|x: int| 0 <= x < k ==> #[trigger] out@[x]@ == strip_ansi_spec(lv[x]),
        decreases ranges@.len() - k,
    {
        let (a, b) = ranges[k];
        assert(ranges@[k as int].0 <= ranges@[k as int].1 <= head@.len());
        let line = string_of(head.as_slice(), a, b);
        assert(line@ == lv[k as int]);
        out.push(strip_ansi(line.as_str()));
        k = k + 1;
    }
    assert(strings_view(out@) =~= want);
    out
}

/// The 32-bit packages steamcmd and the DS need on Debian-family Linux.
pub const LINUX_32BIT_PACKAGES: [&'static str; 3] = ["lib32z1", "lib32gcc-s1", "lib32stdc++6"];

/// Whether a `steamcmd +quit` probe (its stdout and stderr, joined by a line
/// break) shows missing 32-bit loader libraries: once lowercased, it says
/// "cannot open shared object" or "error while loading shared libraries".
pub open spec fn needs_32bit_libs_spec(stdout: Seq<char>, stderr: Seq<char>) -> bool {
    let probe = unicode_lowercase(stdout + seq!['\n'] + stderr);
    contains_text(probe, "cannot open shared object"@) || contains_text(
        probe,
        "error while loading shared libraries"@,
    )
}

/// Whether the probe output shows that steamcmd is missing its 32-bit
/// loader libraries.
pub fn needs_32bit_libs(stdout: &str, stderr: &str) -> (r: bool)
    ensures
        r == needs_32bit_libs_spec(stdout@, stderr@),
{
    let mut probe = String::new();
    push_str(&mut probe, stdout);
    push_char(&mut probe, '\n');
    push_str(&mut probe, stderr);
    assert(probe@ =~= stdout@ + seq!['\n'] + stderr@);
    let low = to_lowercase(probe.as_str());
    contains_str(low.as_str(), "cannot open shared object") || contains_str(
        low.as_str(),
        "error while loading shared libraries",
    )
}

} // verus!
