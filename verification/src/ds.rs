//! The Sven Co-op dedicated server's decisions: its start arguments and
//! lifecycle phase, where its executable may be installed, which maps it
//! has, the soundcache files it needs and the default map rotation.
//!
//! All paths resolve from a bundle dir; the Steam install candidates are
//! expanded from the user's home / ProgramFiles, not hardcoded.
use std::path::PathBuf;
use vstd::prelude::*;

use crate::game::strings_view;
use crate::paths::{from_text, join, path_from_text, path_joined};
use crate::steamcmd::Os;
use crate::text::{
    decimal, owned, push_decimal,
    chars_between, chars_of, last_index_spec, lemma_last_index_bound, lemma_lex_total,
    lemma_lex_trans, lemma_lines_have_no_newline, lemma_lines_of_concat, lemma_trim_without_cr,
    lex_less, lex_lt, line_ranges, lines_spec, no_newline, push_char, push_chars, push_str,
    range_is, ranges_view, ranges_within, rfind_char, same_chars, string_of, trim_bounds,
    trim_spec, without_cr,
};

verus! {

/// Startup parameters for the dedicated server.
#[derive(Debug)]
pub struct DsStartArgs {
    /// UDP port the DS listens on (GoldSrc port, default 27015).
    pub port: u16,
    /// Max players (default 8).
    pub maxplayers: u32,
    /// Starting map (default svencoop1).
    pub map: String,
    /// Where to install/look for the DS. Defaults to `<bundle>/svends` if None.
    pub install_dir: Option<PathBuf>,
    /// Enable `sv_cheats` at startup.
    pub sv_cheats: bool,
}

/// A copy of an optional path.
pub fn clone_opt_path(p: &Option<PathBuf>) -> (r: Option<PathBuf>)
    ensures
        r == *p,
{
    match p {
        Some(q) => Some(q.clone()),
        None => None,
    }
}

impl Clone for DsStartArgs {
    fn clone(&self) -> (r: Self)
        ensures
            r == *self,
    {
        DsStartArgs {
            port: self.port,
            maxplayers: self.maxplayers,
            map: self.map.clone(),
            install_dir: clone_opt_path(&self.install_dir),
            sv_cheats: self.sv_cheats,
        }
    }
}

impl Default for DsStartArgs {
    fn default() -> (r: Self)
        ensures
            r.port == 27015,
            r.maxplayers == 8,
            r.map@ == "svencoop1"@,
            r.install_dir is None,
            !r.sv_cheats,
    {
        let mut map = String::new();
        crate::text::push_str(&mut map, "svencoop1");
        assert(map@ =~= "svencoop1"@);
        DsStartArgs { port: 27015, maxplayers: 8, map, install_dir: None, sv_cheats: false }
    }
}

/// Lifecycle phase of the dedicated server, surfaced to the UI so the
/// operator can tell a ~2.74 GB steamcmd pull from a running server.
#[derive(Debug, Clone, Copy, PartialEq, Eq, Structural)]
pub enum DsPhase {
    Idle,
    Pulling,
    Starting,
    Running,
    Error,
}

impl Default for DsPhase {
    fn default() -> (r: Self)
        ensures
            r == DsPhase::Idle,
    {
        DsPhase::Idle
    }
}

impl DsPhase {
    /// Whether a start/pull is in flight or the DS is running.
    pub open spec fn is_active_spec(self) -> bool {
        self == DsPhase::Pulling || self == DsPhase::Starting || self == DsPhase::Running
    }

    /// Whether a start/pull is in flight or the DS is running (a second
    /// start is refused then: "already starting/running; stop it first").
    pub fn is_active(self) -> (r: bool)
        ensures
            r == self.is_active_spec(),
    {
        match self {
            DsPhase::Pulling | DsPhase::Starting | DsPhase::Running => true,
            _ => false,
        }
    }

    /// Whether the download percent survives a move to this phase (only a
    /// pull keeps it).
    pub fn keeps_progress(self) -> (r: bool)
        ensures
            r == (self == DsPhase::Pulling),
    {
        match self {
            DsPhase::Pulling => true,
            _ => false,
        }
    }

    /// The lowercase name the UI shows (`idle`, `pulling`, ...).
    pub fn label(self) -> (r: &'static str)
        ensures
            r@ == (match self {
                DsPhase::Idle => "idle"@,
                DsPhase::Pulling => "pulling"@,
                DsPhase::Starting => "starting"@,
                DsPhase::Running => "running"@,
                DsPhase::Error => "error"@,
            }),
    {
        match self {
            DsPhase::Idle => "idle",
            DsPhase::Pulling => "pulling",
            DsPhase::Starting => "starting",
            DsPhase::Running => "running",
            DsPhase::Error => "error",
        }
    }

    /// The status a poll reports: whether the DS runs, and its phase. A
    /// `Running` phase whose child has exited reads as `Idle`.
    pub fn observed(self, child_alive: bool) -> (r: (bool, DsPhase))
        ensures
            r.1 == (if !child_alive && self == DsPhase::Running {
                DsPhase::Idle
            } else {
                self
            }),
            r.0 == (child_alive && r.1 == DsPhase::Running),
    {
        let phase = if !child_alive && self == DsPhase::Running {
            DsPhase::Idle
        } else {
            self
        };
        (child_alive && phase == DsPhase::Running, phase)
    }
}

/// The dedicated server executable's name on `os`.
pub open spec fn svends_exe_spec(os: Os) -> Seq<char> {
    if os == Os::Windows {
        "svends.exe"@
    } else {
        "svends_run"@
    }
}

/// The dedicated server executable's name on `os`.
pub fn svends_exe_name(os: Os) -> (r: &'static str)
    ensures
        r@ == svends_exe_spec(os),
{
    if os == Os::Windows {
        "svends.exe"
    } else {
        "svends_run"
    }
}

/// The default install dir: `<bundle>/svends`.
pub fn default_install_dir(bundle_dir: &PathBuf) -> (r: PathBuf)
    ensures
        r == path_joined(*bundle_dir, "svends"@),
{
    join(bundle_dir, "svends")
}

/// The file that remembers the last install path: `<bundle>/.svends_path`.
pub fn svends_path_marker(bundle_dir: &PathBuf) -> (r: PathBuf)
    ensures
        r == path_joined(*bundle_dir, ".svends_path"@),
{
    join(bundle_dir, ".svends_path")
}

/// The install dir a start uses: the one asked for, else `<bundle>/svends`.
pub fn install_dir_for(args: &DsStartArgs, bundle_dir: &PathBuf) -> (r: PathBuf)
    ensures
        r == (match args.install_dir {
            Some(d) => d,
            None => path_joined(*bundle_dir, "svends"@),
        }),
{
    match &args.install_dir {
        Some(d) => d.clone(),
        None => default_install_dir(bundle_dir),
    }
}

/// The map a file in a `maps` dir holds: the stem of a file whose
/// extension (the text after the last dot, when that dot is not the first
/// character) is `bsp`.
pub open spec fn map_name_spec(file_name: Seq<char>) -> Option<Seq<char>> {
    match last_index_spec(file_name, '.') {
        Some(dot) => if dot > 0 && file_name.skip(dot + 1 as int) == "bsp"@ {
            Some(file_name.take(dot as int))
        } else {
            None
        },
        None => None,
    }
}

/// The characters of an optional character vector.
pub open spec fn opt_vec_view(v: Option<Vec<char>>) -> Option<Seq<char>> {
    match v {
        Some(x) => Some(x@),
        None => None,
    }
}

fn map_name_chars(file_name: &str) -> (r: Option<Vec<char>>)
    ensures
        opt_vec_view(r) == map_name_spec(file_name@),
{
    let cs = chars_of(file_name);
    let bsp = chars_of("bsp");
    match rfind_char(cs.as_slice(), '.') {
        Some(dot) => {
            proof {
                lemma_last_index_bound(cs@, '.');
            }
            assert(dot < cs@.len());
            let ext = chars_between(cs.as_slice(), dot + 1, cs.len());
            assert(ext@ =~= cs@.skip(dot + 1 as int));
            if dot > 0 && same_chars(ext.as_slice(), bsp.as_slice()) {
                let stem = chars_between(cs.as_slice(), 0, dot);
                assert(stem@ =~= cs@.take(dot as int));
                Some(stem)
            } else {
                None
            }
        },
        None => None,
    }
}

/// The map a `maps` dir entry named `file_name` holds, if it is a `.bsp`.
pub fn map_name_of(file_name: &str) -> (r: Option<String>)
    ensures
        match r {
            Some(m) => map_name_spec(file_name@) == Some(m@),
            None => map_name_spec(file_name@) is None,
        },
{
    match map_name_chars(file_name) {
        Some(v) => Some(string_of(v.as_slice(), 0, v.len())),
        None => None,
    }
}

/// Whether `m` is the map of one of the file names in `names`.
pub open spec fn map_listed(names: Seq<String>, m: Seq<char>) -> bool {
    exists|k: int| 0 <= k < names.len() && map_name_spec(#[trigger] names[k]@) == Some(m)
}

/// Whether each string of `v` comes before the next.
pub open spec fn strictly_sorted(v: Seq<Seq<char>>) -> bool {
    forall|i: int, j: int| 0 <= i < j < v.len() ==> lex_less(#[trigger] v[i], #[trigger] v[j])
}

/// The characters of each vector in `v`.
pub open spec fn char_vecs_view(v: Seq<Vec<char>>) -> Seq<Seq<char>> {
    v.map_values(|x: Vec<char>| x@)
}

/// List installed maps from the file names found in `<install>/svencoop/maps/`
/// and `<install>/svencoop_addon/maps/`: every `.bsp` file's stem, sorted,
/// each once.
pub fn list_maps(names: &Vec<String>) -> (r: Vec<String>)
    ensures
        strictly_sorted(strings_view(r@)),
        forall|m: Seq<char>| strings_view(r@).contains(m) <==> map_listed(names@, m),
{
    let mut maps: Vec<Vec<char>> = Vec::new();
    let mut i: usize = 0;
    while i < names.len()
        invariant
            i <= names@.len(),
            strictly_sorted(char_vecs_view(maps@)),
            forall|m: Seq<char>|
                char_vecs_view(maps@).contains(m) <==> (exists|k: int|
                    0 <= k < i && map_name_spec(#[trigger] names@[k]@) == Some(m)),
        decreases names@.len() - i,
    {
        let ghost before = char_vecs_view(maps@);
        match map_name_chars(names[i].as_str()) {
            None => {
                assert forall|m: Seq<char>| char_vecs_view(maps@).contains(m) <==> (exists|k: int|
                    0 <= k < i + 1 && map_name_spec(#[trigger] names@[k]@) == Some(m)) by {
                    if exists|k: int| 0 <= k < i + 1 && map_name_spec(#[trigger] names@[k]@) == Some(m) {
                        let k = choose|k: int| 0 <= k < i + 1 && map_name_spec(#[trigger] names@[k]@) == Some(m);
                        assert(k != i);
                    }
                }
            },
            Some(stem) => {
                let mut j: usize = 0;
                while j < maps.len() && lex_lt(maps[j].as_slice(), stem.as_slice())
                    invariant
                        j <= maps@.len(),
                        before == char_vecs_view(maps@),
                        forall|k: int| 0 <= k < j ==> lex_less(#[trigger] before[k], stem@),
                    decreases maps@.len() - j,
                {
                    j = j + 1;
                }
                let present = j < maps.len() && same_chars(maps[j].as_slice(), stem.as_slice());
                if !present {
                    let ghost sv = stem@;
                    proof {
                        if j < before.len() {
                            lemma_lex_total(before[j as int], sv);
                        }
                        assert forall|k: int| j <= k < before.len() implies lex_less(sv, #[trigger] before[k]) by {
                            lemma_lex_total(before[j as int], sv);
                            if k > j {
                                lemma_lex_trans(sv, before[j as int], before[k]);
                            }
                        }
                    }
                    maps.insert(j, stem);
                    let ghost after = char_vecs_view(maps@);
                    assert(after =~= before.insert(j as int, sv));
                    assert forall|a: int, b: int| 0 <= a < b < after.len() implies lex_less(#[trigger] after[a], #[trigger] after[b]) by {
                        if b < j {
                        } else if b == j {
                        } else if a < j {
                            assert(lex_less(before[a], sv));
                            assert(lex_less(sv, before[b - 1]));
                            lemma_lex_trans(before[a], sv, before[b - 1]);
                        } else if a == j {
                        } else {
                            assert(after[a] == before[a - 1]);
                            assert(after[b] == before[b - 1]);
                        }
                    }
                    assert forall|m: Seq<char>| after.contains(m) <==> (exists|k: int|
                        0 <= k < i + 1 && map_name_spec(#[trigger] names@[k]@) == Some(m)) by {
                        if after.contains(m) {
                            let x = choose|x: int| 0 <= x < after.len() && after[x] == m;
                            if x == j {
                                assert(map_name_spec(names@[i as int]@) == Some(m));
                            } else if x < j {
                                assert(before.contains(m));
                            } else {
                                assert(before[x - 1] == m);
                                assert(before.contains(m));
                            }
                        }
                        if exists|k: int| 0 <= k < i + 1 && map_name_spec(#[trigger] names@[k]@) == Some(m) {
                            let k = choose|k: int| 0 <= k < i + 1 && map_name_spec(#[trigger] names@[k]@) == Some(m);
                            if k == i {
                                assert(after[j as int] == m);
                            } else {
                                assert(before.contains(m));
                                let x = choose|x: int| 0 <= x < before.len() && before[x] == m;
                                if x < j {
                                    assert(after[x] == m);
                                } else {
                                    assert(after[x + 1] == m);
                                }
                            }
                        }
                    }
                } else {
                    assert(before[j as int] == stem@);
                    assert forall|m: Seq<char>| char_vecs_view(maps@).contains(m) <==> (exists|k: int|
                        0 <= k < i + 1 && map_name_spec(#[trigger] names@[k]@) == Some(m)) by {
                        if exists|k: int| 0 <= k < i + 1 && map_name_spec(#[trigger] names@[k]@) == Some(m) {
                            let k = choose|k: int| 0 <= k < i + 1 && map_name_spec(#[trigger] names@[k]@) == Some(m);
                            if k == i {
                                assert(before[j as int] == m);
                            }
                        }
                    }
                }
            },
        }
        i = i + 1;
    }
    let mut out: Vec<String> = Vec::new();
    let mut k: usize = 0;
    while k < maps.len()
        invariant
            k <= maps@.len(),
            out@.len() == k,
            strings_view(out@) == char_vecs_view(maps@).take(k as int),
        decreases maps@.len() - k,
    {
        let s = string_of(maps[k].as_slice(), 0, maps[k].len());
        assert(maps[k as int]@.subrange(0, maps[k as int]@.len() as int) =~= maps[k as int]@);
        assert(s@ == char_vecs_view(maps@)[k as int]);
        let ghost prev = out@;
        out.push(s);
        assert forall|x: int| 0 <= x < k + 1 implies #[trigger] strings_view(out@)[x]
            == char_vecs_view(maps@)[x] by {
            if x < k {
                assert(strings_view(prev)[x] == char_vecs_view(maps@).take(k as int)[x]);
                assert(out@[x] == prev[x]);
            }
        }
        k = k + 1;
        assert(strings_view(out@) =~= char_vecs_view(maps@).take(k as int));
    }
    assert(char_vecs_view(maps@).take(k as int) =~= char_vecs_view(maps@));
    assert forall|m: Seq<char>| strings_view(out@).contains(m) <==> map_listed(names@, m) by {
        if map_listed(names@, m) {
            let k = choose|k: int| 0 <= k < names@.len() && map_name_spec(#[trigger] names@[k]@) == Some(m);
            assert(exists|k2: int| 0 <= k2 < i && map_name_spec(#[trigger] names@[k2]@) == Some(m));
        }
    }
    out
}

/// The soundcache file names a `maps` dir listing needs: `<map>.txt` for
/// each `.bsp` entry, in listing order.
pub open spec fn soundcache_spec(names: Seq<String>) -> Seq<Seq<char>>
    decreases names.len(),
{
    if names.len() == 0 {
        Seq::empty()
    } else {
        let earlier = soundcache_spec(names.drop_last());
        match map_name_spec(names.last()@) {
            Some(m) => earlier.push(m + ".txt"@),
            None => earlier,
        }
    }
}

/// The files `<install>/svencoop/maps/soundcache/<map>.txt` that the maps
/// dir listing `names` calls for, one per `.bsp` (the caller creates those
/// not yet present). The SC DS fails to generate these on-the-fly on
/// Linux/macOS, causing "failed to transmit file" disconnects.
pub fn soundcache_targets(names: &Vec<String>) -> (r: Vec<String>)
    ensures
        strings_view(r@) == soundcache_spec(names@),
{
    let mut out: Vec<String> = Vec::new();
    let mut i: usize = 0;
    while i < names.len()
        invariant
            i <= names@.len(),
            strings_view(out@) == soundcache_spec(names@.take(i as int)),
        decreases names@.len() - i,
    {
        let ghost prev = out@;
        assert(names@.take(i + 1).drop_last() =~= names@.take(i as int));
        assert(names@.take(i + 1).last() == names@[i as int]);
        match map_name_of(names[i].as_str()) {
            Some(m) => {
                let mut file = m;
                push_str(&mut file, ".txt");
                let ghost fv = file@;
                out.push(file);
                assert(strings_view(out@) =~= strings_view(prev).push(fv));
            },
            None => {},
        }
        i = i + 1;
    }
    assert(names@.take(i as int) =~= names@);
    out
}

/// Law: the soundcache files of two listings read one after the other are
/// those of the first followed by those of the second; what one entry asks
/// for does not depend on the entries around it.
pub proof fn soundcache_of_joined_listings(a: Seq<String>, b: Seq<String>)
    ensures
        soundcache_spec(a + b) == soundcache_spec(a) + soundcache_spec(b),
    decreases b.len(),
{
    if b.len() == 0 {
        assert(a + b =~= a);
        assert(soundcache_spec(a) + soundcache_spec(b) =~= soundcache_spec(a));
    } else {
        let init = b.drop_last();
        soundcache_of_joined_listings(a, init);
        assert((a + b).drop_last() =~= a + init);
        assert((a + b).last() == b.last());
        match map_name_spec(b.last()@) {
            Some(m) => {
                assert(soundcache_spec(a) + soundcache_spec(init).push(m + ".txt"@) =~= (
                soundcache_spec(a) + soundcache_spec(init)).push(m + ".txt"@));
            },
            None => {},
        }
    }
}

/// Law: a single `.bsp` entry for map `m` asks for exactly `m.txt`; any
/// other entry asks for nothing.
pub proof fn soundcache_of_one_entry(name: String)
    ensures
        soundcache_spec(seq![name]) == match map_name_spec(name@) {
            Some(m) => seq![m + ".txt"@],
            None => Seq::<Seq<char>>::empty(),
        },
{
    assert(seq![name].drop_last() =~= Seq::<String>::empty());
    assert(seq![name].last() == name);
    assert(soundcache_spec(Seq::<String>::empty()) =~= Seq::<Seq<char>>::empty());
    match map_name_spec(name@) {
        Some(m) => {
            assert(Seq::<Seq<char>>::empty().push(m + ".txt"@) =~= seq![m + ".txt"@]);
        },
        None => {},
    }
}

/// The number of `.bsp` entries in `names`.
pub open spec fn bsp_count(names: Seq<String>) -> nat {
    names.filter(|n: String| map_name_spec(n@) is Some).len()
}

/// Law: one soundcache file per `.bsp` entry: the list is as long as the
/// number of `.bsp` entries, and `m.txt` is in it exactly when some entry is
/// `m.bsp`.
pub proof fn soundcache_has_one_file_per_map(names: Seq<String>)
    ensures
        soundcache_spec(names).len() == bsp_count(names),
        forall|m: Seq<char>|
            soundcache_spec(names).contains(m + ".txt"@) <== map_listed(names, m),
        forall|f: Seq<char>|
            soundcache_spec(names).contains(f) ==> exists|m: Seq<char>|
                map_listed(names, m) && f == m + ".txt"@,
    decreases names.len(),
{
    if names.len() > 0 {
        let init = names.drop_last();
        let n = names.last();
        soundcache_has_one_file_per_map(init);
        assert(names =~= init.push(n));
        init.lemma_filter_push(n, |n: String| map_name_spec(n@) is Some);
        let out = soundcache_spec(names);
        let prev = soundcache_spec(init);
        assert forall|m: Seq<char>| map_listed(names, m) implies out.contains(m + ".txt"@) by {
            let k = choose|k: int| 0 <= k < names.len() && map_name_spec(#[trigger] names[k]@)
                == Some(m);
            if k == names.len() - 1 {
                assert(out[out.len() - 1] == m + ".txt"@);
            } else {
                assert(init[k] == names[k]);
                assert(map_listed(init, m));
                let x = choose|x: int| 0 <= x < prev.len() && prev[x] == m + ".txt"@;
                assert(out[x] == prev[x]);
            }
        }
        assert forall|f: Seq<char>| out.contains(f) implies exists|m: Seq<char>|
            map_listed(names, m) && f == m + ".txt"@ by {
            let x = choose|x: int| 0 <= x < out.len() && out[x] == f;
            if x < prev.len() {
                assert(out[x] == prev[x]);
                assert(prev.contains(f));
                let m = choose|m: Seq<char>| map_listed(init, m) && f == m + ".txt"@;
                let k = choose|k: int| 0 <= k < init.len() && map_name_spec(#[trigger] init[k]@)
                    == Some(m);
                assert(names[k] == init[k]);
                assert(map_listed(names, m));
            } else {
                let m = map_name_spec(n@)->0;
                assert(names[names.len() - 1] == n);
                assert(map_listed(names, m));
            }
        }
    }
}

/// `<dir>/steamapps/common/Sven Co-op`, where Steam installs the DS.
pub open spec fn steam_common_dir(dir: PathBuf) -> PathBuf {
    path_joined(path_joined(path_joined(dir, "steamapps"@), "common"@), "Sven Co-op"@)
}

/// The install dir remembered in `.svends_path`, when its trimmed text is
/// not empty.
pub open spec fn remembered_dir(marker: Option<Seq<char>>) -> Option<PathBuf> {
    match marker {
        Some(t) => if trim_spec(t).len() > 0 {
            Some(path_from_text(trim_spec(t)))
        } else {
            None
        },
        None => None,
    }
}

/// Where to look for an existing DS, in order, as (executable, install dir):
/// bundle-local `./svends`, the last-used path in `.svends_path`, then the
/// standard Steam install paths.
pub open spec fn svends_candidates_spec(
    bundle: PathBuf,
    os: Os,
    marker: Option<Seq<char>>,
    steam_dirs: Seq<PathBuf>,
) -> Seq<(PathBuf, PathBuf)> {
    let exe = svends_exe_spec(os);
    let local = path_joined(bundle, "svends"@);
    let remembered = match remembered_dir(marker) {
        Some(d) => seq![(path_joined(d, exe), d)],
        None => Seq::empty(),
    };
    seq![(path_joined(local, exe), local)] + remembered + Seq::new(
        steam_dirs.len(),
        |i: int| (path_joined(steam_common_dir(steam_dirs[i]), exe), steam_common_dir(steam_dirs[i])),
    )
}

/// Law: every Steam library is searched. The candidates are the bundle-local
/// install, then the remembered install dir (when `.svends_path` names one),
/// then, for each Steam library in the order given,
/// `<library>/steamapps/common/Sven Co-op` with the executable in it; nothing
/// else.
pub proof fn every_steam_library_is_searched(
    bundle: PathBuf,
    os: Os,
    marker: Option<Seq<char>>,
    steam_dirs: Seq<PathBuf>,
)
    ensures
        ({
            let c = svends_candidates_spec(bundle, os, marker, steam_dirs);
            let exe = svends_exe_spec(os);
            let local = path_joined(bundle, "svends"@);
            let nr: int = if remembered_dir(marker) is Some { 1 } else { 0 };
            &&& c.len() == 1 + nr + steam_dirs.len()
            &&& c[0] == (path_joined(local, exe), local)
            &&& remembered_dir(marker) matches Some(d) ==> c[1] == (path_joined(d, exe), d)
            &&& forall|k: int|
                0 <= k < steam_dirs.len() ==> {
                    let dir = path_joined(
                        path_joined(path_joined(steam_dirs[k], "steamapps"@), "common"@),
                        "Sven Co-op"@,
                    );
                    #[trigger] c[1 + nr + k] == (path_joined(dir, exe), dir)
                }
        }),
{
    let c = svends_candidates_spec(bundle, os, marker, steam_dirs);
    let exe = svends_exe_spec(os);
    let local = path_joined(bundle, "svends"@);
    let nr: int = if remembered_dir(marker) is Some { 1 } else { 0 };
    let remembered = match remembered_dir(marker) {
        Some(d) => seq![(path_joined(d, exe), d)],
        None => Seq::empty(),
    };
    let steam = Seq::new(
        steam_dirs.len(),
        |i: int| (path_joined(steam_common_dir(steam_dirs[i]), exe), steam_common_dir(steam_dirs[i])),
    );
    assert(c == seq![(path_joined(local, exe), local)] + remembered + steam);
    assert(remembered.len() == nr);
    assert forall|k: int| 0 <= k < steam_dirs.len() implies {
        let dir = path_joined(
            path_joined(path_joined(steam_dirs[k], "steamapps"@), "common"@),
            "Sven Co-op"@,
        );
        #[trigger] c[1 + nr + k] == (path_joined(dir, exe), dir)
    } by {
        assert(c[1 + nr + k] == steam[k]);
    }
}

/// The characters of an optional string.
pub open spec fn opt_text(s: Option<String>) -> Option<Seq<char>> {
    match s {
        Some(t) => Some(t@),
        None => None,
    }
}

/// Where to look for an existing DS executable, in the order to try them:
/// bundle-local `./svends`, the last-used path read from `.svends_path`
/// (`marker`, if the file could be read), then each Steam library dir.
/// The first candidate whose executable exists wins.
pub fn svends_candidates(
    bundle_dir: &PathBuf,
    os: Os,
    marker: Option<String>,
    steam_dirs: &Vec<PathBuf>,
) -> (r: Vec<(PathBuf, PathBuf)>)
    ensures
        r@ == svends_candidates_spec(*bundle_dir, os, opt_text(marker), steam_dirs@),
{
    let exe = svends_exe_name(os);
    let local = default_install_dir(bundle_dir);
    let mut out: Vec<(PathBuf, PathBuf)> = Vec::new();
    out.push((join(&local, exe), local));
    match marker {
        Some(text) => {
            let cs = chars_of(text.as_str());
            let (x, y) = trim_bounds(cs.as_slice(), 0, cs.len());
            assert(cs@.subrange(0, cs@.len() as int) =~= text@);
            if x < y {
                let dir = from_text(string_of(cs.as_slice(), x, y));
                out.push((join(&dir, exe), dir));
            }
        },
        None => {},
    }
    let ghost head = out@;
    let mut i: usize = 0;
    while i < steam_dirs.len()
        invariant
            i <= steam_dirs@.len(),
            exe@ == svends_exe_spec(os),
            out@.len() == head.len() + i,
            out@.take(head.len() as int) == head,
            forall|k: int|
                0 <= k < i ==> #[trigger] out@[head.len() + k] == (
                    path_joined(steam_common_dir(steam_dirs@[k]), exe@),
                    steam_common_dir(steam_dirs@[k]),
                ),
        decreases steam_dirs@.len() - i,
    {
        let a = join(&steam_dirs[i], "steamapps");
        let b = join(&a, "common");
        let dir = join(&b, "Sven Co-op");
        let ghost prev = out@;
        out.push((join(&dir, exe), dir));
        assert(out@.take(head.len() as int) =~= prev.take(head.len() as int));
        i = i + 1;
    }
    let ghost want = svends_candidates_spec(*bundle_dir, os, opt_text(marker), steam_dirs@);
    assert(want.len() == out@.len());
    assert forall|k: int| 0 <= k < out@.len() implies out@[k] == want[k] by {
        if k < head.len() {
            assert(out@[k] == out@.take(head.len() as int)[k]);
        } else {
            assert(out@[head.len() + (k - head.len())] == out@[k]);
        }
    }
    assert(out@ =~= want);
    out
}

/// The Steam libraries an environment variable's value names on Windows:
/// `<value>\Steam`, when set and not empty.
pub open spec fn env_steam_dir(value: Option<Seq<char>>) -> Seq<PathBuf> {
    match value {
        Some(v) => if v.len() > 0 {
            seq![path_joined(path_from_text(v), "Steam"@)]
        } else {
            Seq::empty()
        },
        None => Seq::empty(),
    }
}

/// Standard Steam install locations for `os`.
pub open spec fn steam_dirs_spec(
    os: Os,
    program_files_x86: Option<Seq<char>>,
    program_files: Option<Seq<char>>,
    user_profile: Option<Seq<char>>,
    home: Option<PathBuf>,
) -> Seq<PathBuf> {
    if os == Os::Windows {
        env_steam_dir(program_files_x86) + env_steam_dir(program_files) + env_steam_dir(
            user_profile,
        ) + seq![
            path_from_text("C:\\Program Files (x86)\\Steam"@),
            path_from_text("C:\\Program Files\\Steam"@),
        ]
    } else {
        match home {
            Some(h) => seq![
                path_joined(h, ".local/share/Steam"@),
                path_joined(h, ".steam/steam"@),
                path_joined(h, ".var/app/com.valvesoftware.Steam/data/Steam"@),
            ],
            None => Seq::empty(),
        }
    }
}

fn push_env_steam_dir(out: &mut Vec<PathBuf>, value: Option<String>)
    ensures
        final(out)@ == old(out)@ + env_steam_dir(opt_text(value)),
{
    match value {
        Some(v) => {
            if v.as_str().unicode_len() > 0 {
                let d = from_text(v);
                out.push(join(&d, "Steam"));
            } else {
                assert(v@.len() == 0);
            }
        },
        None => {},
    }
    assert(out@ =~= old(out)@ + env_steam_dir(opt_text(value)));
}

fn text_path(t: &str) -> (r: PathBuf)
    ensures
        r == path_from_text(t@),
{
    let mut s = String::new();
    push_str(&mut s, t);
    assert(s@ =~= t@);
    from_text(s)
}

/// Standard Steam install locations for `os`, expanded from the user's home
/// / ProgramFiles (no hardcoded absolute paths beyond Steam's own defaults).
/// On Windows the values of `ProgramFiles(x86)`, `ProgramFiles` and
/// `USERPROFILE` are passed in, each `None` when unset; elsewhere the home
/// directory.
pub fn steam_install_candidates(
    os: Os,
    program_files_x86: Option<String>,
    program_files: Option<String>,
    user_profile: Option<String>,
    home: Option<PathBuf>,
) -> (r: Vec<PathBuf>)
    ensures
        r@ == steam_dirs_spec(
            os,
            opt_text(program_files_x86),
            opt_text(program_files),
            opt_text(user_profile),
            home,
        ),
{
    let mut out: Vec<PathBuf> = Vec::new();
    if os == Os::Windows {
        push_env_steam_dir(&mut out, program_files_x86);
        push_env_steam_dir(&mut out, program_files);
        push_env_steam_dir(&mut out, user_profile);
        out.push(text_path("C:\\Program Files (x86)\\Steam"));
        out.push(text_path("C:\\Program Files\\Steam"));
    } else {
        match home {
            Some(h) => {
                out.push(join(&h, ".local/share/Steam"));
                out.push(join(&h, ".steam/steam"));
                out.push(join(&h, ".var/app/com.valvesoftware.Steam/data/Steam"));
            },
            None => {},
        }
    }
    proof {
        let want = steam_dirs_spec(
            os,
            opt_text(program_files_x86),
            opt_text(program_files),
            opt_text(user_profile),
            home,
        );
        assert(out@ =~= want);
    }
    out
}

/// Whether a mapcycle line names the campaign hub (`-sp_campaign_portal`
/// or `sp_campaign_portal`), which is not a playable coop map.
pub open spec fn is_portal_line(line: Seq<char>) -> bool {
    trim_spec(line) == "-sp_campaign_portal"@ || trim_spec(line) == "sp_campaign_portal"@
}

/// Whether some line of `ls` names the campaign hub.
pub open spec fn has_portal(ls: Seq<Seq<char>>) -> bool {
    exists|i: int| 0 <= i < ls.len() && is_portal_line(#[trigger] ls[i])
}

/// The lines of `ls` that do not name the campaign hub, in order.
pub open spec fn without_portal(ls: Seq<Seq<char>>) -> Seq<Seq<char>>
    decreases ls.len(),
{
    if ls.len() == 0 {
        Seq::empty()
    } else {
        let earlier = without_portal(ls.drop_last());
        if is_portal_line(ls.last()) {
            earlier
        } else {
            earlier.push(ls.last())
        }
    }
}

/// The first line at or after `i` that is `svencoop1` once trimmed.
pub open spec fn svencoop1_from(ls: Seq<Seq<char>>, i: int) -> Option<int>
    decreases ls.len() - i,
{
    if i < 0 || i >= ls.len() {
        None
    } else if trim_spec(ls[i]) == "svencoop1"@ {
        Some(i)
    } else {
        svencoop1_from(ls, i + 1)
    }
}

/// `ls` with its first `svencoop1` line moved to the front.
pub open spec fn svencoop1_first(ls: Seq<Seq<char>>) -> Seq<Seq<char>> {
    match svencoop1_from(ls, 0) {
        Some(p) => seq![ls[p]] + ls.take(p) + ls.skip(p + 1),
        None => ls,
    }
}

/// The lines `ls` joined by `\n`.
pub open spec fn join_lines(ls: Seq<Seq<char>>) -> Seq<char>
    decreases ls.len(),
{
    if ls.len() == 0 {
        Seq::empty()
    } else if ls.len() == 1 {
        ls[0]
    } else {
        join_lines(ls.drop_last()) + seq!['\n'] + ls.last()
    }
}

/// The rewritten `svencoop/mapcycle.txt`: only when some line names the
/// campaign hub, every such line removed and `svencoop1` (if present) moved
/// to the front, one line per map, each ended by `\n`.
pub open spec fn fixed_mapcycle_spec(contents: Seq<char>) -> Option<Seq<char>> {
    let ls = lines_spec(contents);
    if has_portal(ls) {
        Some(join_lines(svencoop1_first(without_portal(ls))) + seq!['\n'])
    } else {
        None
    }
}

fn is_portal_range(cs: &[char], a: usize, b: usize) -> (r: bool)
    requires
        a <= b <= cs@.len(),
    ensures
        r == is_portal_line(cs@.subrange(a as int, b as int)),
{
    let (x, y) = trim_bounds(cs, a, b);
    let p1 = chars_of("-sp_campaign_portal");
    let p2 = chars_of("sp_campaign_portal");
    range_is(cs, x, y, p1.as_slice()) || range_is(cs, x, y, p2.as_slice())
}

fn is_svencoop1_range(cs: &[char], a: usize, b: usize) -> (r: bool)
    requires
        a <= b <= cs@.len(),
    ensures
        r == (trim_spec(cs@.subrange(a as int, b as int)) == "svencoop1"@),
{
    let (x, y) = trim_bounds(cs, a, b);
    let m = chars_of("svencoop1");
    range_is(cs, x, y, m.as_slice())
}

/// The lines `rs` of `cs` joined by `\n`.
fn join_ranges(cs: &[char], rs: &Vec<(usize, usize)>) -> (r: String)
    requires
        ranges_within(cs@.len(), rs@),
    ensures
        r@ == join_lines(ranges_view(cs@, rs@)),
{
    let mut out = String::new();
    let mut k: usize = 0;
    let ghost all = ranges_view(cs@, rs@);
    assert(all.take(0) =~= Seq::<Seq<char>>::empty());
    while k < rs.len()
        invariant
            k <= rs@.len(),
            all == ranges_view(cs@, rs@),
            ranges_within(cs@.len(), rs@),
            out@ == join_lines(all.take(k as int)),
        decreases rs@.len() - k,
    {
        let ghost before = out@;
        if k > 0 {
            push_char(&mut out, '\n');
        }
        let (a, b) = rs[k];
        assert(rs@[k as int].0 <= rs@[k as int].1 <= cs@.len());
        push_chars(&mut out, cs, a, b);
        assert(all.take(k + 1).drop_last() =~= all.take(k as int));
        assert(all.take(k + 1).last() == cs@.subrange(a as int, b as int));
        if k == 0 {
            assert(out@ =~= all.take(1)[0]);
        } else {
            assert(out@ =~= before + seq!['\n'] + cs@.subrange(a as int, b as int));
        }
        k = k + 1;
    }
    assert(all.take(k as int) =~= all);
    out
}

/// Removes `-sp_campaign_portal` / `sp_campaign_portal` from the text of
/// `svencoop/mapcycle.txt` and, if `svencoop1` is present, moves it to the
/// front. Only touches the file if the portal entry is actually present, so
/// a deliberately customized mapcycle is left alone: `None` means "leave the
/// file as it is", `Some` holds the new contents.
pub fn fixed_mapcycle(contents: &str) -> (r: Option<String>)
    ensures
        opt_text(r) == fixed_mapcycle_spec(contents@),
{
    let cs = chars_of(contents);
    let lines = line_ranges(cs.as_slice());
    let ghost lv = ranges_view(cs@, lines@);
    let mut found = false;
    let mut kept: Vec<(usize, usize)> = Vec::new();
    let mut k: usize = 0;
    assert(lv.take(0) =~= Seq::<Seq<char>>::empty());
    assert(ranges_view(cs@, kept@) =~= Seq::<Seq<char>>::empty());
    while k < lines.len()
        invariant
            k <= lines@.len(),
            lv == ranges_view(cs@, lines@),
            ranges_within(cs@.len(), lines@),
            ranges_within(cs@.len(), kept@),
            found == has_portal(lv.take(k as int)),
            ranges_view(cs@, kept@) == without_portal(lv.take(k as int)),
        decreases lines@.len() - k,
    {
        let (a, b) = lines[k];
        assert(lines@[k as int].0 <= lines@[k as int].1 <= cs@.len());
        let ghost t = lv.take(k + 1);
        assert(t.drop_last() =~= lv.take(k as int));
        assert(t.last() == cs@.subrange(a as int, b as int));
        let ghost prev = kept@;
        if is_portal_range(cs.as_slice(), a, b) {
            found = true;
            assert(is_portal_line(t[k as int]));
        } else {
            kept.push((a, b));
            assert(ranges_view(cs@, kept@) =~= ranges_view(cs@, prev).push(cs@.subrange(a as int, b as int)));
            assert(has_portal(t) == has_portal(lv.take(k as int))) by {
                if has_portal(t) {
                    let x = choose|x: int| 0 <= x < t.len() && is_portal_line(#[trigger] t[x]);
                    assert(x != k);
                    assert(lv.take(k as int)[x] == t[x]);
                }
                if has_portal(lv.take(k as int)) {
                    let x = choose|x: int| 0 <= x < k && is_portal_line(#[trigger] lv.take(k as int)[x]);
                    assert(t[x] == lv.take(k as int)[x]);
                }
            }
        }
        if found {
            assert(has_portal(t)) by {
                if !is_portal_line(t[k as int]) {
                    let x = choose|x: int| 0 <= x < k && is_portal_line(#[trigger] lv.take(k as int)[x]);
                    assert(t[x] == lv.take(k as int)[x]);
                }
            }
        }
        k = k + 1;
    }
    assert(lv.take(k as int) =~= lv);
    if !found {
        return None;
    }
    let ghost kv = ranges_view(cs@, kept@);
    let mut p: usize = 0;
    let mut at: Option<usize> = None;
    while p < kept.len() && at.is_none()
        invariant
            p <= kept@.len(),
            kv == ranges_view(cs@, kept@),
            ranges_within(cs@.len(), kept@),
            at is None ==> svencoop1_from(kv, 0) == svencoop1_from(kv, p as int),
            at matches Some(q) ==> svencoop1_from(kv, 0) == Some(q as int) && q < kept@.len(),
        decreases kept@.len() - p,
    {
        let (a, b) = kept[p];
        assert(kept@[p as int].0 <= kept@[p as int].1 <= cs@.len());
        assert(kv[p as int] == cs@.subrange(a as int, b as int));
        if is_svencoop1_range(cs.as_slice(), a, b) {
            at = Some(p);
        }
        p = p + 1;
    }
    let moved: Vec<(usize, usize)> = match at {
        None => {
            assert(svencoop1_from(kv, kv.len() as int) is None);
            kept
        },
        Some(q) => {
            let mut mv: Vec<(usize, usize)> = Vec::new();
            mv.push(kept[q]);
            let mut x: usize = 0;
            while x < kept.len()
                invariant
                    x <= kept@.len(),
                    q < kept@.len(),
                    kv == ranges_view(cs@, kept@),
                    ranges_within(cs@.len(), kept@),
                    ranges_within(cs@.len(), mv@),
                    ranges_view(cs@, mv@) == seq![kv[q as int]] + (if x <= q {
                        kv.take(x as int)
                    } else {
                        kv.take(q as int) + kv.subrange(q + 1, x as int)
                    }),
                decreases kept@.len() - x,
            {
                let ghost prev = mv@;
                if x != q {
                    mv.push(kept[x]);
                    assert(ranges_view(cs@, mv@) =~= ranges_view(cs@, prev).push(kv[x as int]));
                }
                x = x + 1;
                if x <= q {
                    assert(kv.take(x as int) =~= kv.take(x - 1).push(kv[x - 1]));
                } else if x == q + 1 {
                    assert(kv.take(q as int) + kv.subrange(q + 1, x as int) =~= kv.take(q as int));
                } else {
                    assert(kv.subrange(q + 1, x as int) =~= kv.subrange(q + 1, x - 1).push(kv[x - 1]));
                }
            }
            assert(kv.subrange(q + 1, kv.len() as int) =~= kv.skip(q + 1));
            mv
        },
    };
    assert(ranges_within(cs@.len(), moved@));
    assert(ranges_view(cs@, moved@) == svencoop1_first(kv));
    assert(kv == without_portal(lines_spec(contents@)));
    assert(has_portal(lines_spec(contents@)));
    let mut text = join_ranges(cs.as_slice(), &moved);
    push_char(&mut text, '\n');
    Some(text)
}

/// Why a dedicated-server start was refused.
#[derive(Debug, Clone, Copy, PartialEq, Eq, Structural)]
pub enum DsStartError {
    /// "dedicated server is already starting/running; stop it first".
    AlreadyActive,
    /// "The Sven Co-op dedicated server (app 276060) has no native build for
    /// this OS — it ships only for Windows and Linux."
    NoNativeBuild,
}

/// Whether a start may begin while the DS is in `phase` on `os`: not while
/// a pull, start or run is under way, and only where a native DS exists.
pub fn ds_start_check(phase: DsPhase, os: Os) -> (r: Result<(), DsStartError>)
    ensures
        r == (if phase.is_active_spec() {
            Err(DsStartError::AlreadyActive)
        } else if !(os == Os::Linux || os == Os::Windows) {
            Err(DsStartError::NoNativeBuild)
        } else {
            Ok(())
        }),
{
    if phase.is_active() {
        Err(DsStartError::AlreadyActive)
    } else if !os.supports_dedicated_server() {
        Err(DsStartError::NoNativeBuild)
    } else {
        Ok(())
    }
}

proof fn lemma_join_front(ls: Seq<Seq<char>>)
    requires
        ls.len() >= 2,
    ensures
        join_lines(ls) == ls[0] + seq!['\n'] + join_lines(ls.drop_first()),
    decreases ls.len(),
{
    if ls.len() == 2 {
        assert(ls.drop_last() =~= seq![ls[0]]);
        assert(ls.drop_first() =~= seq![ls[1]]);
        assert(join_lines(seq![ls[0]]) == ls[0]);
        assert(join_lines(seq![ls[1]]) == ls[1]);
        assert(join_lines(ls) == join_lines(ls.drop_last()) + seq!['\n'] + ls.last());
    } else {
        let init = ls.drop_last();
        let tail = ls.drop_first();
        lemma_join_front(init);
        assert(init.drop_first() =~= tail.drop_last());
        assert(tail.last() == ls.last());
        assert(init[0] == ls[0]);
        assert(join_lines(ls) == join_lines(init) + seq!['\n'] + ls.last());
        assert(join_lines(tail) == join_lines(tail.drop_last()) + seq!['\n'] + tail.last());
        assert(join_lines(ls) =~= ls[0] + seq!['\n'] + join_lines(tail));
    }
}

/// The lines of `ls` joined and closed by `\n` read back as `ls`, each line
/// without a closing `\r`.
proof fn lemma_lines_of_join(ls: Seq<Seq<char>>)
    requires
        ls.len() > 0,
        forall|k: int| 0 <= k < ls.len() ==> no_newline(#[trigger] ls[k]),
    ensures
        lines_spec(join_lines(ls) + seq!['\n']) == ls.map_values(|l: Seq<char>| without_cr(l)),
    decreases ls.len(),
{
    if ls.len() == 1 {
        lemma_lines_of_concat(ls[0], Seq::empty());
        assert(ls[0] + seq!['\n'] + Seq::<char>::empty() =~= join_lines(ls) + seq!['\n']);
        assert(lines_spec(Seq::<char>::empty()) =~= Seq::<Seq<char>>::empty());
        assert(ls.map_values(|l: Seq<char>| without_cr(l)) =~= seq![without_cr(ls[0])]);
    } else {
        let rest = ls.drop_first();
        lemma_join_front(ls);
        lemma_lines_of_join(rest);
        lemma_lines_of_concat(ls[0], join_lines(rest) + seq!['\n']);
        assert(join_lines(ls) + seq!['\n'] =~= ls[0] + seq!['\n'] + (join_lines(rest) + seq!['\n']));
        assert(ls.map_values(|l: Seq<char>| without_cr(l)) =~= seq![without_cr(ls[0])]
            + rest.map_values(|l: Seq<char>| without_cr(l)));
    }
}

proof fn lemma_without_portal(ls: Seq<Seq<char>>)
    ensures
        forall|k: int| 0 <= k < without_portal(ls).len() ==> {
            &&& ls.contains(#[trigger] without_portal(ls)[k])
            &&& !is_portal_line(without_portal(ls)[k])
        },
    decreases ls.len(),
{
    if ls.len() > 0 {
        let init = ls.drop_last();
        lemma_without_portal(init);
        let w = without_portal(ls);
        assert forall|k: int| 0 <= k < w.len() implies ls.contains(#[trigger] w[k])
            && !is_portal_line(w[k]) by {
            if k < without_portal(init).len() {
                assert(w[k] == without_portal(init)[k]);
                let x = choose|x: int| 0 <= x < init.len() && init[x] == w[k];
                assert(ls[x] == init[x]);
            } else {
                assert(w[k] == ls.last());
                assert(ls[ls.len() - 1] == ls.last());
            }
        }
    }
}

proof fn lemma_svencoop1_from(ls: Seq<Seq<char>>, i: int)
    ensures
        svencoop1_from(ls, i) matches Some(p) ==> i <= p < ls.len() && trim_spec(ls[p])
            == "svencoop1"@,
    decreases ls.len() - i,
{
    if !(i < 0 || i >= ls.len()) && trim_spec(ls[i]) != "svencoop1"@ {
        lemma_svencoop1_from(ls, i + 1);
    }
}

/// Law: a rewritten mapcycle names no campaign hub, so fixing it again
/// leaves the file alone; and when the rotation holds `svencoop1`, the
/// rewritten file starts with it.
pub proof fn fixed_mapcycle_is_settled(contents: Seq<char>)
    ensures
        fixed_mapcycle_spec(contents) matches Some(fixed) ==> {
            &&& fixed_mapcycle_spec(fixed) is None
            &&& svencoop1_from(without_portal(lines_spec(contents)), 0) is Some ==> trim_spec(
                lines_spec(fixed)[0],
            ) == "svencoop1"@
        },
{
    let ls = lines_spec(contents);
    if has_portal(ls) {
        let kv = without_portal(ls);
        let moved = svencoop1_first(kv);
        let fixed = join_lines(moved) + seq!['\n'];
        lemma_lines_have_no_newline(contents);
        lemma_without_portal(ls);
        lemma_svencoop1_from(kv, 0);
        // Every moved line is a kept line: a line of the file, not the hub.
        assert forall|k: int| 0 <= k < moved.len() implies no_newline(#[trigger] moved[k])
            && !is_portal_line(moved[k]) by {
            let src: int = match svencoop1_from(kv, 0) {
                Some(p) => if k == 0 {
                    p
                } else if k <= p {
                    k - 1
                } else {
                    k
                },
                None => k,
            };
            assert(moved[k] == kv[src]);
            assert(ls.contains(kv[src]));
            let x = choose|x: int| 0 <= x < ls.len() && ls[x] == kv[src];
        }
        if moved.len() == 0 {
            assert(fixed =~= seq!['\n']);
            lemma_lines_of_concat(Seq::empty(), Seq::empty());
            assert(Seq::<char>::empty() + seq!['\n'] + Seq::<char>::empty() =~= fixed);
            assert(lines_spec(Seq::<char>::empty()) =~= Seq::<Seq<char>>::empty());
            let line = lines_spec(fixed)[0];
            assert(line =~= Seq::<char>::empty());
            assert(trim_spec(line) =~= Seq::<char>::empty());
            reveal_strlit("-sp_campaign_portal");
            reveal_strlit("sp_campaign_portal");
            assert(!is_portal_line(line));
            assert(!has_portal(lines_spec(fixed)));
            assert(svencoop1_from(kv, 0) is None);
        } else {
            lemma_lines_of_join(moved);
            let back = lines_spec(fixed);
            assert forall|k: int| 0 <= k < back.len() implies !is_portal_line(#[trigger] back[k]) by {
                lemma_trim_without_cr(moved[k]);
            }
            assert(!has_portal(back));
            lemma_trim_without_cr(moved[0]);
        }
    }
}

proof fn lemma_line_is_kept(ls: Seq<Seq<char>>, i: int)
    requires
        0 <= i < ls.len(),
        !is_portal_line(ls[i]),
    ensures
        exists|j: int| 0 <= j < without_portal(ls).len() && #[trigger] without_portal(ls)[j] == ls[i],
    decreases ls.len(),
{
    let init = ls.drop_last();
    let w = without_portal(ls);
    if i == ls.len() - 1 {
        assert(w[w.len() - 1] == ls[i]);
    } else {
        assert(init[i] == ls[i]);
        lemma_line_is_kept(init, i);
        let j = choose|j: int| 0 <= j < without_portal(init).len() && #[trigger] without_portal(
            init,
        )[j] == init[i];
        assert(w[j] == without_portal(init)[j]);
    }
}

proof fn lemma_svencoop1_found(ls: Seq<Seq<char>>, i: int, j: int)
    requires
        0 <= i <= j < ls.len(),
        trim_spec(ls[j]) == "svencoop1"@,
    ensures
        svencoop1_from(ls, i) is Some,
    decreases j - i,
{
    if trim_spec(ls[i]) != "svencoop1"@ {
        lemma_svencoop1_found(ls, i + 1, j);
    }
}

/// Law: when any line of the mapcycle, wherever it stands, is `svencoop1`
/// (once trimmed), the rewritten file starts with `svencoop1`.
pub proof fn svencoop1_leads_fixed_mapcycle(contents: Seq<char>)
    requires
        exists|j: int|
            0 <= j < lines_spec(contents).len() && trim_spec(#[trigger] lines_spec(contents)[j])
                == "svencoop1"@,
    ensures
        fixed_mapcycle_spec(contents) matches Some(fixed) ==> {
            &&& lines_spec(fixed).len() > 0
            &&& trim_spec(lines_spec(fixed)[0]) == "svencoop1"@
        },
{
    let ls = lines_spec(contents);
    let j = choose|j: int| 0 <= j < ls.len() && trim_spec(#[trigger] ls[j]) == "svencoop1"@;
    reveal_strlit("svencoop1");
    reveal_strlit("-sp_campaign_portal");
    reveal_strlit("sp_campaign_portal");
    assert("svencoop1"@.len() == 9);
    assert("-sp_campaign_portal"@.len() == 19);
    assert("sp_campaign_portal"@.len() == 18);
    assert(!is_portal_line(ls[j]));
    lemma_line_is_kept(ls, j);
    let kv = without_portal(ls);
    let q = choose|q: int| 0 <= q < kv.len() && #[trigger] kv[q] == ls[j];
    lemma_svencoop1_found(kv, 0, q);
    if has_portal(ls) {
        fixed_mapcycle_is_settled(contents);
        lemma_svencoop1_from(kv, 0);
        let fixed = join_lines(svencoop1_first(kv)) + seq!['\n'];
        lemma_lines_have_no_newline(contents);
        lemma_without_portal(ls);
        let moved = svencoop1_first(kv);
        assert forall|k: int| 0 <= k < moved.len() implies no_newline(#[trigger] moved[k]) by {
            let p = svencoop1_from(kv, 0)->0;
            let src: int = if k == 0 {
                p
            } else if k <= p {
                k - 1
            } else {
                k
            };
            assert(moved[k] == kv[src]);
            assert(ls.contains(kv[src]));
        }
        lemma_lines_of_join(moved);
    }
}

/// Law: the rewrite drops no map and adds none: the lines of the rewritten
/// file are the lines that do not name the campaign hub, each as often as
/// before (only their order may change); with no such line left the file is
/// a single line break.
pub proof fn fixed_mapcycle_keeps_every_map(contents: Seq<char>)
    ensures
        fixed_mapcycle_spec(contents) matches Some(fixed) ==> {
            let kept = without_portal(lines_spec(contents));
            if kept.len() == 0 {
                fixed == seq!['\n']
            } else {
                lines_spec(fixed).to_multiset() == kept.map_values(
                    |l: Seq<char>| without_cr(l),
                ).to_multiset()
            }
        },
{
    let ls = lines_spec(contents);
    if has_portal(ls) {
        let kv = without_portal(ls);
        let moved = svencoop1_first(kv);
        let fixed = join_lines(moved) + seq!['\n'];
        let f = |l: Seq<char>| without_cr(l);
        lemma_svencoop1_from(kv, 0);
        if kv.len() == 0 {
            assert(moved.len() == 0);
            assert(fixed =~= seq!['\n']);
        } else {
            lemma_lines_have_no_newline(contents);
            lemma_without_portal(ls);
            assert forall|k: int| 0 <= k < moved.len() implies no_newline(#[trigger] moved[k]) by {
                let src: int = match svencoop1_from(kv, 0) {
                    Some(p) => if k == 0 {
                        p
                    } else if k <= p {
                        k - 1
                    } else {
                        k
                    },
                    None => k,
                };
                assert(moved[k] == kv[src]);
                assert(ls.contains(kv[src]));
            }
            lemma_lines_of_join(moved);
            let all = kv.map_values(f);
            match svencoop1_from(kv, 0) {
                Some(p) => {
                    let rest = all.remove(p);
                    assert(moved.map_values(f) =~= seq![all[p]] + rest);
                    all.to_multiset_ensures();
                    vstd::seq_lib::lemma_multiset_commutative(seq![all[p]], rest);
                    Seq::<Seq<char>>::empty().to_multiset_ensures();
                    assert(seq![all[p]] =~= Seq::<Seq<char>>::empty().push(all[p]));
                    broadcast use vstd::multiset::group_multiset_axioms;
                    assert(all.to_multiset().count(all[p]) > 0) by {
                        vstd::seq_lib::to_multiset_contains(all, all[p]);
                        assert(all.contains(all[p]));
                    }
                    assert((seq![all[p]] + rest).to_multiset() =~= all.to_multiset());
                },
                None => {
                    assert(moved == kv);
                },
            }
        }
    }
}

/// The decimal text of `n`.
fn decimal_text(n: u64) -> (r: String)
    ensures
        r@ == decimal(n as nat),
{
    let mut s = String::new();
    push_decimal(&mut s, n);
    assert(s@ =~= decimal(n as nat));
    s
}

/// The arguments the dedicated server is started with: its UDP port, the
/// player limit and the starting map.
pub fn svends_launch_args(args: &DsStartArgs) -> (r: Vec<String>)
    ensures
        strings_view(r@) == seq![
            "-port"@,
            decimal(args.port as nat),
            "+maxplayers"@,
            decimal(args.maxplayers as nat),
            "+map"@,
            args.map@,
        ],
{
    let mut out: Vec<String> = Vec::new();
    out.push(owned("-port"));
    out.push(decimal_text(args.port as u64));
    out.push(owned("+maxplayers"));
    out.push(decimal_text(args.maxplayers as u64));
    out.push(owned("+map"));
    out.push(args.map.clone());
    assert(strings_view(out@) =~= seq![
        "-port"@,
        decimal(args.port as nat),
        "+maxplayers"@,
        decimal(args.maxplayers as nat),
        "+map"@,
        args.map@,
    ]);
    out
}

/// What the dedicated server's start task learns from a piece of outside
/// work.
#[derive(Debug, Clone, Copy, PartialEq, Eq, Structural)]
pub enum DsEvent {
    /// An existing install was found.
    Found,
    /// No install was found.
    NotFound,
    /// The steamcmd pull failed.
    PullFailed,
    /// The steamcmd pull finished; whether the DS executable is there now.
    PullDone { exe_ok: bool },
    /// A stop was asked for, seen before the next piece of work.
    Cancelled,
    /// The soundcache files and the mapcycle were prepared.
    Prepared,
    /// The DS process was spawned.
    Spawned,
    /// Spawning the DS process failed.
    SpawnFailed,
}

/// What the start task does next.
#[derive(Debug, Clone, Copy, PartialEq, Eq, Structural)]
pub enum DsAction {
    /// Pull the DS via steamcmd into the install dir.
    Pull,
    /// Pre-create the soundcache files and fix the mapcycle; first remember
    /// the install path in `.svends_path` when it was just pulled.
    Prepare { remember_install: bool },
    /// Spawn the DS process.
    Spawn,
    /// The DS runs: record its port, install dir and `sv_cheats`.
    Run,
    /// The task ends: forget the port, install dir and `sv_cheats`.
    Clear,
    /// The event does not belong to the phase: nothing changes.
    Ignore,
}

/// One step of the start task: an existing install goes straight to
/// preparing, a missing one is pulled first; a failed pull, a pull that left
/// no executable, or a failed spawn ends in `Error`; a stop ends in `Idle`;
/// a spawned DS is `Running`. An event that does not belong to the phase
/// changes nothing.
pub open spec fn ds_background_spec(phase: DsPhase, event: DsEvent) -> (DsPhase, DsAction) {
    match event {
        DsEvent::Cancelled => if phase.is_active_spec() {
            (DsPhase::Idle, DsAction::Clear)
        } else {
            (phase, DsAction::Ignore)
        },
        DsEvent::Found => if phase == DsPhase::Pulling {
            (DsPhase::Starting, DsAction::Prepare { remember_install: false })
        } else {
            (phase, DsAction::Ignore)
        },
        DsEvent::NotFound => if phase == DsPhase::Pulling {
            (DsPhase::Pulling, DsAction::Pull)
        } else {
            (phase, DsAction::Ignore)
        },
        DsEvent::PullFailed => if phase == DsPhase::Pulling {
            (DsPhase::Error, DsAction::Clear)
        } else {
            (phase, DsAction::Ignore)
        },
        DsEvent::PullDone { exe_ok } => if phase != DsPhase::Pulling {
            (phase, DsAction::Ignore)
        } else if exe_ok {
            (DsPhase::Starting, DsAction::Prepare { remember_install: true })
        } else {
            (DsPhase::Error, DsAction::Clear)
        },
        DsEvent::Prepared => if phase == DsPhase::Starting {
            (DsPhase::Starting, DsAction::Spawn)
        } else {
            (phase, DsAction::Ignore)
        },
        DsEvent::Spawned => if phase == DsPhase::Starting {
            (DsPhase::Running, DsAction::Run)
        } else {
            (phase, DsAction::Ignore)
        },
        DsEvent::SpawnFailed => if phase == DsPhase::Starting {
            (DsPhase::Error, DsAction::Clear)
        } else {
            (phase, DsAction::Ignore)
        },
    }
}

/// The next phase of the start task and what it does next.
pub fn ds_background_step(phase: DsPhase, event: DsEvent) -> (r: (DsPhase, DsAction))
    ensures
        r == ds_background_spec(phase, event),
{
    match event {
        DsEvent::Cancelled => if phase.is_active() {
            (DsPhase::Idle, DsAction::Clear)
        } else {
            (phase, DsAction::Ignore)
        },
        DsEvent::Found => if phase == DsPhase::Pulling {
            (DsPhase::Starting, DsAction::Prepare { remember_install: false })
        } else {
            (phase, DsAction::Ignore)
        },
        DsEvent::NotFound => if phase == DsPhase::Pulling {
            (DsPhase::Pulling, DsAction::Pull)
        } else {
            (phase, DsAction::Ignore)
        },
        DsEvent::PullFailed => if phase == DsPhase::Pulling {
            (DsPhase::Error, DsAction::Clear)
        } else {
            (phase, DsAction::Ignore)
        },
        DsEvent::PullDone { exe_ok } => if phase != DsPhase::Pulling {
            (phase, DsAction::Ignore)
        } else if exe_ok {
            (DsPhase::Starting, DsAction::Prepare { remember_install: true })
        } else {
            (DsPhase::Error, DsAction::Clear)
        },
        DsEvent::Prepared => if phase == DsPhase::Starting {
            (DsPhase::Starting, DsAction::Spawn)
        } else {
            (phase, DsAction::Ignore)
        },
        DsEvent::Spawned => if phase == DsPhase::Starting {
            (DsPhase::Running, DsAction::Run)
        } else {
            (phase, DsAction::Ignore)
        },
        DsEvent::SpawnFailed => if phase == DsPhase::Starting {
            (DsPhase::Error, DsAction::Clear)
        } else {
            (phase, DsAction::Ignore)
        },
    }
}

/// Law: a start under way ends in one of three ways: a stop leaves the DS
/// `Idle`, a failure leaves it in `Error` (both forgetting the run's
/// details), and only a spawn from `Starting` makes it `Running` (recording
/// them).
pub proof fn ds_start_ends_settled(phase: DsPhase, event: DsEvent)
    requires
        phase.is_active_spec(),
    ensures
        ({
            let (next, action) = ds_background_spec(phase, event);
            &&& ((next == DsPhase::Running && phase != DsPhase::Running) <==> (event
                == DsEvent::Spawned && phase == DsPhase::Starting))
            &&& (event == DsEvent::Cancelled ==> next == DsPhase::Idle)
            &&& ((next == DsPhase::Idle || next == DsPhase::Error) && action != DsAction::Ignore
                ==> action == DsAction::Clear)
            &&& ((next == DsPhase::Running && phase != DsPhase::Running) ==> action
                == DsAction::Run)
        }),
{
}

} // verus!
