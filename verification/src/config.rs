//! Settings: the plain sections of the settings file, font choice, and
//! resolving paths against the settings directory.

use vstd::prelude::*;
use crate::synth::bundle::SoundfontConfig;
use crate::util::chars::{chars_lt, contains_chars, contains_seq, lex_lt, str_chars};
use crate::util::paths::{
    extension_of, file_name_of, is_absolute_path, joined, lowercase_of, path_extension,
    path_file_name, path_is_absolute, path_join, to_lowercase,
};

verus! {

/// The `[audio]` section.
#[derive(Debug, Clone, PartialEq, Eq)]
pub struct AudioConfig {
    pub volume: Option<u32>,
}

impl Default for AudioConfig {
    fn default() -> (r: Self)
        ensures
            r.volume == Some(80u32),
    {
        AudioConfig { volume: Some(80) }
    }
}

/// The `[window]` section.
#[derive(Debug, Clone, PartialEq, Eq)]
pub struct WindowConfig {
    pub x: Option<i32>,
    pub y: Option<i32>,
    pub width: Option<u32>,
    pub height: Option<u32>,
}

impl Default for WindowConfig {
    fn default() -> (r: Self)
        ensures
            r.x is None && r.y is None && r.width is None && r.height is None,
    {
        WindowConfig { x: None, y: None, width: None, height: None }
    }
}

/// The `[display]` section.
#[derive(Debug, Clone, PartialEq, Eq)]
pub struct DisplayConfig {
    pub show_piano_roll: Option<bool>,
    pub track_view_mode: Option<String>,
    pub piano_roll_vertical: Option<bool>,
    /// Vertical piano roll flow direction: "down" (falling, default) or "up"
    /// (rising, tracker style). Unknown values fall back to "down".
    pub piano_roll_flow: Option<String>,
}

impl Default for DisplayConfig {
    fn default() -> (r: Self)
        ensures
            r.show_piano_roll is None && r.track_view_mode is None && r.piano_roll_vertical is None
                && r.piano_roll_flow is None,
    {
        DisplayConfig {
            show_piano_roll: None,
            track_view_mode: None,
            piano_roll_vertical: None,
            piano_roll_flow: None,
        }
    }
}

/// The `[debug]` section.
#[derive(Debug, Clone, PartialEq, Eq)]
pub struct DebugConfig {
    pub verbose: Option<bool>,
}

impl Default for DebugConfig {
    fn default() -> (r: Self)
        ensures
            r.verbose is None,
    {
        DebugConfig { verbose: None }
    }
}

/// Outcome of automatic font resolution (see [`pick_font`]).
#[derive(Debug, Clone, PartialEq, Eq)]
pub enum FontChoice {
    /// Explicit `font.path` from config, not yet resolved against config dir.
    Explicit(String),
    /// Auto-detected file from the fonts directory.
    Auto(String),
    /// No font.path set and nothing usable in the fonts directory.
    NoneFound,
}

/// Priority of a lower-case font file name: "jiskan16s" (0), "shinonome"
/// with "16" (1), "dotgothic16" (2); other names are not picked.
pub open spec fn font_priority(name: Seq<char>) -> Option<u8> {
    if contains_seq(name, seq!['j', 'i', 's', 'k', 'a', 'n', '1', '6', 's']) {
        Some(0)
    } else if contains_seq(name, seq!['s', 'h', 'i', 'n', 'o', 'n', 'o', 'm', 'e']) && contains_seq(
        name,
        seq!['1', '6'],
    ) {
        Some(1)
    } else if contains_seq(name, seq!['d', 'o', 't', 'g', 'o', 't', 'h', 'i', 'c', '1', '6']) {
        Some(2)
    } else {
        None
    }
}

/// A font file extension (`ttf`, `otf`, `ttc`, any case).
pub open spec fn is_font_extension(p: Seq<char>) -> bool {
    match extension_of(p) {
        Some(e) => {
            let l = lowercase_of(e);
            l == seq!['t', 't', 'f'] || l == seq!['o', 't', 'f'] || l == seq!['t', 't', 'c']
        },
        None => false,
    }
}

/// Rank of a candidate path: its priority and lower-case file name, when it
/// is a font file with a recognised name.
pub open spec fn font_rank(p: Seq<char>) -> Option<(u8, Seq<char>)> {
    if !is_font_extension(p) {
        None
    } else {
        match file_name_of(p) {
            Some(n) => match font_priority(lowercase_of(n)) {
                Some(pri) => Some((pri, lowercase_of(n))),
                None => None,
            },
            None => None,
        }
    }
}

/// Whether rank `a` comes strictly before rank `b`: lower priority, then
/// lexicographically smaller name.
pub open spec fn rank_lt(a: (u8, Seq<char>), b: (u8, Seq<char>)) -> bool {
    a.0 < b.0 || (a.0 == b.0 && lex_lt(a.1, b.1))
}

/// Index of the best candidate among the first `n`: the first of those with
/// the smallest rank.
pub open spec fn best_font(cands: Seq<Seq<char>>, n: int) -> Option<int>
    decreases n,
{
    if n <= 0 {
        None
    } else {
        let prev = best_font(cands, n - 1);
        match font_rank(cands[n - 1]) {
            Some(r) => match prev {
                Some(b) => if rank_lt(r, font_rank(cands[b])->Some_0) {
                    Some(n - 1)
                } else {
                    prev
                },
                None => Some(n - 1),
            },
            None => prev,
        }
    }
}

/// The font picked: an explicit path wins; else the best ranked candidate.
pub open spec fn picked_font(explicit: Option<Seq<char>>, cands: Seq<Seq<char>>) -> Option<
    (bool, Seq<char>),
> {
    match explicit {
        Some(e) => Some((true, e)),
        None => match best_font(cands, cands.len() as int) {
            Some(i) => Some((false, cands[i])),
            None => None,
        },
    }
}

/// Whether a list of characters equals one of the three font extensions.
fn is_font_ext_chars(l: &Vec<char>) -> (r: bool)
    ensures
        r == (l@ == seq!['t', 't', 'f'] || l@ == seq!['o', 't', 'f'] || l@ == seq!['t', 't', 'c']),
{
    if l.len() != 3 {
        return false;
    }
    let r = (l[0] == 't' && l[1] == 't' && l[2] == 'f') || (l[0] == 'o' && l[1] == 't' && l[2]
        == 'f') || (l[0] == 't' && l[1] == 't' && l[2] == 'c');
    proof {
        if l@ == seq!['t', 't', 'f'] || l@ == seq!['o', 't', 'f'] || l@ == seq!['t', 't', 'c'] {
            assert(l@[0] == seq!['t', 't', 'f'][0] || l@[0] == 'o');
        }
        if l[0] == 't' && l[1] == 't' && l[2] == 'f' {
            assert(l@ =~= seq!['t', 't', 'f']);
        }
        if l[0] == 'o' && l[1] == 't' && l[2] == 'f' {
            assert(l@ =~= seq!['o', 't', 'f']);
        }
        if l[0] == 't' && l[1] == 't' && l[2] == 'c' {
            assert(l@ =~= seq!['t', 't', 'c']);
        }
    }
    r
}

/// Rank of one candidate.
fn rank_of(p: &str) -> (r: Option<(u8, Vec<char>)>)
    ensures
        r matches Some(x) ==> font_rank(p@) == Some((x.0, x.1@)),
        r is None ==> font_rank(p@) is None,
{
    let ext_ok = match path_extension(p) {
        Some(e) => is_font_ext_chars(&str_chars(to_lowercase(e.as_str()).as_str())),
        None => false,
    };
    if !ext_ok {
        return None;
    }
    let name = match path_file_name(p) {
        Some(n) => str_chars(to_lowercase(n.as_str()).as_str()),
        None => return None,
    };
    let pri: u8 = if contains_chars(&name, &vec!['j', 'i', 's', 'k', 'a', 'n', '1', '6', 's']) {
        0
    } else if contains_chars(&name, &vec!['s', 'h', 'i', 'n', 'o', 'n', 'o', 'm', 'e'])
        && contains_chars(&name, &vec!['1', '6']) {
        1
    } else if contains_chars(&name, &vec!['d', 'o', 't', 'g', 'o', 't', 'h', 'i', 'c', '1', '6']) {
        2
    } else {
        return None;
    };
    Some((pri, name))
}

/// Pick a font: an explicit `font.path` wins; otherwise, among candidate
/// files (by lower-case file name, font extensions only), one whose name
/// contains "jiskan16s" (a public-domain JF Dot variant; plain "jiskan16" is
/// not picked), then "shinonome" with "16" (Shinonome Gothic 16), then
/// "dotgothic16". Ties within a priority resolve to the lexicographically
/// first name, then to the earlier candidate.
pub fn pick_font(explicit: Option<&str>, candidates: &[String]) -> (r: FontChoice)
    ensures
        match picked_font(
            match explicit {
                Some(e) => Some(e@),
                None => None,
            },
            candidates@.map_values(|c: String| c@),
        ) {
            Some((true, p)) => r matches FontChoice::Explicit(s) && s@ == p,
            Some((false, p)) => r matches FontChoice::Auto(s) && s@ == p,
            None => r == FontChoice::NoneFound,
        },
{
    if let Some(path) = explicit {
        return FontChoice::Explicit(path.to_owned());
    }
    let ghost cs = candidates@.map_values(|c: String| c@);
    let mut best: Option<(usize, u8, Vec<char>)> = None;
    let mut i: usize = 0;
    while i < candidates.len()
        invariant
            cs == candidates@.map_values(|c: String| c@),
            i <= candidates@.len(),
            match best {
                Some(b) => best_font(cs, i as int) == Some(b.0 as int) && b.0 < i && font_rank(
                    cs[b.0 as int],
                ) == Some((b.1, b.2@)),
                None => best_font(cs, i as int) is None,
            },
        decreases candidates@.len() - i,
    {
        proof {
            assert(cs[i as int] == candidates@[i as int]@);
        }
        match rank_of(candidates[i].as_str()) {
            Some((pri, name)) => {
                let better = match &best {
                    Some(b) => pri < b.1 || (pri == b.1 && chars_lt(&name, &b.2)),
                    None => true,
                };
                if better {
                    best = Some((i, pri, name));
                }
            },
            None => {},
        }
        i = i + 1;
    }
    match best {
        Some(b) => FontChoice::Auto(candidates[b.0].clone()),
        None => FontChoice::NoneFound,
    }
}

/// The platform's local configuration directory (`dirs::config_local_dir`),
/// as text. It depends on the environment: nothing is stated of it.
#[verifier::external_body]
fn config_local_dir() -> Option<String> {
    dirs::config_local_dir().map(|d| d.to_string_lossy().to_string())
}

/// A path resolved against the settings directory `config_dir`: absolute
/// paths are kept, relative ones joined to the directory when there is one.
pub open spec fn resolved_path(path: Seq<char>, config_dir: Option<Seq<char>>) -> Seq<char> {
    if is_absolute_path(path) {
        path
    } else {
        match config_dir {
            Some(d) => joined(d, path),
            None => path,
        }
    }
}

/// The settings directory for a local configuration directory: its `ump`
/// subdirectory.
pub open spec fn settings_dir(local: Seq<char>) -> Seq<char> {
    joined(local, seq!['u', 'm', 'p'])
}

/// Resolve `path` against a given settings directory.
pub fn resolve_path_in(path: &str, config_dir: Option<&str>) -> (r: String)
    ensures
        r@ == resolved_path(
            path@,
            match config_dir {
                Some(d) => Some(d@),
                None => None,
            },
        ),
{
    if path_is_absolute(path) {
        return path.to_owned();
    }
    match config_dir {
        Some(dir) => path_join(dir, path),
        None => path.to_owned(),
    }
}

/// Resolve a path that may be relative to the settings directory (the
/// `ump` directory in the platform's local configuration directory).
/// Absolute paths are returned as-is.
pub fn resolve_path(path: &str) -> (r: String)
    ensures
        is_absolute_path(path@) ==> r@ == path@,
        !is_absolute_path(path@) ==> r@ == path@ || exists|local: Seq<char>| r@ == joined(
            settings_dir(local),
            path@,
        ),
{
    match config_local_dir() {
        Some(local) => {
            let ump = vec!['u', 'm', 'p'];
            let name = crate::util::chars::string_from_chars(&ump);
            let dir = path_join(local.as_str(), name.as_str());
            assert(ump@ =~= seq!['u', 'm', 'p']);
            let r = resolve_path_in(path, Some(dir.as_str()));
            proof {
                if !is_absolute_path(path@) {
                    assert(r@ == joined(settings_dir(local@), path@));
                }
            }
            r
        },
        None => resolve_path_in(path, None),
    }
}

/// The soundfont path the settings name: the most recent one, else the default.
pub open spec fn chosen_sf2(s: SoundfontConfig) -> Option<Seq<char>> {
    match s.recent_path {
        Some(p) => Some(p@),
        None => match s.default_path {
            Some(p) => Some(p@),
            None => None,
        },
    }
}

/// Resolve the SF2 path from the settings (recent before default), relative
/// paths against the settings directory (see [`resolve_path`]).
pub fn resolve_sf2(soundfont: &SoundfontConfig) -> (r: Option<String>)
    ensures
        r is None <==> chosen_sf2(*soundfont) is None,
        r matches Some(p) ==> {
            let c = chosen_sf2(*soundfont)->0;
            &&& is_absolute_path(c) ==> p@ == c
            &&& !is_absolute_path(c) ==> p@ == c || exists|local: Seq<char>| p@ == joined(
                settings_dir(local),
                c,
            )
        },
{
    let chosen: Option<&String> = match &soundfont.recent_path {
        Some(p) => Some(p),
        None => match &soundfont.default_path {
            Some(p) => Some(p),
            None => None,
        },
    };
    match chosen {
        Some(p) => Some(resolve_path(p.as_str())),
        None => None,
    }
}

} // verus!
