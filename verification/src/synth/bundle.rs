//! SoundFont bundle configuration.
//!
//! A bundle is a set of SF2 files plus a per-channel routing table, selected
//! by the detected MIDI mode.

use vstd::prelude::*;
use crate::midi::mode_detect::{mode_name, MidiMode};
use crate::util::chars::str_chars;
use crate::util::paths::{is_absolute_path, joined, path_is_absolute, path_join};

verus! {

/// A set of SF2 files with per-channel routing.
#[derive(Debug, Clone)]
pub struct SoundfontBundle {
    /// SF2 file paths. Relative paths are resolved against the settings file.
    pub files: Vec<String>,
    /// Channels 0-15 mapped to an index into `files`. Absent means every
    /// channel plays through the first file.
    pub routing: Option<Vec<u8>>,
}

impl Default for SoundfontBundle {
    fn default() -> (r: Self)
        ensures
            r.files@.len() == 0,
            r.routing is None,
    {
        SoundfontBundle { files: Vec::new(), routing: None }
    }
}

/// Routing of channel `c`: the listed index when there is one and it names
/// a file, else the first file.
pub open spec fn route_of(files: nat, routing: Option<Seq<u8>>, c: int) -> usize {
    match routing {
        Some(r) => if c < r.len() && (r[c] as nat) < files {
            r[c] as usize
        } else {
            0
        },
        None => 0,
    }
}

/// A file path resolved against the settings directory: relative paths are
/// joined to it, absolute ones kept.
pub open spec fn resolved(base_dir: Option<Seq<char>>, file: Seq<char>) -> Seq<char> {
    match base_dir {
        Some(d) => if !is_absolute_path(file) {
            joined(d, file)
        } else {
            file
        },
        None => file,
    }
}

impl SoundfontBundle {
    /// Routing table for the synthesizer, with out-of-range entries clamped
    /// to the first file so a mistyped index cannot go astray.
    pub fn routing_table(&self) -> (r: [usize; 16])
        ensures
            forall|c: int|
                0 <= c < 16 ==> #[trigger] r@[c] == route_of(
                    self.files@.len(),
                    match self.routing {
                        Some(v) => Some(v@),
                        None => None,
                    },
                    c,
                ),
    {
        let mut table = [0usize; 16];
        match &self.routing {
            None => {
                table
            },
            Some(routing) => {
                let n = self.files.len();
                let mut c: usize = 0;
                while c < 16
                    invariant
                        c <= 16,
                        n == self.files@.len(),
                        forall|d: int|
                            0 <= d < c ==> #[trigger] table@[d] == route_of(n as nat, Some(routing@), d),
                        forall|d: int| c <= d < 16 ==> #[trigger] table@[d] == 0,
                    decreases 16 - c,
                {
                    if c < routing.len() {
                        let index = routing[c] as usize;
                        if index < n {
                            table[c] = index;
                        }
                    }
                    c = c + 1;
                }
                table
            },
        }
    }

    /// File paths resolved against `base_dir`, which is where the settings
    /// file lives. Absolute paths are returned unchanged.
    pub fn resolved_files(&self, base_dir: Option<&str>) -> (r: Vec<String>)
        ensures
            r@.len() == self.files@.len(),
            forall|i: int|
                0 <= i < r@.len() ==> #[trigger] r@[i]@ == resolved(
                    match base_dir {
                        Some(d) => Some(d@),
                        None => None,
                    },
                    self.files@[i]@,
                ),
    {
        let mut out: Vec<String> = Vec::new();
        let mut i: usize = 0;
        while i < self.files.len()
            invariant
                i <= self.files@.len(),
                out@.len() == i,
                forall|k: int|
                    0 <= k < i ==> #[trigger] out@[k]@ == resolved(
                        match base_dir {
                            Some(d) => Some(d@),
                            None => None,
                        },
                        self.files@[k]@,
                    ),
            decreases self.files@.len() - i,
        {
            let file = &self.files[i];
            let p = match base_dir {
                Some(dir) => {
                    if !path_is_absolute(file.as_str()) {
                        path_join(dir, file.as_str())
                    } else {
                        file.clone()
                    }
                },
                None => file.clone(),
            };
            out.push(p);
            i = i + 1;
        }
        out
    }
}

/// The `[soundfont]` section of a settings file.
#[derive(Debug, Clone)]
pub struct SoundfontConfig {
    pub default_path: Option<String>,
    pub recent_path: Option<String>,
    /// Bundles keyed by MIDI mode: `"GM"`, `"GS"`, `"XG"`, `"GM2"`; each
    /// key once.
    pub bundles: Option<Vec<(String, SoundfontBundle)>>,
}

impl Default for SoundfontConfig {
    fn default() -> (r: Self)
        ensures
            r.default_path is None,
            r.recent_path is None,
            r.bundles is None,
    {
        SoundfontConfig { default_path: None, recent_path: None, bundles: None }
    }
}

/// Index of the first bundle keyed `mode`, if any.
pub open spec fn bundle_index(bundles: Seq<(String, SoundfontBundle)>, mode: Seq<char>) -> Option<int>
    decreases bundles.len(),
{
    if bundles.len() == 0 {
        None
    } else {
        match bundle_index(bundles.drop_last(), mode) {
            Some(i) => Some(i),
            None => if bundles.last().0@ == mode {
                Some(bundles.len() - 1)
            } else {
                None
            },
        }
    }
}

/// No two bundles share a mode name, as in a settings file, where each mode
/// is a key of its own.
pub open spec fn keys_unique(bundles: Seq<(String, SoundfontBundle)>) -> bool {
    forall|i: int, j: int|
        0 <= i < j < bundles.len() ==> (#[trigger] bundles[i]).0@ != (#[trigger] bundles[j]).0@
}

/// With each mode named once, the bundle found for a mode is the one bundle
/// keyed by it, wherever it stands.
pub proof fn lemma_unique_key_found(bundles: Seq<(String, SoundfontBundle)>, mode: Seq<char>, i: int)
    requires
        keys_unique(bundles),
        0 <= i < bundles.len(),
        bundles[i].0@ == mode,
    ensures
        bundle_index(bundles, mode) == Some(i),
    decreases bundles.len(),
{
    if i < bundles.len() - 1 {
        let shorter = bundles.drop_last();
        assert(keys_unique(shorter)) by {
            assert forall|a: int, b: int| 0 <= a < b < shorter.len() implies (#[trigger] shorter[a]).0@
                != (#[trigger] shorter[b]).0@ by {
                assert(shorter[a] == bundles[a] && shorter[b] == bundles[b]);
            }
        }
        assert(shorter[i] == bundles[i]);
        lemma_unique_key_found(shorter, mode, i);
    } else {
        lemma_prefix_without_key(bundles, mode, i, i);
        assert(bundles.drop_last() =~= bundles.take(i));
    }
}

/// A prefix holding no bundle keyed `mode` finds none.
proof fn lemma_prefix_without_key(bundles: Seq<(String, SoundfontBundle)>, mode: Seq<char>, n: int, k: int)
    requires
        keys_unique(bundles),
        0 <= n < bundles.len(),
        bundles[n].0@ == mode,
        0 <= k <= n,
    ensures
        bundle_index(bundles.take(k), mode) is None,
    decreases k,
{
    if k > 0 {
        lemma_prefix_without_key(bundles, mode, n, k - 1);
        assert(bundles.take(k).drop_last() =~= bundles.take(k - 1));
        assert(bundles.take(k).last() == bundles[k - 1]);
        assert(bundles[k - 1].0@ != bundles[n].0@);
    }
}

/// Whether two character lists are equal.
fn chars_eq(a: &Vec<char>, b: &Vec<char>) -> (r: bool)
    ensures
        r == (a@ == b@),
{
    if a.len() != b.len() {
        return false;
    }
    let mut i: usize = 0;
    while i < a.len()
        invariant
            a@.len() == b@.len(),
            i <= a@.len(),
            forall|k: int| 0 <= k < i ==> a@[k] == b@[k],
        decreases a@.len() - i,
    {
        if a[i] != b[i] {
            return false;
        }
        i = i + 1;
    }
    assert(a@ =~= b@);
    true
}

impl SoundfontConfig {
    /// Look up the bundle for a mode name as written in the settings file.
    pub fn resolve_bundle(&self, mode: &str) -> (r: Option<&SoundfontBundle>)
        ensures
            match self.bundles {
                None => r is None,
                Some(b) => match bundle_index(b@, mode@) {
                    Some(i) => r == Some(&b@[i].1),
                    None => r is None,
                },
            },
            match self.bundles {
                None => true,
                Some(b) => keys_unique(b@) ==> forall|i: int|
                    0 <= i < b@.len() && (#[trigger] b@[i]).0@ == mode@ ==> r == Some(&b@[i].1),
            },
    {
        if self.bundles.is_none() {
            return None;
        }
        let bundles = self.bundles.as_ref().unwrap();
        proof {
            if keys_unique(bundles@) {
                assert forall|j: int|
                    0 <= j < bundles@.len() && (#[trigger] bundles@[j]).0@ == mode@ implies bundle_index(
                    bundles@,
                    mode@,
                ) == Some(j) by {
                    lemma_unique_key_found(bundles@, mode@, j);
                }
            }
        }
        let key = str_chars(mode);
        let mut i: usize = 0;
        while i < bundles.len()
            invariant
                self.bundles == Some(*bundles),
                i <= bundles@.len(),
                key@ == mode@,
                bundle_index(bundles@.take(i as int), mode@) is None,
            decreases bundles@.len() - i,
        {
            proof {
                assert(bundles@.take(i as int + 1).drop_last() =~= bundles@.take(i as int));
                assert(bundles@.take(i as int + 1).last() == bundles@[i as int]);
            }
            let name = str_chars(bundles[i].0.as_str());
            if chars_eq(&name, &key) {
                proof {
                    assert(bundle_index(bundles@.take(i as int + 1), mode@) == Some(i as int));
                    lemma_bundle_index_prefix(bundles@, mode@, i as int + 1);
                }
                return Some(&bundles[i].1);
            }
            i = i + 1;
        }
        assert(bundles@.take(bundles@.len() as int) =~= bundles@);
        None
    }

    /// Look up the bundle for a detected mode.
    pub fn bundle_for_mode(&self, mode: MidiMode) -> (r: Option<&SoundfontBundle>)
        ensures
            match self.bundles {
                None => r is None,
                Some(b) => match bundle_index(b@, mode_name(mode)) {
                    Some(i) => r == Some(&b@[i].1),
                    None => r is None,
                },
            },
    {
        self.resolve_bundle(mode.name())
    }
}

/// A match among the first `n` bundles is the overall first match.
proof fn lemma_bundle_index_prefix(bundles: Seq<(String, SoundfontBundle)>, mode: Seq<char>, n: int)
    requires
        0 <= n <= bundles.len(),
        bundle_index(bundles.take(n), mode) is Some,
    ensures
        bundle_index(bundles, mode) == bundle_index(bundles.take(n), mode),
    decreases bundles.len() - n,
{
    if n < bundles.len() {
        assert(bundles.take(n + 1).drop_last() =~= bundles.take(n));
        assert(bundle_index(bundles.take(n + 1), mode) == bundle_index(bundles.take(n), mode));
        lemma_bundle_index_prefix(bundles, mode, n + 1);
    } else {
        assert(bundles.take(n) =~= bundles);
    }
}

} // verus!
