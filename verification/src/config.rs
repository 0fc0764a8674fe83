//! Configuration: which offenses to report and which paths to skip, and
//! which configuration file applies to a directory.

use vstd::prelude::*;

use crate::offense::{all_kinds, lemma_kind_in_all, spec_config_key, OffenseKind};
use crate::text::str_eq;

verus! {

/// The mathematical value of a configuration: the disabled kinds (in
/// canonical order) and the exclude patterns.
pub struct ConfigView {
    pub disabled: Seq<OffenseKind>,
    pub exclude: Seq<Seq<char>>,
}

/// Parsed configuration controlling which offenses to report and which paths to skip.
#[derive(Debug, Clone)]
pub struct Config {
    disabled_offenses: Vec<OffenseKind>,
    pub exclude_patterns: Vec<String>,
}

impl View for Config {
    type V = ConfigView;

    closed spec fn view(&self) -> ConfigView {
        ConfigView {
            disabled: self.disabled_offenses@,
            exclude: self.exclude_patterns@.map_values(|s: String| s@),
        }
    }
}

/// Whether the `speedups` entries switch the rule with configuration key
/// `key` off: some entry has that key and the value `false`.
pub open spec fn speedup_off(speedups: Seq<(Seq<char>, bool)>, key: Seq<char>) -> bool {
    exists|i: int| 0 <= i < speedups.len() && #[trigger] speedups[i].0 == key && !speedups[i].1
}

/// The kinds of `kinds`, in order, that the `speedups` entries switch off.
pub open spec fn disabled_kinds(kinds: Seq<OffenseKind>, speedups: Seq<(Seq<char>, bool)>) -> Seq<
    OffenseKind,
>
    decreases kinds.len(),
{
    if kinds.len() == 0 {
        seq![]
    } else {
        let rest = disabled_kinds(kinds.drop_last(), speedups);
        if speedup_off(speedups, spec_config_key(kinds.last())) {
            rest.push(kinds.last())
        } else {
            rest
        }
    }
}

/// The views of a list of `speedups` entries.
pub open spec fn speedup_views(v: Seq<(String, bool)>) -> Seq<(Seq<char>, bool)> {
    v.map_values(|e: (String, bool)| (e.0@, e.1))
}

impl Default for Config {
    /// The configuration with every offense enabled and nothing excluded.
    fn default() -> (r: Self)
        ensures
            r@.disabled == Seq::<OffenseKind>::empty(),
            r@.exclude == Seq::<Seq<char>>::empty(),
    {
        let r = Config { disabled_offenses: Vec::new(), exclude_patterns: Vec::new() };
        assert(r@.exclude =~= Seq::<Seq<char>>::empty());
        r
    }
}

fn speedup_is_off(speedups: &[(String, bool)], key: &str) -> (r: bool)
    ensures
        r == speedup_off(speedup_views(speedups@), key@),
{
    let ghost sv = speedup_views(speedups@);
    let mut i: usize = 0;
    while i < speedups.len()
        invariant
            i <= speedups@.len(),
            sv == speedup_views(speedups@),
            forall|j: int| 0 <= j < i ==> !(#[trigger] sv[j].0 == key@ && !sv[j].1),
        decreases speedups@.len() - i,
    {
        assert(sv[i as int] == (speedups@[i as int].0@, speedups@[i as int].1));
        if !speedups[i].1 && str_eq(speedups[i].0.as_str(), key) {
            assert(sv[i as int].0 == key@ && !sv[i as int].1);
            return true;
        }
        i = i + 1;
    }
    false
}

impl Config {
    /// Build a configuration from the entries of the `speedups` table (rule
    /// key and whether the rule is on) and the `exclude_paths` list: the
    /// rules whose key has the value `false` are disabled; unknown keys are
    /// ignored.
    pub fn from_speedups(speedups: &[(String, bool)], exclude_paths: Vec<String>) -> (r: Self)
        ensures
            r@.disabled == disabled_kinds(all_kinds(), speedup_views(speedups@)),
            r@.exclude == exclude_paths@.map_values(|s: String| s@),
    {
        let kinds = OffenseKind::all();
        let mut disabled: Vec<OffenseKind> = Vec::new();
        let mut i: usize = 0;
        assert(kinds@.take(0) =~= Seq::<OffenseKind>::empty());
        while i < kinds.len()
            invariant
                i <= kinds@.len(),
                kinds@ == all_kinds(),
                disabled@ == disabled_kinds(kinds@.take(i as int), speedup_views(speedups@)),
            decreases kinds@.len() - i,
        {
            assert(kinds@.take(i + 1).drop_last() =~= kinds@.take(i as int));
            let k = kinds[i];
            if speedup_is_off(speedups, k.config_key()) {
                disabled.push(k);
            }
            i = i + 1;
        }
        assert(kinds@.take(i as int) =~= kinds@);
        Config { disabled_offenses: disabled, exclude_patterns: exclude_paths }
    }

    /// Check if an offense kind is enabled (not disabled by config).
    pub fn is_enabled(&self, kind: OffenseKind) -> (r: bool)
        ensures
            r == !self@.disabled.contains(kind),
    {
        let mut i: usize = 0;
        while i < self.disabled_offenses.len()
            invariant
                i <= self.disabled_offenses@.len(),
                forall|j: int| 0 <= j < i ==> self.disabled_offenses@[j] != kind,
            decreases self.disabled_offenses@.len() - i,
        {
            if self.disabled_offenses[i] == kind {
                assert(self@.disabled[i as int] == kind);
                return false;
            }
            i = i + 1;
        }
        true
    }
}

proof fn lemma_disabled_kinds_contains(
    kinds: Seq<OffenseKind>,
    speedups: Seq<(Seq<char>, bool)>,
    k: OffenseKind,
)
    ensures
        disabled_kinds(kinds, speedups).contains(k) <==> kinds.contains(k) && speedup_off(
            speedups,
            spec_config_key(k),
        ),
    decreases kinds.len(),
{
    if kinds.len() > 0 {
        let pre = kinds.drop_last();
        lemma_disabled_kinds_contains(pre, speedups, k);
        assert(kinds =~= pre.push(kinds.last()));
        if kinds.contains(k) && !pre.contains(k) {
            let j = choose|j: int| 0 <= j < kinds.len() && kinds[j] == k;
            if j < pre.len() {
                assert(pre[j] == k);
            }
            assert(kinds.last() == k);
        }
        if pre.contains(k) {
            let j = choose|j: int| 0 <= j < pre.len() && pre[j] == k;
            assert(kinds[j] == k);
        }
        let rest = disabled_kinds(pre, speedups);
        if speedup_off(speedups, spec_config_key(kinds.last())) {
            let r = rest.push(kinds.last());
            if r.contains(k) && !rest.contains(k) {
                let j = choose|j: int| 0 <= j < r.len() && r[j] == k;
                if j < rest.len() {
                    assert(rest[j] == k);
                }
            }
            if rest.contains(k) {
                let j = choose|j: int| 0 <= j < rest.len() && rest[j] == k;
                assert(r[j] == k);
            }
            assert(r[r.len() - 1] == kinds.last());
        }
    }
}

/// A configuration built from `speedups` entries disables a rule exactly
/// when some entry with the rule's key has the value `false`; every other
/// rule, including those the entries do not mention, stays enabled.
pub proof fn lemma_rule_disabled_iff_false(speedups: Seq<(Seq<char>, bool)>, k: OffenseKind)
    ensures
        disabled_kinds(all_kinds(), speedups).contains(k) <==> speedup_off(
            speedups,
            spec_config_key(k),
        ),
{
    lemma_kind_in_all(k);
    lemma_disabled_kinds_contains(all_kinds(), speedups, k);
    assert(all_kinds().contains(k)) by {
        assert(all_kinds()[crate::offense::kind_index(k) as int] == k);
    }
}

/// The two configuration file names, in order of precedence.
#[derive(Debug, Clone, Copy, PartialEq, Eq, Structural)]
pub enum ConfigFileName {
    /// `.rubyfast.yml`
    Rubyfast,
    /// `.fasterer.yml`
    Fasterer,
}

impl ConfigFileName {
    /// The file name.
    pub fn file_name(self) -> (r: &'static str)
        ensures
            r@ == (match self {
                ConfigFileName::Rubyfast => ".rubyfast.yml"@,
                ConfigFileName::Fasterer => ".fasterer.yml"@,
            }),
    {
        match self {
            ConfigFileName::Rubyfast => ".rubyfast.yml",
            ConfigFileName::Fasterer => ".fasterer.yml",
        }
    }
}

/// Whether directory `i` holds a configuration file.
pub open spec fn has_config(dirs: Seq<(bool, bool)>, i: int) -> bool {
    dirs[i].0 || dirs[i].1
}

/// The configuration file that applies, given for each directory from the
/// start directory up to the root whether it holds `.rubyfast.yml` and
/// whether it holds `.fasterer.yml`: the file in the nearest directory that
/// holds one, `.rubyfast.yml` preferred.
pub open spec fn spec_find_config_file(dirs: Seq<(bool, bool)>) -> Option<(int, ConfigFileName)> {
    if exists|i: int| 0 <= i < dirs.len() && has_config(dirs, i) {
        let i = choose|i: int|
            0 <= i < dirs.len() && has_config(dirs, i) && forall|j: int|
                0 <= j < i ==> !has_config(dirs, j);
        Some(
            (
                i,
                if dirs[i].0 {
                    ConfigFileName::Rubyfast
                } else {
                    ConfigFileName::Fasterer
                },
            ),
        )
    } else {
        None
    }
}

/// Pick the configuration file that applies: walking up from the start
/// directory (entry 0 of `dirs`, which says whether that directory holds
/// `.rubyfast.yml` and `.fasterer.yml`), the first directory holding either
/// file wins, and `.rubyfast.yml` wins within a directory.
pub fn find_config_file(dirs: &[(bool, bool)]) -> (r: Option<(usize, ConfigFileName)>)
    ensures
        match r {
            Some((i, name)) => spec_find_config_file(dirs@) == Some((i as int, name)),
            None => spec_find_config_file(dirs@) is None,
        },
{
    let mut i: usize = 0;
    while i < dirs.len()
        invariant
            i <= dirs@.len(),
            forall|j: int| 0 <= j < i ==> !has_config(dirs@, j),
        decreases dirs@.len() - i,
    {
        let (preferred, fallback) = dirs[i];
        if preferred || fallback {
            proof {
                let w = choose|k: int|
                    0 <= k < dirs@.len() && has_config(dirs@, k) && forall|j: int|
                        0 <= j < k ==> !has_config(dirs@, j);
                assert(has_config(dirs@, i as int));
                if w != i {
                    if w < i {
                        assert(!has_config(dirs@, w));
                    } else {
                        assert(!has_config(dirs@, i as int));
                    }
                }
            }
            if preferred {
                return Some((i, ConfigFileName::Rubyfast));
            } else {
                return Some((i, ConfigFileName::Fasterer));
            }
        }
        i = i + 1;
    }
    None
}

} // verus!
