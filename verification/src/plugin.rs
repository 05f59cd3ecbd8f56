//! Plugins: the manifest, the in-memory registry ordered by name, name
//! validation, and the decisions of an install (which record file, and
//! when an install is refused). Reading manifests and writing records is
//! the caller's I/O.

use vstd::prelude::*;
use crate::text::{append_str, chars_of, lex_lt, lemma_lex_asymmetric, lemma_lex_irreflexive, lemma_lex_total, lemma_lex_transitive, owned, seq_lt};

verus! {

/// A plugin manifest.
#[derive(Debug, Clone, PartialEq, Eq)]
pub struct PluginManifest {
    pub name: String,
    pub version: String,
    /// The plugin needs the sandboxed-tools surface.
    pub requires_sandbox: bool,
    pub description: String,
    /// Names of other plugins this one depends on (informational).
    pub dependencies: Vec<String>,
}

/// A [`PluginManifest`] as plain values.
pub struct ManifestView {
    pub name: Seq<char>,
    pub version: Seq<char>,
    pub requires_sandbox: bool,
    pub description: Seq<char>,
    pub dependencies: Seq<Seq<char>>,
}

impl View for PluginManifest {
    type V = ManifestView;

    open spec fn view(&self) -> ManifestView {
        ManifestView {
            name: self.name@,
            version: self.version@,
            requires_sandbox: self.requires_sandbox,
            description: self.description@,
            dependencies: self.dependencies@.map_values(|d: String| d@),
        }
    }
}

/// Why a plugin operation was refused.
#[derive(Debug, Clone, PartialEq, Eq)]
pub enum PluginError {
    /// The name is not a valid plugin name.
    InvalidName(String),
    /// The registry has no plugin of that name.
    NotInRegistry(String),
    /// A record for that plugin already exists.
    AlreadyInstalled(String),
    /// No record for that plugin exists.
    NotInstalled(String),
}

// --- names --------------------------------------------------------------------

pub open spec fn is_lower(c: char) -> bool {
    'a' <= c && c <= 'z'
}

pub open spec fn is_name_char(c: char) -> bool {
    is_lower(c) || ('0' <= c && c <= '9') || c == '-'
}

/// A valid plugin name: a lowercase letter, then lowercase letters,
/// digits and hyphens (`^[a-z][a-z0-9-]*$`), so that a record file name
/// built from it is always a plain file name.
pub open spec fn valid_name(n: Seq<char>) -> bool {
    n.len() > 0 && is_lower(n[0]) && forall|i: int| 1 <= i < n.len() ==> is_name_char(#[trigger] n[i])
}

/// Checks a plugin name.
pub fn validate_plugin_name(name: &str) -> (r: Result<(), PluginError>)
    ensures
        r is Ok <==> valid_name(name@),
        r matches Err(e) ==> (e matches PluginError::InvalidName(s) && s@ == name@),
{
    let cs = chars_of(name);
    if cs.len() == 0 || !('a' <= cs[0] && cs[0] <= 'z') {
        return Err(PluginError::InvalidName(owned(name)));
    }
    let mut i: usize = 1;
    while i < cs.len()
        invariant
            1 <= i <= cs.len(),
            cs@ == name@,
            forall|j: int| 1 <= j < i ==> is_name_char(#[trigger] cs@[j]),
        decreases cs.len() - i,
    {
        let c = cs[i];
        if !(('a' <= c && c <= 'z') || ('0' <= c && c <= '9') || c == '-') {
            return Err(PluginError::InvalidName(owned(name)));
        }
        i += 1;
    }
    Ok(())
}

// --- the registry -------------------------------------------------------------

/// `ms` with `m` put in its place by name: replacing the manifest of the
/// same name, else inserted before the first larger name.
pub open spec fn insert_by_name(ms: Seq<ManifestView>, m: ManifestView) -> Seq<ManifestView>
    decreases ms.len(),
{
    if ms.len() == 0 {
        seq![m]
    } else if ms[0].name == m.name {
        seq![m] + ms.drop_first()
    } else if lex_lt(m.name, ms[0].name) {
        seq![m] + ms
    } else {
        seq![ms[0]] + insert_by_name(ms.drop_first(), m)
    }
}

/// The registry built from `ms` in order: one manifest per name, the last
/// given for it, ordered by name.
pub open spec fn registry_of(ms: Seq<ManifestView>) -> Seq<ManifestView>
    decreases ms.len(),
{
    if ms.len() == 0 {
        Seq::empty()
    } else {
        insert_by_name(registry_of(ms.drop_last()), ms.last())
    }
}

/// Strictly ordered by name.
pub open spec fn sorted_by_name(ms: Seq<ManifestView>) -> bool {
    forall|i: int, j: int| 0 <= i < j < ms.len() ==> lex_lt(#[trigger] ms[i].name, #[trigger] ms[j].name)
}

/// The known plugins, ordered by name.
#[derive(Debug, Clone)]
pub struct Registry {
    entries: Vec<PluginManifest>,
}

proof fn lemma_insert_at(ms: Seq<ManifestView>, m: ManifestView, p: int)
    requires
        sorted_by_name(ms),
        0 <= p <= ms.len(),
        forall|i: int| 0 <= i < p ==> lex_lt(#[trigger] ms[i].name, m.name),
        p < ms.len() ==> !lex_lt(ms[p].name, m.name),
    ensures
        insert_by_name(ms, m) == if p < ms.len() && ms[p].name == m.name {
            ms.take(p) + seq![m] + ms.skip(p + 1)
        } else {
            ms.take(p) + seq![m] + ms.skip(p)
        },
    decreases p,
{
    if p == 0 {
        if ms.len() > 0 {
            if ms[0].name != m.name {
                lemma_lex_total(ms[0].name, m.name);
            }
            assert(ms.skip(1) =~= ms.drop_first());
        }
        assert(ms.take(0) + seq![m] + ms.skip(0) =~= seq![m] + ms);
        assert(ms.take(0) + seq![m] + ms.skip(1) =~= seq![m] + ms.skip(1));
    } else {
        let t = ms.drop_first();
        assert forall|i: int, j: int| 0 <= i < j < t.len() implies lex_lt(#[trigger] t[i].name, #[trigger] t[j].name) by {
            assert(t[i] == ms[i + 1] && t[j] == ms[j + 1]);
        }
        assert forall|i: int| 0 <= i < p - 1 implies lex_lt(#[trigger] t[i].name, m.name) by {
            assert(t[i] == ms[i + 1]);
        }
        if p < ms.len() {
            assert(t[p - 1] == ms[p]);
        }
        lemma_insert_at(t, m, p - 1);
        assert(lex_lt(ms[0].name, m.name));
        lemma_lex_irreflexive(m.name);
        lemma_lex_asymmetric(ms[0].name, m.name);
        assert(ms[0].name != m.name);
        assert(!lex_lt(m.name, ms[0].name));
        if p < ms.len() && ms[p].name == m.name {
            assert(seq![ms[0]] + (t.take(p - 1) + seq![m] + t.skip(p)) =~= ms.take(p) + seq![m] + ms.skip(p + 1));
        } else {
            assert(seq![ms[0]] + (t.take(p - 1) + seq![m] + t.skip(p - 1)) =~= ms.take(p) + seq![m] + ms.skip(p));
        }
    }
}

impl Registry {
    /// The manifests, ordered by name.
    pub closed spec fn entries(&self) -> Seq<ManifestView> {
        self.entries@.map_values(|m: PluginManifest| m@)
    }

    /// Names are strictly ordered, hence distinct.
    pub closed spec fn wf(&self) -> bool {
        sorted_by_name(self.entries())
    }

    /// An empty registry.
    pub fn new() -> (r: Self)
        ensures
            r.wf(),
            r.entries() == Seq::<ManifestView>::empty(),
    {
        let r = Registry { entries: Vec::new() };
        assert(r.entries() =~= Seq::<ManifestView>::empty());
        r
    }

    /// Adds a manifest: it replaces the one of the same name, if any.
    pub fn insert(&mut self, m: PluginManifest)
        requires
            old(self).wf(),
        ensures
            final(self).wf(),
            final(self).entries() == insert_by_name(old(self).entries(), m@),
    {
        let ghost ms = self.entries();
        let key = chars_of(m.name.as_str());
        let mut p: usize = 0;
        while p < self.entries.len()
            invariant
                p <= self.entries@.len(),
                ms == self.entries@.map_values(|x: PluginManifest| x@),
                key@ == m.name@,
                forall|i: int| 0 <= i < p ==> lex_lt(#[trigger] ms[i].name, m.name@),
            ensures
                p <= self.entries@.len(),
                forall|i: int| 0 <= i < p ==> lex_lt(#[trigger] ms[i].name, m.name@),
                p < self.entries@.len() ==> !lex_lt(ms[p as int].name, m.name@),
            decreases self.entries@.len() - p,
        {
            let name = chars_of(self.entries[p].name.as_str());
            assert(ms[p as int].name == name@);
            if !seq_lt(name.as_slice(), key.as_slice()) {
                break;
            }
            p += 1;
        }
        proof { lemma_insert_at(ms, m@, p as int); }
        let same = p < self.entries.len() && self.entries[p].name == m.name;
        let ghost mv = m@;
        if same {
            self.entries.set(p, m);
            assert(self.entries() =~= ms.take(p as int) + seq![mv] + ms.skip(p + 1));
        } else {
            self.entries.insert(p, m);
            assert(self.entries() =~= ms.take(p as int) + seq![mv] + ms.skip(p as int));
        }
        proof {
            let e = self.entries();
            assert forall|i: int, j: int| 0 <= i < j < e.len() implies lex_lt(#[trigger] e[i].name, #[trigger] e[j].name) by {
                if same {
                    if j == p && i < p {
                    } else if i == p && j > p {
                        assert(e[j] == ms[j]);
                        assert(ms[p as int].name == mv.name);
                        assert(lex_lt(ms[p as int].name, ms[j].name));
                    } else if i != p && j != p {
                        assert(e[i] == ms[i] && e[j] == ms[j]);
                    }
                } else {
                    if j == p && i < p {
                        assert(e[i] == ms[i]);
                    } else if i == p && j > p {
                        assert(e[j] == ms[j - 1]);
                        if j - 1 > p {
                            lemma_lex_total(ms[p as int].name, mv.name);
                            lemma_lex_transitive(mv.name, ms[p as int].name, ms[j - 1].name);
                        } else {
                            lemma_lex_total(ms[p as int].name, mv.name);
                        }
                    } else if i < p && j > p {
                        assert(e[i] == ms[i] && e[j] == ms[j - 1]);
                    } else if i > p {
                        assert(e[i] == ms[i - 1] && e[j] == ms[j - 1]);
                    } else {
                        assert(e[i] == ms[i] && e[j] == ms[j]);
                    }
                }
            }
        }
    }

    /// A registry of `manifests`, the last of each name winning.
    pub fn from_manifests(manifests: Vec<PluginManifest>) -> (r: Self)
        ensures
            r.wf(),
            r.entries() == registry_of(manifests@.map_values(|m: PluginManifest| m@)),
    {
        let ghost all = manifests@.map_values(|m: PluginManifest| m@);
        let mut r = Registry::new();
        let mut rest = manifests;
        let n = rest.len();
        let mut k: usize = 0;
        assert(all.take(0) =~= Seq::<ManifestView>::empty());
        while rest.len() > 0
            invariant
                r.wf(),
                n == all.len(),
                k + rest@.len() == n,
                rest@.map_values(|m: PluginManifest| m@) == all.skip(k as int),
                r.entries() == registry_of(all.take(k as int)),
            decreases rest@.len(),
        {
            let ghost r0 = rest@;
            let ghost rv = r0.map_values(|x: PluginManifest| x@);
            let m = rest.remove(0);
            assert(rest@ == r0.remove(0));
            let ghost rm = rest@.map_values(|x: PluginManifest| x@);
            assert forall|j: int| 0 <= j < rest@.len() implies #[trigger] rm[j] == all.skip(k + 1)[j] by {
                assert(rest@[j] == r0[j + 1]);
                assert(rv[j + 1] == all.skip(k as int)[j + 1]);
            }
            assert(rm =~= all.skip(k + 1));
            assert(m@ == all[k as int]) by {
                assert(r0.map_values(|x: PluginManifest| x@)[0] == all.skip(k as int)[0]);
            }
            r.insert(m);
            assert(all.take(k + 1).drop_last() =~= all.take(k as int));
            k += 1;
        }
        assert(all.take(n as int) =~= all);
        r
    }

    /// All manifests, each once, strictly ordered by name.
    pub fn list_available(&self) -> (r: Vec<&PluginManifest>)
        requires
            self.wf(),
        ensures
            r@.map_values(|m: &PluginManifest| m@) == self.entries(),
            sorted_by_name(r@.map_values(|m: &PluginManifest| m@)),
    {
        let mut out: Vec<&PluginManifest> = Vec::new();
        let mut i: usize = 0;
        while i < self.entries.len()
            invariant
                i <= self.entries@.len(),
                out@.map_values(|m: &PluginManifest| m@) == self.entries().take(i as int),
            decreases self.entries@.len() - i,
        {
            let ghost before = out@.map_values(|m: &PluginManifest| m@);
            out.push(&self.entries[i]);
            assert(out@.map_values(|m: &PluginManifest| m@) =~= before.push(self.entries()[i as int]));
            assert(self.entries().take(i + 1) =~= self.entries().take(i as int).push(self.entries()[i as int]));
            i += 1;
        }
        assert(self.entries().take(self.entries@.len() as int) =~= self.entries());
        out
    }

    /// The manifest named `name`, or `NotInRegistry`.
    pub fn get(&self, name: &str) -> (r: Result<&PluginManifest, PluginError>)
        ensures
            match r {
                Ok(m) => exists|i: int| 0 <= i < self.entries().len() && self.entries()[i] == m@ && m.name@ == name@,
                Err(e) => (forall|i: int| 0 <= i < self.entries().len() ==> self.entries()[i].name != name@)
                    && (e matches PluginError::NotInRegistry(s) && s@ == name@),
            },
    {
        let mut i: usize = 0;
        let key = owned(name);
        while i < self.entries.len()
            invariant
                i <= self.entries@.len(),
                key@ == name@,
                forall|j: int| 0 <= j < i ==> self.entries()[j].name != name@,
            decreases self.entries@.len() - i,
        {
            if self.entries[i].name == key {
                assert(self.entries()[i as int] == self.entries@[i as int]@);
                return Ok(&self.entries[i]);
            }
            i += 1;
        }
        Err(PluginError::NotInRegistry(owned(name)))
    }
}

/// Adding a manifest keeps the registry ordered by name; afterwards the
/// name resolves to exactly that manifest, and every other name keeps
/// its manifest.
pub proof fn law_registry_read_after_insert(ms: Seq<ManifestView>, m: ManifestView)
    requires
        sorted_by_name(ms),
    ensures
        sorted_by_name(insert_by_name(ms, m)),
        insert_by_name(ms, m).contains(m),
        forall|i: int| 0 <= i < insert_by_name(ms, m).len() && (#[trigger] insert_by_name(ms, m)[i]).name == m.name
            ==> insert_by_name(ms, m)[i] == m,
        forall|x: ManifestView| #[trigger] ms.contains(x) && x.name != m.name ==> insert_by_name(ms, m).contains(x),
    decreases ms.len(),
{
    let r = insert_by_name(ms, m);
    if ms.len() == 0 {
        assert(r[0] == m);
    } else if ms[0].name == m.name {
        assert(r[0] == m);
        assert forall|i: int, j: int| 0 <= i < j < r.len() implies lex_lt(#[trigger] r[i].name, #[trigger] r[j].name) by {
            if i == 0 {
                assert(r[j] == ms[j]);
            } else {
                assert(r[i] == ms[i] && r[j] == ms[j]);
            }
        }
        assert forall|i: int| 0 <= i < r.len() && (#[trigger] r[i]).name == m.name implies r[i] == m by {
            if i > 0 {
                assert(r[i] == ms[i]);
                assert(lex_lt(ms[0].name, ms[i].name));
                lemma_lex_irreflexive(m.name);
            }
        }
        assert forall|x: ManifestView| #[trigger] ms.contains(x) && x.name != m.name implies r.contains(x) by {
            let k = choose|k: int| 0 <= k < ms.len() && ms[k] == x;
            assert(k != 0);
            assert(r[k] == x);
        }
    } else if lex_lt(m.name, ms[0].name) {
        assert(r[0] == m);
        assert forall|i: int, j: int| 0 <= i < j < r.len() implies lex_lt(#[trigger] r[i].name, #[trigger] r[j].name) by {
            if i == 0 {
                assert(r[j] == ms[j - 1]);
                if j - 1 > 0 {
                    lemma_lex_transitive(m.name, ms[0].name, ms[j - 1].name);
                }
            } else {
                assert(r[i] == ms[i - 1] && r[j] == ms[j - 1]);
            }
        }
        assert forall|i: int| 0 <= i < r.len() && (#[trigger] r[i]).name == m.name implies r[i] == m by {
            if i > 0 {
                assert(r[i] == ms[i - 1]);
                if i - 1 > 0 {
                    lemma_lex_transitive(m.name, ms[0].name, ms[i - 1].name);
                }
                lemma_lex_irreflexive(m.name);
            }
        }
        assert forall|x: ManifestView| #[trigger] ms.contains(x) && x.name != m.name implies r.contains(x) by {
            let k = choose|k: int| 0 <= k < ms.len() && ms[k] == x;
            assert(r[k + 1] == x);
        }
    } else {
        let t = ms.drop_first();
        assert forall|i: int, j: int| 0 <= i < j < t.len() implies lex_lt(#[trigger] t[i].name, #[trigger] t[j].name) by {
            assert(t[i] == ms[i + 1] && t[j] == ms[j + 1]);
        }
        law_registry_read_after_insert(t, m);
        let rt = insert_by_name(t, m);
        assert(r == seq![ms[0]] + rt);
        lemma_lex_total(ms[0].name, m.name);
        assert(lex_lt(ms[0].name, m.name));
        assert forall|i: int, j: int| 0 <= i < j < r.len() implies lex_lt(#[trigger] r[i].name, #[trigger] r[j].name) by {
            if i == 0 {
                assert(r[j] == rt[j - 1]);
                let y = rt[j - 1];
                if y.name == m.name {
                } else {
                    assert(y == m || t.contains(y)) by {
                        lemma_insert_members(t, m, j - 1);
                    }
                    if y != m {
                        let k = choose|k: int| 0 <= k < t.len() && t[k] == y;
                        assert(t[k] == ms[k + 1]);
                    }
                }
            } else {
                assert(r[i] == rt[i - 1] && r[j] == rt[j - 1]);
            }
        }
        assert(rt.contains(m));
        let km = choose|k: int| 0 <= k < rt.len() && rt[k] == m;
        assert(r[km + 1] == m);
        assert forall|i: int| 0 <= i < r.len() && (#[trigger] r[i]).name == m.name implies r[i] == m by {
            if i == 0 {
                lemma_lex_irreflexive(m.name);
            } else {
                assert(r[i] == rt[i - 1]);
            }
        }
        assert forall|x: ManifestView| #[trigger] ms.contains(x) && x.name != m.name implies r.contains(x) by {
            let k = choose|k: int| 0 <= k < ms.len() && ms[k] == x;
            if k == 0 {
                assert(r[0] == x);
            } else {
                assert(t[k - 1] == x);
                assert(t.contains(x));
                let k2 = choose|k2: int| 0 <= k2 < rt.len() && rt[k2] == x;
                assert(r[k2 + 1] == x);
            }
        }
    }
}

/// Every manifest of `insert_by_name(ms, m)` is `m` or one of `ms`.
proof fn lemma_insert_members(ms: Seq<ManifestView>, m: ManifestView, i: int)
    requires
        0 <= i < insert_by_name(ms, m).len(),
    ensures
        insert_by_name(ms, m)[i] == m || ms.contains(insert_by_name(ms, m)[i]),
    decreases ms.len(),
{
    let r = insert_by_name(ms, m);
    if ms.len() == 0 {
    } else if ms[0].name == m.name {
        if i > 0 {
            assert(r[i] == ms[i]);
        }
    } else if lex_lt(m.name, ms[0].name) {
        if i > 0 {
            assert(r[i] == ms[i - 1]);
        }
    } else {
        if i == 0 {
            assert(r[0] == ms[0]);
        } else {
            lemma_insert_members(ms.drop_first(), m, i - 1);
            let y = insert_by_name(ms.drop_first(), m)[i - 1];
            assert(r[i] == y);
            if y != m {
                let k = choose|k: int| 0 <= k < ms.drop_first().len() && ms.drop_first()[k] == y;
                assert(ms[k + 1] == y);
            }
        }
    }
}

// --- installing ---------------------------------------------------------------

/// The record file of an installed plugin: `<name>.json`.
pub fn record_file_name(name: &str) -> (r: String)
    ensures
        r@ == name@ + ".json"@,
{
    let mut s = owned(name);
    append_str(&mut s, ".json");
    s
}

/// What installing `name` from `registry` writes: the record file name and
/// the registry's manifest, after the name checks out and is found.
pub fn install_from_registry<'a>(registry: &'a Registry, name: &str) -> (r: Result<(String, &'a PluginManifest), PluginError>)
    ensures
        !valid_name(name@) ==> (r matches Err(PluginError::InvalidName(s)) && s@ == name@),
        valid_name(name@) ==> match r {
            Ok((file, m)) => file@ == name@ + ".json"@ && m.name@ == name@
                && exists|i: int| 0 <= i < registry.entries().len() && registry.entries()[i] == m@,
            Err(e) => (e matches PluginError::NotInRegistry(s) && s@ == name@)
                && forall|i: int| 0 <= i < registry.entries().len() ==> registry.entries()[i].name != name@,
        },
{
    match validate_plugin_name(name) {
        Err(e) => Err(e),
        Ok(()) => {
            match registry.get(name) {
                Ok(m) => {
                    let file = record_file_name(m.name.as_str());
                    Ok((file, m))
                },
                Err(e) => Err(e),
            }
        },
    }
}

/// What installing a resolved manifest writes: its record file name, once
/// the manifest's own name checks out (a resolver may return a different
/// name than asked for).
pub fn install_via_resolver(manifest: &PluginManifest) -> (r: Result<String, PluginError>)
    ensures
        r is Ok <==> valid_name(manifest.name@),
        r matches Ok(file) ==> file@ == manifest.name@ + ".json"@,
        r matches Err(e) ==> (e matches PluginError::InvalidName(s) && s@ == manifest.name@),
{
    match validate_plugin_name(manifest.name.as_str()) {
        Err(e) => Err(e),
        Ok(()) => Ok(record_file_name(manifest.name.as_str())),
    }
}

/// A refusal to install over an existing record.
pub fn already_installed(name: &str) -> (r: PluginError)
    ensures
        r matches PluginError::AlreadyInstalled(s) && s@ == name@,
{
    PluginError::AlreadyInstalled(owned(name))
}

// --- removing and listing -------------------------------------------------------

/// The record file to delete when removing `name`, once the name checks
/// out; the caller answers [`not_installed`] when no such record exists.
pub fn remove_target(name: &str) -> (r: Result<String, PluginError>)
    ensures
        r is Ok <==> valid_name(name@),
        r matches Ok(file) ==> file@ == name@ + ".json"@,
        r matches Err(e) ==> (e matches PluginError::InvalidName(s) && s@ == name@),
{
    match validate_plugin_name(name) {
        Err(e) => Err(e),
        Ok(()) => Ok(record_file_name(name)),
    }
}

/// A refusal to remove a plugin that has no record.
pub fn not_installed(name: &str) -> (r: PluginError)
    ensures
        r matches PluginError::NotInstalled(s) && s@ == name@,
{
    PluginError::NotInstalled(owned(name))
}

/// Listed by name: no manifest's name sorts after a later one's.
pub open spec fn listed_by_name(s: Seq<PluginManifest>) -> bool {
    forall|i: int, j: int| 0 <= i < j < s.len() ==> !lex_lt(#[trigger] s[j].name@, #[trigger] s[i].name@)
}

/// A manifest's name is `x`.
pub open spec fn name_is(x: Seq<char>) -> spec_fn(PluginManifest) -> bool {
    |m: PluginManifest| m.name@ == x
}

/// The manifests of `s` named `x`, in their order in `s`.
pub open spec fn with_name(s: Seq<PluginManifest>, x: Seq<char>) -> Seq<PluginManifest> {
    s.filter(name_is(x))
}

proof fn lemma_with_name_insert(s: Seq<PluginManifest>, k: int, m: PluginManifest, x: Seq<char>)
    requires
        0 <= k <= s.len(),
        forall|j: int| k <= j < s.len() ==> (#[trigger] s[j]).name@ != m.name@,
    ensures
        with_name(s.insert(k, m), x) == if m.name@ == x { with_name(s, x).push(m) } else { with_name(s, x) },
{
    let pred = name_is(x);
    let a = s.take(k);
    let b = s.skip(k);
    assert(s.insert(k, m) =~= a.push(m) + b);
    assert(s =~= a + b);
    Seq::filter_distributes_over_add(a.push(m), b, pred);
    Seq::filter_distributes_over_add(a, b, pred);
    a.lemma_filter_push(m, pred);
    if m.name@ == x {
        assert(b.all(|y: PluginManifest| !pred(y))) by {
            assert forall|i: int| 0 <= i < b.len() implies !pred(#[trigger] b[i]) by {
                assert(b[i] == s[k + i]);
            }
        }
        b.lemma_all_neg_filter_empty(pred);
        assert(b.filter(pred) =~= Seq::<PluginManifest>::empty());
        assert(a.filter(pred).push(m) + b.filter(pred) =~= a.filter(pred).push(m));
        assert(a.filter(pred) + b.filter(pred) =~= a.filter(pred));
    }
}

/// Orders the installed manifests by name, as `list` shows them; equal
/// names keep their order.
pub fn installed_by_name(manifests: Vec<PluginManifest>) -> (r: Vec<PluginManifest>)
    ensures
        r@.to_multiset() == manifests@.to_multiset(),
        listed_by_name(r@),
        forall|x: Seq<char>| #[trigger] with_name(r@, x) == with_name(manifests@, x),
{
    broadcast use vstd::seq_lib::group_to_multiset_ensures;
    let ghost all = manifests@;
    let mut rest = manifests;
    let mut out: Vec<PluginManifest> = Vec::new();
    let ghost mut done: int = 0;
    proof {
        assert(out@.to_multiset() =~= vstd::multiset::Multiset::<PluginManifest>::empty());
        assert(all.skip(0) =~= all);
        assert forall|x: Seq<char>| #[trigger] with_name(out@, x) == with_name(all.take(0), x) by {
            assert(out@ =~= all.take(0));
        }
    }
    while rest.len() > 0
        invariant
            out@.to_multiset().add(rest@.to_multiset()) == all.to_multiset(),
            listed_by_name(out@),
            0 <= done <= all.len(),
            rest@ == all.skip(done),
            forall|x: Seq<char>| #[trigger] with_name(out@, x) == with_name(all.take(done), x),
        decreases rest.len(),
    {
        let ghost rest0 = rest@;
        let m = rest.remove(0);
        proof {
            assert(m == all[done]);
        }
        proof {
            vstd::seq_lib::to_multiset_remove(rest0, 0);
        }
        let mn = chars_of(m.name.as_str());
        let mut k: usize = 0;
        while k < out.len() && !seq_lt(mn.as_slice(), chars_of(out[k].name.as_str()).as_slice())
            invariant
                k <= out.len(),
                mn@ == m.name@,
                forall|j: int| 0 <= j < k ==> !lex_lt(m.name@, #[trigger] out@[j].name@),
            decreases out.len() - k,
        {
            k += 1;
        }
        let ghost before = out@;
        proof {
            vstd::seq_lib::to_multiset_insert(before, k as int, m);
            assert forall|j: int| k <= j < before.len() implies lex_lt(m.name@, #[trigger] before[j].name@) by {
                assert(lex_lt(m.name@, before[k as int].name@));
                if j > k {
                    assert(!lex_lt(before[j].name@, before[k as int].name@));
                    lemma_lex_total(before[k as int].name@, before[j].name@);
                    if before[k as int].name@ != before[j].name@ {
                        lemma_lex_transitive(m.name@, before[k as int].name@, before[j].name@);
                    }
                }
            }
        }
        out.insert(k, m);
        proof {
            let now = out@;
            assert(now =~= before.insert(k as int, m));
            assert forall|j: int| k <= j < before.len() implies (#[trigger] before[j]).name@ != m.name@ by {
                lemma_lex_irreflexive(m.name@);
            }
            assert(all.take(done + 1) =~= all.take(done).push(m));
            assert forall|x: Seq<char>| #[trigger] with_name(now, x) == with_name(all.take(done + 1), x) by {
                lemma_with_name_insert(before, k as int, m, x);
                all.take(done).lemma_filter_push(m, name_is(x));
            }
            assert(rest@ =~= all.skip(done + 1));
            done = done + 1;
            assert forall|i: int, j: int| 0 <= i < j < now.len() implies !lex_lt(#[trigger] now[j].name@, #[trigger] now[i].name@) by {
                if i < k && j < k {
                    assert(now[i] == before[i] && now[j] == before[j]);
                } else if i < k && j == k {
                    assert(now[i] == before[i]);
                } else if i < k {
                    assert(now[i] == before[i] && now[j] == before[j - 1]);
                } else if i == k {
                    assert(now[j] == before[j - 1]);
                    lemma_lex_asymmetric(m.name@, before[j - 1].name@);
                } else {
                    assert(now[i] == before[i - 1] && now[j] == before[j - 1]);
                }
            }
            broadcast use vstd::multiset::group_multiset_axioms;
            assert(rest0[0] == m);
            assert(rest0.contains(m));
            vstd::seq_lib::to_multiset_contains(rest0, m);
            assert(out@.to_multiset().add(rest@.to_multiset()) =~= all.to_multiset());
        }
    }
    proof {
        assert(rest@.to_multiset() =~= vstd::multiset::Multiset::<PluginManifest>::empty());
        assert(out@.to_multiset().add(vstd::multiset::Multiset::<PluginManifest>::empty()) =~= out@.to_multiset());
        assert(all.take(done) =~= all);
    }
    out
}

} // verus!
