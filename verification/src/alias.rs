//! Aliases: named substitutions for a tool, which may differ by platform.

use vstd::prelude::*;
use crate::platform::Platform;
use crate::text::{lemma_position, position, position_from, same_text};

verus! {

/// A named substitution with a mandatory default and optional overrides, one
/// per platform.
#[derive(Debug, PartialEq, Eq)]
pub struct Alias {
    pub name: String,
    pub default: String,
    pub windows: Option<String>,
    pub linux: Option<String>,
    pub mac: Option<String>,
    pub bsd: Option<String>,
}

/// An alias as mathematical data: the overrides form a map from platform to
/// text.
pub struct AliasView {
    pub name: Seq<char>,
    pub default: Seq<char>,
    pub variants: Map<Platform, Seq<char>>,
}

impl AliasView {
    /// The value of the alias on `platform`: the override for that platform
    /// where there is one, the default otherwise.
    pub open spec fn resolve(self, platform: Platform) -> Seq<char> {
        if self.variants.contains_key(platform) {
            self.variants[platform]
        } else {
            self.default
        }
    }
}

impl View for Alias {
    type V = AliasView;

    open spec fn view(&self) -> AliasView {
        AliasView {
            name: self.name@,
            default: self.default@,
            variants: Map::new(
                |p: Platform| self.slot(p) is Some,
                |p: Platform| (self.slot(p)->0)@,
            ),
        }
    }
}

impl Clone for Alias {
    fn clone(&self) -> (r: Self)
        ensures
            r@ == self@,
    {
        let r = Alias {
            name: self.name.clone(),
            default: self.default.clone(),
            windows: copy_slot(&self.windows),
            linux: copy_slot(&self.linux),
            mac: copy_slot(&self.mac),
            bsd: copy_slot(&self.bsd),
        };
        assert(r@.variants =~= self@.variants);
        r
    }
}

fn copy_slot(slot: &Option<String>) -> (r: Option<String>)
    ensures
        r == *slot,
{
    match slot {
        Some(value) => Some(value.clone()),
        None => None,
    }
}

impl Alias {
    /// The override stored for `platform`, if any.
    pub open spec fn slot(&self, platform: Platform) -> Option<String> {
        match platform {
            Platform::Windows => self.windows,
            Platform::Linux => self.linux,
            Platform::Mac => self.mac,
            Platform::Bsd => self.bsd,
        }
    }

    /// An alias with a default value and no overrides.
    pub fn new(name: &str, default: &str) -> (r: Alias)
        ensures
            r@ == (AliasView { name: name@, default: default@, variants: Map::empty() }),
    {
        let r = Alias {
            name: String::from_str(name),
            default: String::from_str(default),
            windows: None,
            linux: None,
            mac: None,
            bsd: None,
        };
        assert(r@.variants =~= Map::empty());
        r
    }

    /// The same alias with `value` as the override for `platform`, in place
    /// of any earlier override for that platform.
    pub fn with_variant(self, platform: Platform, value: &str) -> (r: Alias)
        ensures
            r@ == (AliasView { variants: self@.variants.insert(platform, value@), ..self@ }),
    {
        let mut r = self;
        let text = Some(String::from_str(value));
        match platform {
            Platform::Windows => {
                r.windows = text;
            },
            Platform::Linux => {
                r.linux = text;
            },
            Platform::Mac => {
                r.mac = text;
            },
            Platform::Bsd => {
                r.bsd = text;
            },
        }
        assert(r@.variants =~= self@.variants.insert(platform, value@));
        r
    }

    /// The value of the alias on `platform`.
    pub fn resolve(&self, platform: Platform) -> (r: &String)
        ensures
            r@ == self@.resolve(platform),
    {
        let slot = match platform {
            Platform::Windows => &self.windows,
            Platform::Linux => &self.linux,
            Platform::Mac => &self.mac,
            Platform::Bsd => &self.bsd,
        };
        match slot {
            Some(value) => value,
            None => &self.default,
        }
    }
}

/// An override decides the value on its own platform and on no other: on
/// every other platform the alias resolves as it did before, and on a
/// platform without an override it resolves to the default.
pub proof fn law_variant_overrides_default(
    alias: AliasView,
    platform: Platform,
    value: Seq<char>,
    other: Platform,
)
    ensures
        (AliasView { variants: alias.variants.insert(platform, value), ..alias }).resolve(platform)
            == value,
        other != platform ==> (AliasView {
            variants: alias.variants.insert(platform, value),
            ..alias
        }).resolve(other) == alias.resolve(other),
        !alias.variants.contains_key(other) ==> alias.resolve(other) == alias.default,
{
}

/// The names of the aliases of a table, in order.
pub open spec fn alias_names(table: Seq<AliasView>) -> Seq<Seq<char>> {
    Seq::new(table.len(), |i: int| table[i].name)
}

/// The alias called `name`, if the table holds one.
pub open spec fn lookup(table: Seq<AliasView>, name: Seq<char>) -> Option<AliasView> {
    let i = position(alias_names(table), name);
    if i < table.len() {
        Some(table[i])
    } else {
        None
    }
}

/// No two aliases of the table share a name.
pub open spec fn distinct_aliases(table: Seq<AliasView>) -> bool {
    alias_names(table).no_duplicates()
}

/// The aliases known to a configuration, at most one per name.
#[derive(Debug)]
pub struct AliasTable {
    entries: Vec<Alias>,
}

impl View for AliasTable {
    type V = Seq<AliasView>;

    closed spec fn view(&self) -> Seq<AliasView> {
        Seq::new(self.entries@.len(), |i: int| self.entries@[i]@)
    }
}

impl AliasTable {
    #[verifier::type_invariant]
    spec fn inv(&self) -> bool {
        distinct_aliases(self@)
    }

    /// A table without aliases.
    pub fn new() -> (r: AliasTable)
        ensures
            r@ == Seq::<AliasView>::empty(),
    {
        let r = AliasTable { entries: Vec::new() };
        assert(r@ =~= Seq::<AliasView>::empty());
        r
    }

    /// The number of aliases.
    pub fn len(&self) -> (r: usize)
        ensures
            r == self@.len(),
            distinct_aliases(self@),
    {
        proof {
            use_type_invariant(self);
        }
        self.entries.len()
    }

    /// The alias at position `index`, in insertion order.
    pub fn entry(&self, index: usize) -> (r: Option<&Alias>)
        ensures
            match r {
                Some(alias) => index < self@.len() && alias@ == self@[index as int],
                None => index >= self@.len(),
            },
    {
        if index < self.entries.len() {
            Some(&self.entries[index])
        } else {
            None
        }
    }

    /// The alias called `name`, if the table holds one.
    pub fn get(&self, name: &str) -> (r: Option<&Alias>)
        ensures
            match r {
                Some(alias) => lookup(self@, name@) == Some(alias@),
                None => lookup(self@, name@) is None,
            },
    {
        let mut i: usize = 0;
        while i < self.entries.len()
            invariant
                i <= self.entries.len(),
                position(alias_names(self@), name@) == position_from(
                    alias_names(self@),
                    name@,
                    i as int,
                ),
            decreases self.entries.len() - i,
        {
            if same_text(self.entries[i].name.as_str(), name) {
                return Some(&self.entries[i]);
            }
            i += 1;
        }
        None
    }

    /// Adds `alias` unless the table already holds one of that name, and
    /// says whether it was added.
    pub fn insert(&mut self, alias: Alias) -> (added: bool)
        ensures
            added == (lookup(old(self)@, alias@.name) is None),
            final(self)@ == if added {
                old(self)@.push(alias@)
            } else {
                old(self)@
            },
            distinct_aliases(final(self)@),
    {
        proof {
            use_type_invariant(&*self);
        }
        let found = self.get(alias.name.as_str()).is_some();
        if found {
            return false;
        }
        proof {
            let names = alias_names(self@);
            lemma_position(names, alias@.name);
            assert(alias_names(self@.push(alias@)) =~= names.push(alias@.name));
            assert(!names.contains(alias@.name));
            assert(names.push(alias@.name).no_duplicates());
        }
        let mut entries: Vec<Alias> = Vec::new();
        std::mem::swap(&mut entries, &mut self.entries);
        entries.push(alias);
        assert(Seq::new(entries@.len(), |i: int| entries@[i]@) =~= old(self)@.push(alias@));
        self.entries = entries;
        true
    }
}

} // verus!
