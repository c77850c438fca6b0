//! A generation-stamped cache of rarely changing records.
//!
//! Each slot remembers the generation at which its value was stored; a
//! value is served only while the cache is still at that generation, and
//! invalidating the cache moves it to the next generation.

use vstd::prelude::*;
use crate::config::AuthMode;
use crate::models::{Account, Category, CategoryWithPath, Settings, Tag};

verus! {

/// One cached value with the generation it was stored at.
pub struct Slot<T> {
    pub entry: Option<(u64, T)>,
}

impl<T> Slot<T> {
    /// What the slot serves at generation `gen`.
    pub open spec fn lookup(&self, gen: u64) -> Option<T> {
        match self.entry {
            Some(e) => if e.0 == gen {
                Some(e.1)
            } else {
                None
            },
            None => None,
        }
    }

    /// An empty slot.
    pub fn new() -> (res: Self)
        ensures
            res.entry is None,
    {
        Slot { entry: None }
    }

    /// The stored value, when it was stored at generation `gen`.
    pub fn get(&self, gen: u64) -> (res: Option<&T>)
        ensures
            match res {
                Some(v) => self.lookup(gen) == Some(*v),
                None => self.lookup(gen) is None,
            },
    {
        match &self.entry {
            Some((g, v)) => if *g == gen {
                Some(v)
            } else {
                None
            },
            None => None,
        }
    }

    /// Stores `val` as the value of generation `gen`.
    pub fn set(&mut self, gen: u64, val: T)
        ensures
            final(self).entry == Some((gen, val)),
    {
        self.entry = Some((gen, val));
    }
}

/// The cache of settings, categories, tags and accounts.
pub struct AppCache {
    pub generation: u64,
    pub settings: Slot<Settings>,
    pub categories_with_path: Slot<Vec<CategoryWithPath>>,
    pub categories: Slot<Vec<Category>>,
    pub tags: Slot<Vec<Tag>>,
    pub accounts: Slot<Vec<Account>>,
    pub cash_accounts: Slot<Vec<Account>>,
}

impl AppCache {
    pub open spec fn is_empty(&self) -> bool {
        &&& self.settings.entry is None
        &&& self.categories_with_path.entry is None
        &&& self.categories.entry is None
        &&& self.tags.entry is None
        &&& self.accounts.entry is None
        &&& self.cash_accounts.entry is None
    }

    /// An empty cache at generation 0.
    pub fn new() -> (res: Self)
        ensures
            res.generation == 0,
            res.is_empty(),
    {
        AppCache {
            generation: 0,
            settings: Slot::new(),
            categories_with_path: Slot::new(),
            categories: Slot::new(),
            tags: Slot::new(),
            accounts: Slot::new(),
            cash_accounts: Slot::new(),
        }
    }

    /// Moves to the next generation (wrapping), so that nothing stored
    /// before is served.
    pub fn invalidate(&mut self)
        ensures
            final(self).generation == (if old(self).generation == u64::MAX {
                0
            } else {
                old(self).generation + 1
            }),
            final(self).settings == old(self).settings,
            final(self).categories_with_path == old(self).categories_with_path,
            final(self).categories == old(self).categories,
            final(self).tags == old(self).tags,
            final(self).accounts == old(self).accounts,
            final(self).cash_accounts == old(self).cash_accounts,
    {
        self.generation = self.generation.wrapping_add(1);
    }

    /// The current generation.
    pub fn gen(&self) -> (res: u64)
        ensures
            res == self.generation,
    {
        self.generation
    }

    /// The cached settings, when stored at the current generation.
    pub fn cached_settings(&self) -> (res: Option<&Settings>)
        ensures
            match res {
                Some(v) => self.settings.lookup(self.generation) == Some(*v),
                None => self.settings.lookup(self.generation) is None,
            },
    {
        self.settings.get(self.generation)
    }

    /// Settings just read from storage, as they are served and cached:
    /// `is_authenticated` tells whether a password guards the application.
    pub fn accept_settings(&mut self, loaded: Settings, auth_mode: &AuthMode) -> (res: Settings)
        ensures
            res == (Settings { is_authenticated: auth_mode is Password, ..loaded }),
            final(self).settings.entry == Some((old(self).generation, res)),
            final(self).generation == old(self).generation,
            final(self).categories_with_path == old(self).categories_with_path,
            final(self).categories == old(self).categories,
            final(self).tags == old(self).tags,
            final(self).accounts == old(self).accounts,
            final(self).cash_accounts == old(self).cash_accounts,
    {
        let authenticated = match auth_mode {
            AuthMode::Password(_) => true,
            AuthMode::Unauthenticated => false,
        };
        let s = Settings { is_authenticated: authenticated, ..loaded };
        let kept = Settings {
            currency: s.currency.clone(),
            locale: s.locale.clone(),
            theme: s.theme.clone(),
            page_size: s.page_size,
            is_authenticated: s.is_authenticated,
        };
        let g = self.generation;
        self.settings.set(g, kept);
        s
    }

    /// Stores settings for the current generation.
    pub fn store_settings(&mut self, s: Settings)
        ensures
            final(self).settings.entry == Some((old(self).generation, s)),
            final(self).generation == old(self).generation,
    {
        let g = self.generation;
        self.settings.set(g, s);
    }
}

/// A value stored at a generation is what the slot serves at that
/// generation, and at no other.
pub proof fn lemma_slot_serves_stored<T>(s: Slot<T>, gen: u64, val: T, other: u64)
    requires
        s.entry == Some((gen, val)),
        other != gen,
    ensures
        s.lookup(gen) == Some(val),
        s.lookup(other) is None,
{
}

/// After an invalidation, a value stored at the old generation is no
/// longer served.
pub proof fn lemma_invalidate_misses<T>(before: AppCache, after: AppCache)
    requires
        after.generation == (if before.generation == u64::MAX { 0 } else { before.generation + 1 }),
        after.settings == before.settings,
        before.settings.entry matches Some(e) && e.0 == before.generation,
    ensures
        after.settings.lookup(after.generation) is None,
{
}

} // verus!
