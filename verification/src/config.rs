//! The providers and characters the application is configured with.
use vstd::prelude::*;

use crate::character::{same_character, Character};
use crate::json::{key_index_from, lemma_key_index_skip};
use crate::provider::{
    lemma_key_index_bounds, lemma_key_push_new, lemma_key_push_other, lemma_key_remove_unique,
    same_provider, unique_names, Provider,
};
use crate::text::str_eq;

verus! {

broadcast use vstd::string::group_string_axioms;

/// What a change to the configuration can run into. The first three carry
/// the message of a failed read or write of the configuration file.
#[derive(Debug, Clone, PartialEq, Eq)]
pub enum ConfigError {
    IoError(String),
    TomlDeserialiseError(String),
    TomlSerialiseError(String),
    ProviderNotFoundError(String),
    ProviderAlreadyExistsError(String),
    CharacterNotFoundError(String),
    CharacterAlreadyExistsError(String),
}

/// The configured providers and characters, in the order they were added.
pub struct ConfigManager {
    pub providers: Vec<Provider>,
    pub characters: Vec<Character>,
}

pub open spec fn provider_names(ps: Seq<Provider>) -> Seq<Seq<char>> {
    ps.map_values(|p: Provider| p.name@)
}

pub open spec fn character_ids(cs: Seq<Character>) -> Seq<Seq<char>> {
    cs.map_values(|c: Character| c.id@)
}

/// The first provider named `name`.
pub open spec fn provider_index(ps: Seq<Provider>, name: Seq<char>) -> Option<int> {
    key_index_from(provider_names(ps), name, 0)
}

/// The first character with id `id`.
pub open spec fn character_index(cs: Seq<Character>, id: Seq<char>) -> Option<int> {
    key_index_from(character_ids(cs), id, 0)
}

/// A provider added under a fresh name is the one found under that name
/// afterwards, and every other name finds what it found before.
pub proof fn law_added_provider_found(ps: Seq<Provider>, p: Provider, other: Seq<char>)
    requires
        provider_index(ps, p.name@) is None,
    ensures
        provider_index(ps.push(p), p.name@) == Some(ps.len() as int),
        ps.push(p)[ps.len() as int] == p,
        other != p.name@ ==> provider_index(ps.push(p), other) == provider_index(ps, other),
{
    assert(provider_names(ps.push(p)) =~= provider_names(ps).push(p.name@));
    lemma_key_push_new(provider_names(ps), p.name@);
    if other != p.name@ {
        lemma_key_push_other(provider_names(ps), p.name@, other);
    }
}

/// Where provider names are unique, a deleted provider's name is found no more.
pub proof fn law_deleted_provider_gone(ps: Seq<Provider>, name: Seq<char>)
    requires
        unique_names(provider_names(ps)),
        provider_index(ps, name) is Some,
    ensures
        provider_index(ps.remove(provider_index(ps, name).unwrap()), name) is None,
{
    let i = provider_index(ps, name).unwrap();
    lemma_key_index_bounds(provider_names(ps), name, 0);
    assert(provider_names(ps.remove(i)) =~= provider_names(ps).remove(i));
    lemma_key_remove_unique(provider_names(ps), i);
}

/// Adding providers under fresh names keeps the names unique.
pub proof fn law_add_keeps_provider_names_unique(ps: Seq<Provider>, p: Provider)
    requires
        unique_names(provider_names(ps)),
        provider_index(ps, p.name@) is None,
    ensures
        unique_names(provider_names(ps.push(p))),
{
    crate::provider::lemma_key_index_none(provider_names(ps), p.name@);
    assert(provider_names(ps.push(p)) =~= provider_names(ps).push(p.name@));
}

/// A character added under a fresh id is the one found under that id
/// afterwards, and every other id finds what it found before.
pub proof fn law_added_character_found(cs: Seq<Character>, c: Character, other: Seq<char>)
    requires
        character_index(cs, c.id@) is None,
    ensures
        character_index(cs.push(c), c.id@) == Some(cs.len() as int),
        cs.push(c)[cs.len() as int] == c,
        other != c.id@ ==> character_index(cs.push(c), other) == character_index(cs, other),
{
    assert(character_ids(cs.push(c)) =~= character_ids(cs).push(c.id@));
    lemma_key_push_new(character_ids(cs), c.id@);
    if other != c.id@ {
        lemma_key_push_other(character_ids(cs), c.id@, other);
    }
}

/// Where character ids are unique, a deleted character's id is found no more.
pub proof fn law_deleted_character_gone(cs: Seq<Character>, id: Seq<char>)
    requires
        unique_names(character_ids(cs)),
        character_index(cs, id) is Some,
    ensures
        character_index(cs.remove(character_index(cs, id).unwrap()), id) is None,
{
    let i = character_index(cs, id).unwrap();
    lemma_key_index_bounds(character_ids(cs), id, 0);
    assert(character_ids(cs.remove(i)) =~= character_ids(cs).remove(i));
    lemma_key_remove_unique(character_ids(cs), i);
}

fn find_provider(ps: &Vec<Provider>, name: &str) -> (r: Option<usize>)
    ensures
        match r {
            Some(i) => provider_index(ps@, name@) == Some(i as int) && i < ps@.len(),
            None => provider_index(ps@, name@) is None,
        },
{
    let ghost names = provider_names(ps@);
    let mut i: usize = 0;
    while i < ps.len()
        invariant
            i <= ps@.len(),
            names == provider_names(ps@),
            forall|j: int| 0 <= j < i ==> names[j] != name@,
        decreases ps.len() - i,
    {
        if str_eq(ps[i].name.as_str(), name) {
            proof {
                lemma_key_index_skip(names, name@, i as int);
            }
            return Some(i);
        }
        i = i + 1;
    }
    proof {
        lemma_key_index_skip(names, name@, i as int);
    }
    None
}

fn find_character(cs: &Vec<Character>, id: &str) -> (r: Option<usize>)
    ensures
        match r {
            Some(i) => character_index(cs@, id@) == Some(i as int) && i < cs@.len(),
            None => character_index(cs@, id@) is None,
        },
{
    let ghost ids = character_ids(cs@);
    let mut i: usize = 0;
    while i < cs.len()
        invariant
            i <= cs@.len(),
            ids == character_ids(cs@),
            forall|j: int| 0 <= j < i ==> ids[j] != id@,
        decreases cs.len() - i,
    {
        if str_eq(cs[i].id.as_str(), id) {
            proof {
                lemma_key_index_skip(ids, id@, i as int);
            }
            return Some(i);
        }
        i = i + 1;
    }
    proof {
        lemma_key_index_skip(ids, id@, i as int);
    }
    None
}

impl ConfigManager {
    /// A configuration with no providers and no characters.
    pub fn new() -> (r: Self)
        ensures
            r.providers@.len() == 0,
            r.characters@.len() == 0,
    {
        ConfigManager { providers: Vec::new(), characters: Vec::new() }
    }

    /// A configuration holding what was read from the configuration file.
    pub fn from_config(providers: Vec<Provider>, characters: Vec<Character>) -> (r: Self)
        ensures
            r.providers@ == providers@,
            r.characters@ == characters@,
    {
        ConfigManager { providers, characters }
    }

    /// Adds a provider; one of the same name refuses it
    /// (`ProviderAlreadyExistsError`) and nothing changes.
    pub fn add_provider(&mut self, provider: Provider) -> (r: Result<(), ConfigError>)
        ensures
            provider_index(old(self).providers@, provider.name@) is Some ==> {
                &&& r matches Err(ConfigError::ProviderAlreadyExistsError(n)) && n@ == provider.name@
                &&& final(self).providers@ == old(self).providers@
            },
            provider_index(old(self).providers@, provider.name@) is None ==> {
                &&& r is Ok
                &&& final(self).providers@ == old(self).providers@.push(provider)
            },
            final(self).characters@ == old(self).characters@,
    {
        if self.exists_provider(provider.name.as_str()) {
            return Err(ConfigError::ProviderAlreadyExistsError(provider.name.clone()));
        }
        self.providers.push(provider);
        Ok(())
    }

    /// Whether a provider of that name is configured.
    pub fn exists_provider(&self, name: &str) -> (r: bool)
        ensures
            r == provider_index(self.providers@, name@) is Some,
    {
        find_provider(&self.providers, name).is_some()
    }

    /// All providers, in order.
    pub fn get_providers(&self) -> (r: Vec<Provider>)
        ensures
            r@.len() == self.providers@.len(),
            forall|i: int| 0 <= i < r@.len() ==> same_provider(#[trigger] r@[i], self.providers@[i]),
    {
        self.providers.clone()
    }

    /// The first provider of that name.
    pub fn get_provider(&self, name: &str) -> (r: Option<Provider>)
        ensures
            match provider_index(self.providers@, name@) {
                Some(i) => r matches Some(p) && same_provider(p, self.providers@[i]),
                None => r is None,
            },
    {
        match find_provider(&self.providers, name) {
            Some(i) => Some(self.providers[i].clone()),
            None => None,
        }
    }

    /// Replaces the first provider of that name; `ProviderNotFoundError`
    /// where there is none, and nothing changes.
    pub fn update_provider(&mut self, name: &str, provider: Provider) -> (r: Result<(), ConfigError>)
        ensures
            match provider_index(old(self).providers@, name@) {
                Some(i) => r is Ok && final(self).providers@ == old(self).providers@.update(i, provider),
                None => (r matches Err(ConfigError::ProviderNotFoundError(n)) && n@ == name@)
                    && final(self).providers@ == old(self).providers@,
            },
            final(self).characters@ == old(self).characters@,
    {
        match find_provider(&self.providers, name) {
            Some(i) => {
                self.providers.set(i, provider);
                Ok(())
            },
            None => Err(ConfigError::ProviderNotFoundError(name.to_string())),
        }
    }

    /// Removes the first provider of that name; `ProviderNotFoundError`
    /// where there is none, and nothing changes.
    pub fn delete_provider(&mut self, name: &str) -> (r: Result<(), ConfigError>)
        ensures
            match provider_index(old(self).providers@, name@) {
                Some(i) => r is Ok && final(self).providers@ == old(self).providers@.remove(i),
                None => (r matches Err(ConfigError::ProviderNotFoundError(n)) && n@ == name@)
                    && final(self).providers@ == old(self).providers@,
            },
            final(self).characters@ == old(self).characters@,
    {
        match find_provider(&self.providers, name) {
            Some(i) => {
                self.providers.remove(i);
                Ok(())
            },
            None => Err(ConfigError::ProviderNotFoundError(name.to_string())),
        }
    }

    /// All characters, in order.
    pub fn get_characters(&self) -> (r: Vec<Character>)
        ensures
            r@.len() == self.characters@.len(),
            forall|i: int| 0 <= i < r@.len() ==> same_character(#[trigger] r@[i], self.characters@[i]),
    {
        self.characters.clone()
    }

    /// The first character with that id.
    pub fn get_character(&self, id: &str) -> (r: Option<Character>)
        ensures
            match character_index(self.characters@, id@) {
                Some(i) => r matches Some(c) && same_character(c, self.characters@[i]),
                None => r is None,
            },
    {
        match find_character(&self.characters, id) {
            Some(i) => Some(self.characters[i].clone()),
            None => None,
        }
    }

    /// Whether a character with that id is configured.
    pub fn exists_character(&self, id: &str) -> (r: bool)
        ensures
            r == character_index(self.characters@, id@) is Some,
    {
        find_character(&self.characters, id).is_some()
    }

    /// Adds a character; one with the same id refuses it
    /// (`CharacterAlreadyExistsError`) and nothing changes.
    pub fn add_character(&mut self, character: Character) -> (r: Result<(), ConfigError>)
        ensures
            character_index(old(self).characters@, character.id@) is Some ==> {
                &&& r matches Err(ConfigError::CharacterAlreadyExistsError(n)) && n@ == character.id@
                &&& final(self).characters@ == old(self).characters@
            },
            character_index(old(self).characters@, character.id@) is None ==> {
                &&& r is Ok
                &&& final(self).characters@ == old(self).characters@.push(character)
            },
            final(self).providers@ == old(self).providers@,
    {
        if self.exists_character(character.id.as_str()) {
            return Err(ConfigError::CharacterAlreadyExistsError(character.id.clone()));
        }
        self.characters.push(character);
        Ok(())
    }

    /// Replaces the first character with that id; `CharacterNotFoundError`
    /// where there is none, and nothing changes.
    pub fn update_character(&mut self, id: &str, character: Character) -> (r: Result<(), ConfigError>)
        ensures
            match character_index(old(self).characters@, id@) {
                Some(i) => r is Ok && final(self).characters@ == old(self).characters@.update(i, character),
                None => (r matches Err(ConfigError::CharacterNotFoundError(n)) && n@ == id@)
                    && final(self).characters@ == old(self).characters@,
            },
            final(self).providers@ == old(self).providers@,
    {
        match find_character(&self.characters, id) {
            Some(i) => {
                self.characters.set(i, character);
                Ok(())
            },
            None => Err(ConfigError::CharacterNotFoundError(id.to_string())),
        }
    }

    /// Removes the first character with that id; `CharacterNotFoundError`
    /// where there is none, and nothing changes.
    pub fn delete_character(&mut self, id: &str) -> (r: Result<(), ConfigError>)
        ensures
            match character_index(old(self).characters@, id@) {
                Some(i) => r is Ok && final(self).characters@ == old(self).characters@.remove(i),
                None => (r matches Err(ConfigError::CharacterNotFoundError(n)) && n@ == id@)
                    && final(self).characters@ == old(self).characters@,
            },
            final(self).providers@ == old(self).providers@,
    {
        match find_character(&self.characters, id) {
            Some(i) => {
                self.characters.remove(i);
                Ok(())
            },
            None => Err(ConfigError::CharacterNotFoundError(id.to_string())),
        }
    }
}

} // verus!
