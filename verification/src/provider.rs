//! A provider: an endpoint and the models it offers.
use vstd::prelude::*;

use crate::json::{key_index_from, lemma_key_index_skip};
use crate::model::{same_model, Model};
use crate::text::str_eq;

verus! {

broadcast use vstd::string::group_string_axioms;

/// An API provider and its models.
#[derive(Debug)]
pub struct Provider {
    pub name: String,
    pub display_name: String,
    pub base_url: String,
    pub models: Vec<Model>,
}

/// Two providers agree field by field, their models model by model.
pub open spec fn same_provider(a: Provider, b: Provider) -> bool {
    &&& a.name == b.name
    &&& a.display_name == b.display_name
    &&& a.base_url == b.base_url
    &&& a.models@.len() == b.models@.len()
    &&& forall|i: int| 0 <= i < a.models@.len() ==> same_model(#[trigger] a.models@[i], b.models@[i])
}

impl Clone for Provider {
    fn clone(&self) -> (r: Self)
        ensures
            same_provider(r, *self),
    {
        let models = self.models.clone();
        Provider {
            name: self.name.clone(),
            display_name: self.display_name.clone(),
            base_url: self.base_url.clone(),
            models,
        }
    }
}

/// What a change to a provider's models can run into.
#[derive(Debug, Clone, PartialEq, Eq)]
pub enum ProviderError {
    KeyManagerError(String),
    ModelNotFoundError(String),
    ModelAlreadyExistError(String),
}

/// The names of the models, in order.
pub open spec fn model_names(ms: Seq<Model>) -> Seq<Seq<char>> {
    ms.map_values(|m: Model| m.metadata.name@)
}

/// The first model named `name`.
pub open spec fn model_index(ms: Seq<Model>, name: Seq<char>) -> Option<int> {
    key_index_from(model_names(ms), name, 0)
}

pub proof fn lemma_key_index_bounds(keys: Seq<Seq<char>>, key: Seq<char>, i: int)
    ensures
        key_index_from(keys, key, i) matches Some(k) ==> i <= k < keys.len() && keys[k] == key,
    decreases keys.len() - i,
{
    if 0 <= i < keys.len() && keys[i] != key {
        lemma_key_index_bounds(keys, key, i + 1);
    }
}

pub proof fn lemma_key_index_none(keys: Seq<Seq<char>>, key: Seq<char>)
    requires
        key_index_from(keys, key, 0) is None,
    ensures
        forall|j: int| 0 <= j < keys.len() ==> keys[j] != key,
{
    assert forall|j: int| 0 <= j < keys.len() implies keys[j] != key by {
        if keys[j] == key {
            lemma_first_key_le(keys, key, 0, j);
        }
    }
}

proof fn lemma_first_key_le(keys: Seq<Seq<char>>, key: Seq<char>, i: int, j: int)
    requires
        0 <= i <= j < keys.len(),
        keys[j] == key,
    ensures
        key_index_from(keys, key, i) is Some,
    decreases j - i,
{
    if keys[i] != key {
        lemma_first_key_le(keys, key, i + 1, j);
    }
}

/// No name occurs twice.
pub open spec fn unique_names(keys: Seq<Seq<char>>) -> bool {
    forall|i: int, j: int| 0 <= i < j < keys.len() ==> keys[i] != keys[j]
}

pub proof fn lemma_key_push_new(keys: Seq<Seq<char>>, k: Seq<char>)
    requires
        key_index_from(keys, k, 0) is None,
    ensures
        key_index_from(keys.push(k), k, 0) == Some(keys.len() as int),
{
    lemma_key_index_none(keys, k);
    let ks = keys.push(k);
    assert forall|j: int| 0 <= j < keys.len() implies ks[j] != k by {
        assert(ks[j] == keys[j]);
    }
    lemma_key_index_skip(ks, k, keys.len() as int);
}

pub proof fn lemma_key_push_other(keys: Seq<Seq<char>>, k: Seq<char>, other: Seq<char>)
    requires
        other != k,
    ensures
        key_index_from(keys.push(k), other, 0) == key_index_from(keys, other, 0),
{
    lemma_key_push_other_from(keys, k, other, 0);
}

proof fn lemma_key_push_other_from(keys: Seq<Seq<char>>, k: Seq<char>, other: Seq<char>, i: int)
    requires
        other != k,
        0 <= i,
    ensures
        key_index_from(keys.push(k), other, i) == key_index_from(keys, other, i),
    decreases keys.len() + 1 - i,
{
    if i < keys.len() {
        assert(keys.push(k)[i] == keys[i]);
        lemma_key_push_other_from(keys, k, other, i + 1);
    } else if i == keys.len() {
        assert(keys.push(k)[i] == k);
        assert(key_index_from(keys.push(k), other, i + 1) is None);
    }
}

pub proof fn lemma_key_remove_unique(keys: Seq<Seq<char>>, i: int)
    requires
        unique_names(keys),
        0 <= i < keys.len(),
    ensures
        key_index_from(keys.remove(i), keys[i], 0) is None,
{
    let r = keys.remove(i);
    if key_index_from(r, keys[i], 0) is Some {
        lemma_key_index_bounds(r, keys[i], 0);
        let k = key_index_from(r, keys[i], 0).unwrap();
        if k < i {
            assert(r[k] == keys[k]);
        } else {
            assert(r[k] == keys[k + 1]);
        }
    }
}

pub proof fn lemma_model_names_push(ms: Seq<Model>, m: Model)
    ensures
        model_names(ms.push(m)) == model_names(ms).push(m.metadata.name@),
{
    assert(model_names(ms.push(m)) =~= model_names(ms).push(m.metadata.name@));
}

/// A model added under a fresh name is the one found under that name
/// afterwards, and every other name finds what it found before.
pub proof fn law_added_model_found(ms: Seq<Model>, m: Model, other: Seq<char>)
    requires
        model_index(ms, m.metadata.name@) is None,
    ensures
        model_index(ms.push(m), m.metadata.name@) == Some(ms.len() as int),
        ms.push(m)[ms.len() as int] == m,
        other != m.metadata.name@ ==> model_index(ms.push(m), other) == model_index(ms, other),
{
    lemma_model_names_push(ms, m);
    lemma_key_push_new(model_names(ms), m.metadata.name@);
    if other != m.metadata.name@ {
        lemma_key_push_other(model_names(ms), m.metadata.name@, other);
    }
}

/// Where model names are unique, a deleted model's name is found no more.
pub proof fn law_deleted_model_gone(ms: Seq<Model>, name: Seq<char>)
    requires
        unique_names(model_names(ms)),
        model_index(ms, name) is Some,
    ensures
        model_index(ms.remove(model_index(ms, name).unwrap()), name) is None,
{
    let i = model_index(ms, name).unwrap();
    lemma_key_index_bounds(model_names(ms), name, 0);
    assert(model_names(ms.remove(i)) =~= model_names(ms).remove(i));
    lemma_key_remove_unique(model_names(ms), i);
}

fn find_model(models: &Vec<Model>, name: &str) -> (r: Option<usize>)
    ensures
        match r {
            Some(i) => model_index(models@, name@) == Some(i as int) && i < models@.len(),
            None => model_index(models@, name@) is None,
        },
{
    let ghost names = model_names(models@);
    let mut i: usize = 0;
    while i < models.len()
        invariant
            i <= models@.len(),
            names == model_names(models@),
            forall|j: int| 0 <= j < i ==> names[j] != name@,
        decreases models.len() - i,
    {
        if str_eq(models[i].metadata.name.as_str(), name) {
            proof {
                lemma_key_index_skip(names, name@, i as int);
            }
            return Some(i);
        }
        i = i + 1;
    }
    proof {
        lemma_key_index_skip(names, name@, i as int);
    }
    None
}

impl Provider {
    /// Adds a model. A model of the same name refuses it
    /// (`ModelAlreadyExistError`) and nothing changes.
    pub fn add_model(&mut self, model: Model) -> (r: Result<(), ProviderError>)
        ensures
            model_index(old(self).models@, model.metadata.name@) is Some ==> {
                &&& r matches Err(ProviderError::ModelAlreadyExistError(n)) && n@ == model.metadata.name@
                &&& *final(self) == *old(self)
            },
            model_index(old(self).models@, model.metadata.name@) is None ==> {
                &&& r is Ok
                &&& final(self).models@ == old(self).models@.push(model)
                &&& final(self).name == old(self).name
                &&& final(self).display_name == old(self).display_name
                &&& final(self).base_url == old(self).base_url
            },
    {
        match find_model(&self.models, model.metadata.name.as_str()) {
            Some(_) => Err(ProviderError::ModelAlreadyExistError(model.metadata.name.clone())),
            None => {
                self.models.push(model);
                Ok(())
            },
        }
    }

    /// The first model of that name.
    pub fn get_model(&self, name: &str) -> (r: Option<&Model>)
        ensures
            match model_index(self.models@, name@) {
                Some(i) => r == Some(&self.models@[i]),
                None => r is None,
            },
    {
        match find_model(&self.models, name) {
            Some(i) => Some(&self.models[i]),
            None => None,
        }
    }

    /// Replaces the first model of that name; `ModelNotFoundError` where
    /// there is none, and nothing changes.
    pub fn update_model(&mut self, name: &str, model: Model) -> (r: Result<(), ProviderError>)
        ensures
            match model_index(old(self).models@, name@) {
                Some(i) => r is Ok && final(self).models@ == old(self).models@.update(i, model),
                None => (r matches Err(ProviderError::ModelNotFoundError(n)) && n@ == name@)
                    && final(self).models@ == old(self).models@,
            },
            final(self).name == old(self).name,
            final(self).display_name == old(self).display_name,
            final(self).base_url == old(self).base_url,
    {
        match find_model(&self.models, name) {
            Some(i) => {
                self.models.set(i, model);
                Ok(())
            },
            None => Err(ProviderError::ModelNotFoundError(name.to_string())),
        }
    }

    /// Removes the first model of that name; `ModelNotFoundError` where
    /// there is none, and nothing changes.
    pub fn delete_model(&mut self, name: &str) -> (r: Result<(), ProviderError>)
        ensures
            match model_index(old(self).models@, name@) {
                Some(i) => r is Ok && final(self).models@ == old(self).models@.remove(i),
                None => (r matches Err(ProviderError::ModelNotFoundError(n)) && n@ == name@)
                    && final(self).models@ == old(self).models@,
            },
            final(self).name == old(self).name,
            final(self).display_name == old(self).display_name,
            final(self).base_url == old(self).base_url,
    {
        match find_model(&self.models, name) {
            Some(i) => {
                self.models.remove(i);
                Ok(())
            },
            None => Err(ProviderError::ModelNotFoundError(name.to_string())),
        }
    }
}

} // verus!
