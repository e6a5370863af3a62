//! The characters ("pals") a conversation can talk to.
use vstd::prelude::*;

verus! {

/// A character: a model, a system prompt and how it introduces itself.
/// `parameters` holds its model settings, one per entry.
#[derive(Debug)]
pub struct Character {
    pub id: String,
    pub name: String,
    pub alias: Option<String>,
    pub avatar: Option<String>,
    pub description: String,
    pub system_prompt: String,
    pub parameters: Vec<String>,
    pub model_id: String,
    pub created_at: i64,
    pub updated_at: i64,
    pub role_bio: String,
}

/// Two characters agree in every field.
pub open spec fn same_character(a: Character, b: Character) -> bool {
    &&& a.id == b.id
    &&& a.name == b.name
    &&& a.alias == b.alias
    &&& a.avatar == b.avatar
    &&& a.description == b.description
    &&& a.system_prompt == b.system_prompt
    &&& a.parameters@ == b.parameters@
    &&& a.model_id == b.model_id
    &&& a.created_at == b.created_at
    &&& a.updated_at == b.updated_at
    &&& a.role_bio == b.role_bio
}

impl Clone for Character {
    fn clone(&self) -> (r: Self)
        ensures
            same_character(r, *self),
    {
        let parameters = self.parameters.clone();
        assert(parameters@ =~= self.parameters@);
        Character {
            id: self.id.clone(),
            name: self.name.clone(),
            alias: self.alias.clone(),
            avatar: self.avatar.clone(),
            description: self.description.clone(),
            system_prompt: self.system_prompt.clone(),
            parameters,
            model_id: self.model_id.clone(),
            created_at: self.created_at,
            updated_at: self.updated_at,
            role_bio: self.role_bio.clone(),
        }
    }
}

} // verus!
