//! Records of the station database that the library's rules read. Timestamps are
//! kept by the storage layer and are not part of these records.
use vstd::prelude::*;
use crate::text;

verus! {

/// A dashboard user.
pub struct User {
    pub id: Option<i32>,
    pub username: String,
    pub password_hash: String,
    /// "admin", "editor" or "viewer".
    pub role: String,
}

impl User {
    pub open spec fn admin_role(&self) -> bool {
        self.role@ == "admin"@
    }

    pub open spec fn editor_role(&self) -> bool {
        self.role@ == "editor"@ || self.role@ == "admin"@
    }

    /// Admins may manage users.
    pub fn is_admin(&self) -> (r: bool)
        ensures
            r == self.admin_role(),
    {
        text::str_eq(self.role.as_str(), "admin")
    }

    /// Editors and admins may change schedules, content, nodes and scripts.
    pub fn is_editor(&self) -> (r: bool)
        ensures
            r == self.editor_role(),
    {
        text::str_eq(self.role.as_str(), "editor") || text::str_eq(self.role.as_str(), "admin")
    }
}

/// A configured AI service (language model or speech synthesis).
pub struct AiProvider {
    pub id: Option<i32>,
    pub name: String,
    pub provider_type: String,
    pub api_key: Option<String>,
    pub endpoint_url: Option<String>,
    pub model_name: Option<String>,
    pub is_active: bool,
    pub provider_category: String,
}

/// A DJ persona (its talkativeness, a fraction, is kept by the caller).
pub struct DjProfile {
    pub id: Option<i32>,
    pub name: String,
    pub personality_prompt: String,
    pub voice_config_json: String,
    pub context_depth: i32,
    pub voice_provider_id: Option<i32>,
    pub llm_provider_id: Option<i32>,
    pub context_script_ids: Option<String>,
}

/// A playable item of the content library.
pub struct ContentItem {
    pub id: Option<i32>,
    pub title: String,
    pub description: Option<String>,
    pub content_type: String,
    pub content_path: String,
    pub adapter_id: Option<i32>,
    pub duration_minutes: Option<i32>,
    pub tags: Option<String>,
    pub node_accessibility: Option<String>,
    pub transformer_scripts: Option<String>,
    pub is_dj_accessible: bool,
}

/// Something a DJ remembers.
pub struct DjMemory {
    pub id: Option<i32>,
    pub dj_id: i32,
    pub memory_type: String,
    pub content: String,
    pub importance_score: i32,
}


/// Every administrator may also do what an editor may.
pub proof fn lemma_admin_is_editor(u: User)
    ensures
        u.admin_role() ==> u.editor_role(),
{
}

} // verus!
