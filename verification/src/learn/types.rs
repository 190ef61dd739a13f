//! The records that the learning tool passes between its steps.

use vstd::prelude::*;

verus! {

/// One concept chosen for a review session.
pub struct ReviewItem {
    pub concept_path: String,
    pub concept_term: String,
    pub prompt_type: String,
    pub prompt: String,
}

/// The vault's own settings.
pub struct VaultConfig {
    pub default_review_count: usize,
    pub default_domain: Option<String>,
}

impl Default for VaultConfig {
    fn default() -> (r: VaultConfig)
        ensures
            r.default_review_count == 5,
            r.default_domain is None,
    {
        VaultConfig { default_review_count: 5, default_domain: None }
    }
}

/// The grade of one answered review item.
pub struct Grade {
    pub concept_path: String,
    pub score: u32,
    pub feedback: String,
    pub hint: String,
    pub next_review_days: u32,
}

} // verus!
