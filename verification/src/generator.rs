//! A profile together with the pages that were built for it.

use vstd::prelude::*;
use crate::config::{Config, Profile};
use crate::dossier::Dossier;
use crate::page::{page_views, Page};

verus! {

/// One profile of the site and its pages, in the order in which they are
/// recorded and rendered.
pub struct SiteProfile {
    pub profile: Profile,
    pub dossier: Dossier,
    pub pages: Vec<Page>,
}

impl SiteProfile {
    /// The profile with the pages that its registry yields.
    pub fn new(config: &Config, profile: Profile, dossier: Dossier) -> (r: SiteProfile)
        requires
            config.pagination.wf(),
            dossier.config.pagination.wf(),
            dossier@.can_create_pages(),
        ensures
            r.profile == profile,
            r.dossier == dossier,
            page_views(r.pages@) == dossier@.listing_pages(
                config.pagination,
                dossier@.categories.len(),
            ) + dossier@.built_pages(dossier.config.pagination, dossier@.builders.len()),
    {
        let pages = Dossier::create_pages(&dossier, config);
        SiteProfile { profile, dossier, pages }
    }
}

} // verus!
