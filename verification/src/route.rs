//! The pages of the site.

use vstd::prelude::*;

verus! {

/// The pages that the site can show.
#[derive(Debug, Clone, Copy, PartialEq, Eq, Structural)]
pub enum AppRoute {
    Profile,
    Qualifications,
    Links,
    Works,
    License,
    Home,
}

impl AppRoute {
    /// The title of the page.
    pub open spec fn title(self) -> Seq<char> {
        match self {
            AppRoute::Profile => "Profile"@,
            AppRoute::Qualifications => "Qualifications"@,
            AppRoute::Links => "Links"@,
            AppRoute::Works => "Works"@,
            AppRoute::License => "License"@,
            AppRoute::Home => "Home"@,
        }
    }

    /// The title of the page.
    pub fn to_string(&self) -> (title: String)
        ensures
            title@ == self.title(),
    {
        match self {
            AppRoute::Profile => "Profile",
            AppRoute::Qualifications => "Qualifications",
            AppRoute::Links => "Links",
            AppRoute::Works => "Works",
            AppRoute::License => "License",
            AppRoute::Home => "Home",
        }.to_owned()
    }

    /// Takes a change of page to `requested`: the page shown afterwards,
    /// and whether it differs from the one shown before.
    pub fn change(self, requested: AppRoute) -> (next: (AppRoute, bool))
        ensures
            next.0 == requested,
            next.1 == (requested != self),
    {
        if requested != self {
            (requested, true)
        } else {
            (self, false)
        }
    }
}

} // verus!
