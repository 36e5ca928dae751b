use vstd::prelude::*;
use crate::record::copy_string;

verus! {

/// A player's profile.
#[derive(Debug, Clone, PartialEq)]
pub struct PlayerProfile {
    pub id: String,
    pub name: String,
    pub xp: u32,
}

/// A profile as plain values.
pub struct ProfileView {
    pub id: Seq<char>,
    pub name: Seq<char>,
    pub xp: u32,
}

impl View for PlayerProfile {
    type V = ProfileView;

    open spec fn view(&self) -> ProfileView {
        ProfileView { id: self.id@, name: self.name@, xp: self.xp }
    }
}

impl PlayerProfile {
    /// A new profile for `id`, with no name and no experience points.
    pub fn new(id: String) -> (r: PlayerProfile)
        ensures
            r.id@ == id@,
            r.name@.len() == 0,
            r.xp == 0,
    {
        PlayerProfile { id, name: String::new(), xp: 0 }
    }

    /// A copy of the profile with the same values.
    pub fn duplicate(&self) -> (r: PlayerProfile)
        ensures
            r@ == self@,
    {
        PlayerProfile { id: copy_string(&self.id), name: copy_string(&self.name), xp: self.xp }
    }
}

} // verus!
