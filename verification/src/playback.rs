//! The soundboard switch and the sound files that hotkeys play.

use vstd::prelude::*;

verus! {

/// Whether the soundboard is on: sounds play only while it is.
pub struct ActiveState {
    pub active: bool,
}

impl ActiveState {
    /// The soundboard starts switched on.
    pub fn new() -> (r: ActiveState)
        ensures
            r.active,
    {
        ActiveState { active: true }
    }

    /// Switches the soundboard on or off.
    pub fn toggle(&mut self)
        ensures
            final(self).active == !old(self).active,
    {
        self.active = !self.active;
    }
}

/// Where, among the application's resources, the sound named `name` lies.
pub open spec fn sound_path(name: Seq<char>) -> Seq<char> {
    "Sounds\\"@ + name
}

/// The resource to play for a request of the sound `name`: none while the
/// soundboard is off.
pub fn sound_request(active: bool, name: &String) -> (r: Option<String>)
    ensures
        r is Some <==> active,
        r matches Some(p) ==> p@ == sound_path(name@),
{
    if !active {
        return None;
    }
    let mut path = "Sounds\\".to_owned();
    path.append(name.as_str());
    Some(path)
}

} // verus!
