use vstd::prelude::*;

verus! {

/// Identifier of a tab; the registry allocates it.
pub type TabID = usize;

/// A workspace unit known to the server. Its contents beyond the identifier
/// are carried along and never interpreted by the registry.
#[derive(Debug)]
pub struct Tab {
    pub uid: TabID,
    pub name: String,
}

impl Tab {
    pub fn new(uid: TabID, name: String) -> (r: Tab)
        ensures
            r.uid == uid,
            r.name@ == name@,
    {
        Tab { uid, name }
    }
}

} // verus!
