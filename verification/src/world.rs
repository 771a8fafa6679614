//! The shared application state handed to panels.
//!
//! The host owns one `World` for the whole run; the registry passes it to
//! every panel's setup and draw call, one panel at a time.  Panels record
//! the resources they registered by name, so a later call can check that a
//! panel's setup has run.

use crate::text::str_eq;
use vstd::prelude::*;

verus! {

/// The mathematical model of the shared state: the registered resource
/// names, in registration order.
#[verifier::ext_equal]
pub struct WorldView {
    pub resources: Seq<Seq<char>>,
}

/// The shared application state.
pub struct World {
    resources: Vec<&'static str>,
}

impl View for World {
    type V = WorldView;

    closed spec fn view(&self) -> WorldView {
        WorldView { resources: self.resources@.map_values(|s: &'static str| s@) }
    }
}

impl World {
    /// An empty world with no resources registered.
    pub fn new() -> (r: World)
        ensures
            r@.resources == Seq::<Seq<char>>::empty(),
    {
        let r = World { resources: Vec::new() };
        proof {
            assert(r@.resources =~= Seq::<Seq<char>>::empty());
        }
        r
    }

    /// Registers a resource under the given name.
    pub fn register_resource(&mut self, name: &'static str)
        ensures
            final(self)@.resources == old(self)@.resources.push(name@),
    {
        self.resources.push(name);
        proof {
            assert(self.resources@.map_values(|s: &'static str| s@) =~= old(
                self,
            ).resources@.map_values(|s: &'static str| s@).push(name@));
        }
    }

    /// Returns whether a resource was registered under the given name.
    pub fn contains_resource(&self, name: &str) -> (r: bool)
        ensures
            r == self@.resources.contains(name@),
    {
        let n = self.resources.len();
        let mut i: usize = 0;
        while i < n
            invariant
                i <= n,
                n == self.resources@.len(),
                forall|j: int| 0 <= j < i ==> self@.resources[j] != name@,
            decreases n - i,
        {
            if str_eq(self.resources[i], name) {
                assert(self@.resources[i as int] == name@);
                return true;
            }
            i = i + 1;
        }
        assert(forall|j: int| 0 <= j < self@.resources.len() ==> self@.resources[j] != name@);
        false
    }
}

} // verus!
