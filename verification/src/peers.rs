//! The peer registry: the addresses a node floods blocks to, unique by
//! address. Streams and sockets live with the caller; the registry owns
//! the membership decisions.

use crate::strutil::str_eq;
use vstd::prelude::*;

verus! {

/// How often an outbound connection to a new peer is attempted before
/// giving up.
pub const CONNECT_ATTEMPTS: u64 = 3;

/// The registered peer addresses, in registration order. The view is the
/// sequence of their character strings.
pub struct PeerRegistry {
    addresses: Vec<String>,
}

impl View for PeerRegistry {
    type V = Seq<Seq<char>>;

    closed spec fn view(&self) -> Seq<Seq<char>> {
        self.addresses@.map_values(|a: String| a@)
    }
}

impl PeerRegistry {
    /// No address occurs twice.
    pub open spec fn wf(&self) -> bool {
        forall|i: int, j: int| 0 <= i < j < self@.len() ==> self@[i] != self@[j]
    }

    /// An empty registry.
    pub fn new() -> (r: PeerRegistry)
        ensures
            r.wf(),
            r@ == Seq::<Seq<char>>::empty(),
    {
        let r = PeerRegistry { addresses: Vec::new() };
        proof {
            assert(r@ =~= Seq::<Seq<char>>::empty());
        }
        r
    }

    /// Whether an address is already registered.
    pub fn is_connected(&self, address: &str) -> (r: bool)
        ensures
            r == self@.contains(address@),
    {
        let mut i: usize = 0;
        while i < self.addresses.len()
            invariant
                i <= self.addresses@.len(),
                self@.len() == self.addresses@.len(),
                forall|j: int| 0 <= j < i ==> self@[j] != address@,
                forall|j: int| 0 <= j < self@.len() ==> self@[j] == (#[trigger] self.addresses@[j])@,
            decreases self.addresses@.len() - i,
        {
            if str_eq(self.addresses[i].as_str(), address) {
                return true;
            }
            i += 1;
        }
        proof {
            assert(forall|j: int| 0 <= j < self@.len() ==> self@[j] != address@);
        }
        false
    }

    /// Registers an address not yet present; an address already present
    /// is left alone. Says whether the address was added.
    pub fn register(&mut self, address: String) -> (r: bool)
        requires
            old(self).wf(),
        ensures
            final(self).wf(),
            r == !old(self)@.contains(address@),
            r ==> final(self)@ == old(self)@.push(address@),
            !r ==> final(self)@ == old(self)@,
    {
        if self.is_connected(address.as_str()) {
            return false;
        }
        proof {
            assert(self.addresses@.push(address).map_values(|a: String| a@) =~= self@.push(
                address@,
            ));
        }
        self.addresses.push(address);
        true
    }

    /// How many peers are registered.
    pub fn count(&self) -> (r: usize)
        ensures
            r == self@.len(),
    {
        self.addresses.len()
    }

    /// The address registered at a position.
    pub fn address_at(&self, i: usize) -> (r: &String)
        requires
            i < self@.len(),
        ensures
            r@ == self@[i as int],
    {
        &self.addresses[i]
    }
}

} // verus!
