//! Addresses and the two families they come in.

use vstd::prelude::*;

verus! {

/// The version of the Internet Protocol that an address belongs to.
#[derive(Clone, Copy, Debug, PartialEq, Eq, Structural)]
pub enum Family {
    V4,
    V6,
}

/// An address together with its family. The number holds the address with
/// its first byte as the most significant one.
#[derive(Clone, Copy, Debug, PartialEq, Eq, Structural)]
pub enum TypedAddress {
    V4(u32),
    V6(u128),
}

impl TypedAddress {
    /// The family of the address.
    pub open spec fn spec_family(self) -> Family {
        match self {
            TypedAddress::V4(_) => Family::V4,
            TypedAddress::V6(_) => Family::V6,
        }
    }

    /// The family of the address.
    #[verifier::when_used_as_spec(spec_family)]
    pub fn family(self) -> (family: Family)
        ensures
            family == self.spec_family(),
    {
        match self {
            TypedAddress::V4(_) => Family::V4,
            TypedAddress::V6(_) => Family::V6,
        }
    }
}

/// A list of addresses of one family.
#[derive(Clone, Debug, PartialEq, Eq)]
pub enum Addresses {
    V4(Vec<u32>),
    V6(Vec<u128>),
}

impl Addresses {
    /// The family that all addresses of the list have.
    pub open spec fn spec_family(&self) -> Family {
        match *self {
            Addresses::V4(_) => Family::V4,
            Addresses::V6(_) => Family::V6,
        }
    }

    /// The addresses of the list, in order.
    pub open spec fn members(&self) -> Seq<TypedAddress> {
        match *self {
            Addresses::V4(list) => list@.map_values(|address: u32| TypedAddress::V4(address)),
            Addresses::V6(list) => list@.map_values(|address: u128| TypedAddress::V6(address)),
        }
    }

    /// Every address of a list has the family of the list.
    pub proof fn lemma_family_pure(&self)
        ensures
            forall|i: int|
                0 <= i < self.members().len() ==> (#[trigger] self.members()[i]).family()
                    == self.spec_family(),
    {
    }

    /// The list without addresses, for a family.
    pub fn empty(family: Family) -> (list: Addresses)
        ensures
            list.spec_family() == family,
            list.members() == Seq::<TypedAddress>::empty(),
    {
        let list = match family {
            Family::V4 => Addresses::V4(Vec::new()),
            Family::V6 => Addresses::V6(Vec::new()),
        };
        assert(list.members() =~= Seq::<TypedAddress>::empty());
        list
    }

    /// The family that all addresses of the list have.
    #[verifier::when_used_as_spec(spec_family)]
    pub fn family(&self) -> (family: Family)
        ensures
            family == self.spec_family(),
    {
        match self {
            Addresses::V4(_) => Family::V4,
            Addresses::V6(_) => Family::V6,
        }
    }

    /// The number of addresses in the list.
    pub fn len(&self) -> (count: usize)
        ensures
            count == self.members().len(),
    {
        match self {
            Addresses::V4(list) => list.len(),
            Addresses::V6(list) => list.len(),
        }
    }

    /// Whether the list holds no address.
    pub fn is_empty(&self) -> (empty: bool)
        ensures
            empty == (self.members().len() == 0),
    {
        self.len() == 0
    }

    /// Appends an address of the list's family; an address of the other
    /// family is left out.
    pub fn push(&mut self, address: TypedAddress)
        ensures
            final(self).spec_family() == old(self).spec_family(),
            final(self).members() == if address.family() == old(self).spec_family() {
                old(self).members().push(address)
            } else {
                old(self).members()
            },
    {
        let ghost before = self.members();
        match self {
            Addresses::V4(list) => {
                if let TypedAddress::V4(number) = address {
                    list.push(number);
                }
            },
            Addresses::V6(list) => {
                if let TypedAddress::V6(number) = address {
                    list.push(number);
                }
            },
        }
        assert(self.members() =~= if address.family() == old(self).spec_family() {
            before.push(address)
        } else {
            before
        });
    }

    /// Whether the list holds an address. An address of the other family is
    /// never held.
    pub fn contains(&self, address: TypedAddress) -> (held: bool)
        ensures
            held == self.members().contains(address),
    {
        match (self, address) {
            (Addresses::V4(list), TypedAddress::V4(number)) => {
                let mut at: usize = 0;
                while at < list.len()
                    invariant
                        at <= list.len(),
                        *self == Addresses::V4(*list),
                        address == TypedAddress::V4(number),
                        forall|k: int| 0 <= k < at ==> self.members()[k] != address,
                    decreases list.len() - at,
                {
                    if list[at] == number {
                        assert(self.members()[at as int] == address);
                        return true;
                    }
                    at = at + 1;
                }
                false
            },
            (Addresses::V6(list), TypedAddress::V6(number)) => {
                let mut at: usize = 0;
                while at < list.len()
                    invariant
                        at <= list.len(),
                        *self == Addresses::V6(*list),
                        address == TypedAddress::V6(number),
                        forall|k: int| 0 <= k < at ==> self.members()[k] != address,
                    decreases list.len() - at,
                {
                    if list[at] == number {
                        assert(self.members()[at as int] == address);
                        return true;
                    }
                    at = at + 1;
                }
                false
            },
            _ => {
                proof {
                    self.lemma_family_pure();
                }
                false
            },
        }
    }
}

} // verus!
