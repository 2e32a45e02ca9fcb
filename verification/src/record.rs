//! What the interface listing reports of one namespace.

use vstd::prelude::*;

verus! {

/// One address bound to an interface, as the listing gives it.
#[derive(Clone, Debug, PartialEq, Eq)]
pub struct AddressRecord {
    /// The family tag, `inet` or `inet6`.
    pub family: String,
    /// The address as text.
    pub literal: String,
    /// The scope tag, such as `global`, `link` or `host`.
    pub scope: String,
}

/// An `AddressRecord` as mathematical text.
pub struct AddressRecordView {
    pub family: Seq<char>,
    pub literal: Seq<char>,
    pub scope: Seq<char>,
}

impl View for AddressRecord {
    type V = AddressRecordView;

    open spec fn view(&self) -> AddressRecordView {
        AddressRecordView { family: self.family@, literal: self.literal@, scope: self.scope@ }
    }
}

/// One interface of a namespace with the addresses bound to it, in the
/// order of the listing.
#[derive(Clone, Debug, PartialEq, Eq)]
pub struct InterfaceRecord {
    /// The class of the interface; `loopback` for the loopback interface.
    pub class: String,
    /// The addresses bound to the interface.
    pub addresses: Vec<AddressRecord>,
}

/// An `InterfaceRecord` as mathematical text.
pub struct InterfaceRecordView {
    pub class: Seq<char>,
    pub addresses: Seq<AddressRecordView>,
}

impl View for InterfaceRecord {
    type V = InterfaceRecordView;

    open spec fn view(&self) -> InterfaceRecordView {
        InterfaceRecordView { class: self.class@, addresses: address_views(self.addresses@) }
    }
}

/// The views of a list of address records.
pub open spec fn address_views(records: Seq<AddressRecord>) -> Seq<AddressRecordView> {
    records.map_values(|record: AddressRecord| record@)
}

/// The views of a list of interface records.
pub open spec fn interface_views(records: Seq<InterfaceRecord>) -> Seq<InterfaceRecordView> {
    records.map_values(|record: InterfaceRecord| record@)
}

} // verus!
