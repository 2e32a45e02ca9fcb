//! Which addresses of a namespace count.
//!
//! An address counts for a family when its interface is not the loopback
//! interface, its scope is not the link, its family tag is that of the
//! family, and its text is an address of the family. An address that fails
//! one of these is left out and the others are not affected. The order of
//! the listing is kept and nothing is removed for occurring twice.

use crate::address::{Addresses, Family, TypedAddress};
use crate::literal::{ipv4_literal, ipv6_literal, parse_ipv4, parse_ipv6};
use crate::record::{
    address_views,
    interface_views,
    AddressRecord,
    AddressRecordView,
    InterfaceRecord,
    InterfaceRecordView,
};
use crate::text::same_text;
use vstd::prelude::*;
use vstd::string::*;
use vstd::utf8::*;

verus! {

/// The tag that the listing gives to the addresses of a family.
pub open spec fn family_tag(family: Family) -> Seq<char> {
    match family {
        Family::V4 => "inet"@,
        Family::V6 => "inet6"@,
    }
}

/// The address that a text writes in a family, if it writes one.
pub open spec fn literal_address(literal: Seq<char>, family: Family) -> Option<TypedAddress> {
    match family {
        Family::V4 => match ipv4_literal(encode_utf8(literal)) {
            Some(number) => Some(TypedAddress::V4(number)),
            None => None,
        },
        Family::V6 => match ipv6_literal(encode_utf8(literal)) {
            Some(number) => Some(TypedAddress::V6(number)),
            None => None,
        },
    }
}

/// Whether a record on an interface of a class passes the filters of a
/// family: the interface is not the loopback, the scope is not the link,
/// and the family tag is that of the family.
pub open spec fn passes(class: Seq<char>, record: AddressRecordView, family: Family) -> bool {
    class != "loopback"@ && record.scope != "link"@ && record.family == family_tag(family)
}

/// The address that a record on an interface of a class gives for a family:
/// the address that its text writes, where it passes the filters.
pub open spec fn record_address(class: Seq<char>, record: AddressRecordView, family: Family) -> Option<
    TypedAddress,
> {
    if passes(class, record, family) {
        literal_address(record.literal, family)
    } else {
        None
    }
}

/// The addresses that one interface gives for a family, in order.
pub open spec fn interface_addresses(interface: InterfaceRecordView, family: Family) -> Seq<
    TypedAddress,
> {
    interface.addresses.filter_map(
        |record: AddressRecordView| record_address(interface.class, record, family),
    )
}

/// The addresses that the interfaces of a namespace give for a family:
/// those of the first interface, then those of the second, and so on.
pub open spec fn classified(interfaces: Seq<InterfaceRecordView>, family: Family) -> Seq<
    TypedAddress,
> {
    interfaces.map_values(
        |interface: InterfaceRecordView| interface_addresses(interface, family),
    ).flatten()
}

/// Whether an address is given by the record at a place of the listing.
pub open spec fn given_at(
    interfaces: Seq<InterfaceRecordView>,
    family: Family,
    interface: int,
    record: int,
    address: TypedAddress,
) -> bool {
    &&& 0 <= interface < interfaces.len()
    &&& 0 <= record < interfaces[interface].addresses.len()
    &&& record_address(interfaces[interface].class, interfaces[interface].addresses[record], family)
        == Some(address)
}

/// The set of addresses that count for a family: those that some record of
/// the listing gives.
pub open spec fn qualifying(interfaces: Seq<InterfaceRecordView>, family: Family) -> Set<
    TypedAddress,
> {
    Set::new(
        |address: TypedAddress|
            exists|interface: int, record: int|
                given_at(interfaces, family, interface, record, address),
    )
}

/// An element of a flattened list is an element of one of the lists, and
/// the other way round.
pub proof fn lemma_flatten_contains<A>(lists: Seq<Seq<A>>, element: A)
    ensures
        lists.flatten().contains(element) <==> exists|i: int|
            0 <= i < lists.len() && (#[trigger] lists[i]).contains(element),
    decreases lists.len(),
{
    if lists.len() == 0 {
        assert(lists.flatten() =~= Seq::<A>::empty());
    } else {
        let front = lists.drop_last();
        let last = lists.last();
        lemma_flatten_contains(front, element);
        front.lemma_flatten_push(last);
        assert(front.push(last) =~= lists);
        let whole = lists.flatten();
        assert(whole =~= front.flatten() + last);
        if whole.contains(element) {
            let at = choose|at: int| 0 <= at < whole.len() && whole[at] == element;
            if at < front.flatten().len() {
                assert(front.flatten()[at] == element);
                assert(front.flatten().contains(element));
                let i = choose|i: int| 0 <= i < front.len() && (#[trigger] front[i]).contains(
                    element,
                );
                assert(lists[i].contains(element));
            } else {
                assert(last[at - front.flatten().len()] == element);
                assert(lists[lists.len() - 1].contains(element));
            }
        }
        if exists|i: int| 0 <= i < lists.len() && (#[trigger] lists[i]).contains(element) {
            let i = choose|i: int| 0 <= i < lists.len() && (#[trigger] lists[i]).contains(element);
            if i < front.len() {
                assert(front[i].contains(element));
                let at = choose|at: int|
                    0 <= at < front.flatten().len() && front.flatten()[at] == element;
                assert(whole[at] == element);
            } else {
                let at = choose|at: int| 0 <= at < last.len() && last[at] == element;
                assert(whole[front.flatten().len() + at] == element);
            }
        }
    }
}

/// An element of a filtered and mapped list is what the function gives for
/// an element of the list, and the other way round.
pub proof fn lemma_filter_map_contains<A, B>(list: Seq<A>, give: spec_fn(A) -> Option<B>, element: B)
    ensures
        list.filter_map(give).contains(element) <==> exists|j: int|
            0 <= j < list.len() && give(#[trigger] list[j]) == Some(element),
    decreases list.len(),
{
    if list.len() > 0 {
        let front = list.drop_last();
        lemma_filter_map_contains(front, give, element);
        let kept = list.filter_map(give);
        let kept_front = front.filter_map(give);
        if kept.contains(element) {
            let at = choose|at: int| 0 <= at < kept.len() && kept[at] == element;
            if at < kept_front.len() {
                assert(kept_front[at] == element);
                assert(kept_front.contains(element));
                let j = choose|j: int|
                    0 <= j < front.len() && give(#[trigger] front[j]) == Some(element);
                assert(give(list[j]) == Some(element));
            } else {
                assert(give(list[list.len() - 1]) == Some(element));
            }
        }
        if exists|j: int| 0 <= j < list.len() && give(#[trigger] list[j]) == Some(element) {
            let j = choose|j: int| 0 <= j < list.len() && give(#[trigger] list[j]) == Some(element);
            if j < front.len() {
                assert(give(front[j]) == Some(element));
                let at = choose|at: int| 0 <= at < kept_front.len() && kept_front[at] == element;
                assert(kept[at] == element);
            } else {
                assert(kept[kept.len() - 1] == element);
            }
        }
    }
}

/// The classified addresses are exactly those that some record of the
/// listing gives: an address is among them if and only if a record on an
/// interface that is not the loopback, with a scope that is not the link
/// and with the tag of the family, writes it.
pub proof fn lemma_classified_membership(
    interfaces: Seq<InterfaceRecordView>,
    family: Family,
    address: TypedAddress,
)
    ensures
        classified(interfaces, family).contains(address) <==> exists|interface: int, record: int|
            given_at(interfaces, family, interface, record, address),
{
    let per_interface = interfaces.map_values(
        |interface: InterfaceRecordView| interface_addresses(interface, family),
    );
    lemma_flatten_contains(per_interface, address);
    if classified(interfaces, family).contains(address) {
        let i = choose|i: int|
            0 <= i < per_interface.len() && (#[trigger] per_interface[i]).contains(address);
        let give = |record: AddressRecordView| record_address(interfaces[i].class, record, family);
        lemma_filter_map_contains(interfaces[i].addresses, give, address);
        let j = choose|j: int|
            0 <= j < interfaces[i].addresses.len() && give(#[trigger] interfaces[i].addresses[j])
                == Some(address);
        assert(given_at(interfaces, family, i, j, address));
    }
    if exists|interface: int, record: int|
        given_at(interfaces, family, interface, record, address) {
        let (i, j) = choose|interface: int, record: int|
            given_at(interfaces, family, interface, record, address);
        let give = |record: AddressRecordView| record_address(interfaces[i].class, record, family);
        lemma_filter_map_contains(interfaces[i].addresses, give, address);
        assert(give(interfaces[i].addresses[j]) == Some(address));
        assert(per_interface[i].contains(address));
    }
}

/// The set of the classified addresses is the set of the addresses that
/// count for the family.
pub proof fn lemma_classified_is_qualifying(interfaces: Seq<InterfaceRecordView>, family: Family)
    ensures
        classified(interfaces, family).to_set() == qualifying(interfaces, family),
        classified(interfaces, family).len() == 0 <==> qualifying(interfaces, family)
            == Set::<TypedAddress>::empty(),
{
    let found = classified(interfaces, family);
    assert forall|address: TypedAddress|
        found.to_set().contains(address) == qualifying(interfaces, family).contains(
            address,
        ) by {
        lemma_classified_membership(interfaces, family, address);
    }
    assert(found.to_set() =~= qualifying(interfaces, family));
    if found.len() > 0 {
        assert(found.contains(found[0]));
        assert(found.to_set().contains(found[0]));
    } else {
        assert(found.to_set() =~= Set::<TypedAddress>::empty());
    }
}

/// Every classified address came from an interface that is not the
/// loopback and from a record whose scope is not the link, and it has the
/// family that was asked for.
pub proof fn lemma_classified_origin(
    interfaces: Seq<InterfaceRecordView>,
    family: Family,
    address: TypedAddress,
)
    requires
        classified(interfaces, family).contains(address),
    ensures
        address.family() == family,
        exists|interface: int, record: int|
            0 <= interface < interfaces.len() && 0 <= record
                < interfaces[interface].addresses.len() && interfaces[interface].class
                != "loopback"@ && interfaces[interface].addresses[record].scope != "link"@
                && #[trigger] given_at(interfaces, family, interface, record, address),
{
    lemma_classified_membership(interfaces, family, address);
    let (i, j) = choose|interface: int, record: int|
        given_at(interfaces, family, interface, record, address);
    assert(given_at(interfaces, family, i, j, address));
}

/// A listing in which every interface is the loopback gives no address.
pub proof fn lemma_loopback_gives_nothing(interfaces: Seq<InterfaceRecordView>, family: Family)
    requires
        forall|i: int| 0 <= i < interfaces.len() ==> (#[trigger] interfaces[i]).class == "loopback"@,
    ensures
        classified(interfaces, family).len() == 0,
{
    let found = classified(interfaces, family);
    if found.len() > 0 {
        assert(found.contains(found[0]));
        lemma_classified_origin(interfaces, family, found[0]);
    }
}

/// A listing in which every record has the scope of the link gives no
/// address.
pub proof fn lemma_link_scope_gives_nothing(interfaces: Seq<InterfaceRecordView>, family: Family)
    requires
        forall|i: int, j: int|
            0 <= i < interfaces.len() && 0 <= j < interfaces[i].addresses.len()
                ==> (#[trigger] interfaces[i].addresses[j]).scope == "link"@,
    ensures
        classified(interfaces, family).len() == 0,
{
    let found = classified(interfaces, family);
    if found.len() > 0 {
        assert(found.contains(found[0]));
        lemma_classified_origin(interfaces, family, found[0]);
    }
}

/// A record that gives an address is not lost to what stands beside it:
/// its address is among the classified ones whatever the other records of
/// the listing hold, be they well formed or not.
pub proof fn lemma_partial_result(
    interfaces: Seq<InterfaceRecordView>,
    family: Family,
    interface: int,
    record: int,
    address: TypedAddress,
)
    requires
        0 <= interface < interfaces.len(),
        0 <= record < interfaces[interface].addresses.len(),
        record_address(interfaces[interface].class, interfaces[interface].addresses[record], family)
            == Some(address),
    ensures
        classified(interfaces, family).contains(address),
{
    assert(given_at(interfaces, family, interface, record, address));
    lemma_classified_membership(interfaces, family, address);
}

/// Reads the text of a record as an address of a family.
pub fn read_literal(literal: &str, family: Family) -> (address: Option<TypedAddress>)
    ensures
        address == literal_address(literal@, family),
{
    match family {
        Family::V4 => match parse_ipv4(literal.as_bytes()) {
            Some(number) => Some(TypedAddress::V4(number)),
            None => None,
        },
        Family::V6 => match parse_ipv6(literal.as_bytes()) {
            Some(number) => Some(TypedAddress::V6(number)),
            None => None,
        },
    }
}

/// The address that a record on an interface of a class gives for a family.
pub fn read_record(class: &str, record: &AddressRecord, family: Family) -> (address: Option<
    TypedAddress,
>)
    ensures
        address == record_address(class@, record@, family),
        address matches Some(found) ==> found.family() == family,
{
    if same_text(class, "loopback") {
        return None;
    }
    let tag = match family {
        Family::V4 => "inet",
        Family::V6 => "inet6",
    };
    if !same_text(record.family.as_str(), tag) {
        return None;
    }
    if same_text(record.scope.as_str(), "link") {
        return None;
    }
    read_literal(record.literal.as_str(), family)
}

/// The addresses that the interfaces of a namespace give for a family.
pub fn classify(interfaces: &Vec<InterfaceRecord>, family: Family) -> (addresses: Addresses)
    ensures
        addresses.family() == family,
        addresses.members() == classified(interface_views(interfaces@), family),
{
    let ghost views = interface_views(interfaces@);
    let ghost per_interface = views.map_values(
        |interface: InterfaceRecordView| interface_addresses(interface, family),
    );
    let mut found = Addresses::empty(family);
    let mut at: usize = 0;
    assert(per_interface.take(0).flatten() =~= Seq::<TypedAddress>::empty());
    while at < interfaces.len()
        invariant
            at <= interfaces.len(),
            views == interface_views(interfaces@),
            per_interface == views.map_values(
                |interface: InterfaceRecordView| interface_addresses(interface, family),
            ),
            found.family() == family,
            found.members() == per_interface.take(at as int).flatten(),
        decreases interfaces.len() - at,
    {
        let interface = &interfaces[at];
        let ghost records = interface@.addresses;
        let ghost give_here = |record: AddressRecordView| record_address(interface@.class, record, family);
        let ghost before = found.members();
        let mut inner: usize = 0;
        assert(records.take(0).filter_map(give_here) =~= Seq::<TypedAddress>::empty());
        while inner < interface.addresses.len()
            invariant
                inner <= interface.addresses.len(),
                records == interface@.addresses,
                records.len() == interface.addresses.len(),
                give_here == |record: AddressRecordView|
                    record_address(interface@.class, record, family),
                found.family() == family,
                found.members() == before + records.take(inner as int).filter_map(give_here),
            decreases interface.addresses.len() - inner,
        {
            proof {
                records.lemma_filter_map_take_succ(give_here, inner as int);
            }
            match read_record(interface.class.as_str(), &interface.addresses[inner], family) {
                Some(address) => {
                    found.push(address);
                },
                None => {},
            }
            inner = inner + 1;
        }
        proof {
            assert(records.take(inner as int) =~= records);
            assert(per_interface[at as int] == interface_addresses(views[at as int], family));
            assert(per_interface.take(at + 1) =~= per_interface.take(at as int).push(
                per_interface[at as int],
            ));
            per_interface.take(at as int).lemma_flatten_push(per_interface[at as int]);
        }
        at = at + 1;
    }
    assert(per_interface.take(at as int) =~= per_interface);
    found
}

} // verus!
