//! The three lookups.
//!
//! A namespace is looked up by its name for one family, all namespaces are
//! listed with their addresses, and an address is looked up among them.
//! Every lookup is a function of what the listings reported: nothing is
//! kept from one call to the next.

use crate::address::{Addresses, Family, TypedAddress};
use crate::classifier::{
    classified,
    classify,
    given_at,
    lemma_classified_is_qualifying,
    lemma_classified_origin,
    lemma_flatten_contains,
    qualifying,
};
use crate::gateway::GatewayError;
use crate::record::{interface_views, InterfaceRecord, InterfaceRecordView};
use vstd::prelude::*;
use vstd::string::*;

verus! {

/// A namespace with its addresses of one family. The list of addresses is
/// never empty and the list of aliases always is.
#[derive(Clone, Debug, PartialEq, Eq)]
pub struct HostEntry {
    /// The name of the namespace.
    pub name: String,
    /// Other names of the namespace; none is known.
    pub aliases: Vec<String>,
    /// The addresses, all of one family.
    pub addresses: Addresses,
}

/// A `HostEntry` as mathematical text and numbers.
pub struct HostEntryView {
    pub name: Seq<char>,
    pub aliases: Seq<Seq<char>>,
    pub family: Family,
    pub addresses: Seq<TypedAddress>,
}

impl View for HostEntry {
    type V = HostEntryView;

    open spec fn view(&self) -> HostEntryView {
        HostEntryView {
            name: self.name@,
            aliases: self.aliases@.map_values(|alias: String| alias@),
            family: self.addresses.spec_family(),
            addresses: self.addresses.members(),
        }
    }
}

/// Whether an entry is one that a lookup may return: it has at least one
/// address, every address is of its family, and it has no alias.
pub open spec fn well_formed(entry: HostEntryView) -> bool {
    &&& entry.addresses.len() > 0
    &&& entry.aliases.len() == 0
    &&& forall|i: int|
        0 <= i < entry.addresses.len() ==> (#[trigger] entry.addresses[i]).family() == entry.family
}

/// How a lookup ended.
#[derive(Clone, Debug, PartialEq, Eq)]
pub enum Outcome<T> {
    /// The lookup found what was asked for.
    Success(T),
    /// Nothing is known under the name or the address.
    NotFound,
    /// The namespaces of the machine could not be listed.
    Unavailable,
}

/// What the inspection of one namespace reported: its interfaces, or why
/// they could not be had.
pub type Inspection = Result<Vec<InterfaceRecord>, GatewayError>;

/// An `Inspection` as mathematical text.
pub type InspectionView = Result<Seq<InterfaceRecordView>, GatewayError>;

/// The view of an inspection.
pub open spec fn inspection_view(inspection: Inspection) -> InspectionView {
    match inspection {
        Ok(interfaces) => Ok(interface_views(interfaces@)),
        Err(error) => Err(error),
    }
}

/// One listed namespace with the two inspections made of it, one for each
/// family.
#[derive(Debug, PartialEq, Eq)]
pub struct NamespaceReport {
    /// The name of the namespace.
    pub name: String,
    /// The inspection made for the lookup of IPv4 addresses.
    pub v4: Inspection,
    /// The inspection made for the lookup of IPv6 addresses.
    pub v6: Inspection,
}

/// A `NamespaceReport` as mathematical text.
pub struct NamespaceReportView {
    pub name: Seq<char>,
    pub v4: InspectionView,
    pub v6: InspectionView,
}

impl View for NamespaceReport {
    type V = NamespaceReportView;

    open spec fn view(&self) -> NamespaceReportView {
        NamespaceReportView {
            name: self.name@,
            v4: inspection_view(self.v4),
            v6: inspection_view(self.v6),
        }
    }
}

/// The namespaces of the machine with their inspections, or why the
/// namespaces could not be listed.
pub type Survey = Result<Vec<NamespaceReport>, GatewayError>;

/// The views of a list of reports.
pub open spec fn report_views(reports: Seq<NamespaceReport>) -> Seq<NamespaceReportView> {
    reports.map_values(|report: NamespaceReport| report@)
}

/// The views of a list of entries.
pub open spec fn entry_views(entries: Seq<HostEntry>) -> Seq<HostEntryView> {
    entries.map_values(|entry: HostEntry| entry@)
}

/// The entry of a namespace for a family: its classified addresses under
/// its name, where the inspection succeeded and there is at least one.
pub open spec fn entry_for(name: Seq<char>, family: Family, inspection: InspectionView) -> Option<
    HostEntryView,
> {
    match inspection {
        Ok(interfaces) => if classified(interfaces, family).len() > 0 {
            Some(
                HostEntryView {
                    name,
                    aliases: Seq::<Seq<char>>::empty(),
                    family,
                    addresses: classified(interfaces, family),
                },
            )
        } else {
            None
        },
        Err(_) => None,
    }
}

/// An entry, if there is one, as a list.
pub open spec fn listed(entry: Option<HostEntryView>) -> Seq<HostEntryView> {
    match entry {
        Some(found) => seq![found],
        None => Seq::<HostEntryView>::empty(),
    }
}

/// The entries of one namespace: that for IPv4, then that for IPv6.
pub open spec fn namespace_entries(report: NamespaceReportView) -> Seq<HostEntryView> {
    listed(entry_for(report.name, Family::V4, report.v4)) + listed(
        entry_for(report.name, Family::V6, report.v6),
    )
}

/// The entries of all namespaces, in the order of the listing.
pub open spec fn enumerated(reports: Seq<NamespaceReportView>) -> Seq<HostEntryView> {
    reports.map_values(|report: NamespaceReportView| namespace_entries(report)).flatten()
}

/// Whether an entry holds an address: the entry is of the family of the
/// address and the address is among its addresses.
pub open spec fn holds(entry: HostEntryView, address: TypedAddress) -> bool {
    entry.family == address.family() && entry.addresses.contains(address)
}

/// Whether the entry at a position is the first that holds an address.
pub open spec fn is_first_holder(entries: Seq<HostEntryView>, at: int, address: TypedAddress) -> bool {
    &&& 0 <= at < entries.len()
    &&& holds(entries[at], address)
    &&& forall|earlier: int| 0 <= earlier < at ==> !holds(#[trigger] entries[earlier], address)
}

/// A namespace with at least one address that counts for the family has an
/// entry for it: under its name, without aliases, of the family, and with
/// exactly the addresses that count.
pub proof fn lemma_forward_success(
    name: Seq<char>,
    family: Family,
    interfaces: Seq<InterfaceRecordView>,
)
    requires
        qualifying(interfaces, family) != Set::<TypedAddress>::empty(),
    ensures
        entry_for(name, family, Ok(interfaces)) is Some,
        entry_for(name, family, Ok(interfaces))->0.name == name,
        entry_for(name, family, Ok(interfaces))->0.aliases.len() == 0,
        entry_for(name, family, Ok(interfaces))->0.family == family,
        entry_for(name, family, Ok(interfaces))->0.addresses.to_set() == qualifying(
            interfaces,
            family,
        ),
{
    lemma_classified_is_qualifying(interfaces, family);
}

/// A namespace without an address that counts for the family has no entry
/// for it, and neither has one whose inspection failed; an entry never has
/// an empty list of addresses.
pub proof fn lemma_forward_miss(name: Seq<char>, family: Family, inspection: InspectionView)
    ensures
        inspection is Err ==> entry_for(name, family, inspection) is None,
        inspection matches Ok(interfaces) && qualifying(interfaces, family) == Set::<
            TypedAddress,
        >::empty() ==> entry_for(name, family, inspection) is None,
        entry_for(name, family, inspection) matches Some(entry) ==> entry.addresses.len() > 0,
{
    if let Ok(interfaces) = inspection {
        lemma_classified_is_qualifying(interfaces, family);
    }
}

/// Every address of an entry has the family of the entry, and came from an
/// interface that is not the loopback and from a record whose scope is not
/// the link.
pub proof fn lemma_entry_addresses(
    name: Seq<char>,
    family: Family,
    interfaces: Seq<InterfaceRecordView>,
    address: TypedAddress,
)
    requires
        entry_for(name, family, Ok(interfaces)) matches Some(entry) && entry.addresses.contains(
            address,
        ),
    ensures
        address.family() == family,
        exists|interface: int, record: int|
            0 <= interface < interfaces.len() && 0 <= record
                < interfaces[interface].addresses.len() && interfaces[interface].class
                != "loopback"@ && interfaces[interface].addresses[record].scope != "link"@
                && #[trigger] given_at(
                interfaces,
                family,
                interface,
                record,
                address,
            ),
{
    lemma_classified_origin(interfaces, family, address);
}

/// Every entry of a namespace for a family is well formed.
pub proof fn lemma_entry_well_formed(name: Seq<char>, family: Family, inspection: InspectionView)
    ensures
        entry_for(name, family, inspection) matches Some(entry) ==> well_formed(entry)
            && entry.name == name && entry.family == family,
{
    if let Ok(interfaces) = inspection {
        let found = classified(interfaces, family);
        assert forall|i: int| 0 <= i < found.len() implies (#[trigger] found[i]).family()
            == family by {
            assert(found.contains(found[i]));
            lemma_classified_origin(interfaces, family, found[i]);
        }
    }
}

/// A namespace has no entry, one entry or two: one for each family in
/// which it has an address that counts, and that for IPv4 comes first.
pub proof fn lemma_namespace_entries(report: NamespaceReportView)
    ensures
        namespace_entries(report).len() == (if entry_for(report.name, Family::V4, report.v4)
            is Some {
            1int
        } else {
            0int
        }) + (if entry_for(report.name, Family::V6, report.v6) is Some {
            1int
        } else {
            0int
        }),
        entry_for(report.name, Family::V4, report.v4) matches Some(first) ==> namespace_entries(
            report,
        )[0] == first,
        entry_for(report.name, Family::V6, report.v6) matches Some(second) ==> namespace_entries(
            report,
        ).last() == second,
        forall|i: int|
            0 <= i < namespace_entries(report).len() ==> (#[trigger] namespace_entries(
                report,
            )[i]).name == report.name,
{
}

/// The enumeration of a list of namespaces with one more at its end is the
/// enumeration of the list, followed by the entries of that namespace.
pub proof fn lemma_enumerated_push(reports: Seq<NamespaceReportView>, report: NamespaceReportView)
    ensures
        enumerated(Seq::<NamespaceReportView>::empty()) == Seq::<HostEntryView>::empty(),
        enumerated(reports.push(report)) == enumerated(reports) + namespace_entries(report),
{
    let give = |report: NamespaceReportView| namespace_entries(report);
    assert(Seq::<NamespaceReportView>::empty().map_values(give).flatten() =~= Seq::<
        HostEntryView,
    >::empty());
    assert(reports.push(report).map_values(give) =~= reports.map_values(give).push(
        namespace_entries(report),
    ));
    reports.map_values(give).lemma_flatten_push(namespace_entries(report));
}

/// Every entry of the enumeration is the entry of one of the namespaces
/// for one of the families.
pub proof fn lemma_enumerated_origin(reports: Seq<NamespaceReportView>, at: int)
    requires
        0 <= at < enumerated(reports).len(),
    ensures
        exists|k: int|
            0 <= k < reports.len() && (entry_for(
                (#[trigger] reports[k]).name,
                Family::V4,
                reports[k].v4,
            ) == Some(enumerated(reports)[at]) || entry_for(
                reports[k].name,
                Family::V6,
                reports[k].v6,
            ) == Some(enumerated(reports)[at])),
        well_formed(enumerated(reports)[at]),
{
    let per_namespace = reports.map_values(|report: NamespaceReportView| namespace_entries(report));
    let entry = enumerated(reports)[at];
    assert(enumerated(reports).contains(entry));
    lemma_flatten_contains(per_namespace, entry);
    let k = choose|k: int|
        0 <= k < per_namespace.len() && (#[trigger] per_namespace[k]).contains(entry);
    let own = namespace_entries(reports[k]);
    let i = choose|i: int| 0 <= i < own.len() && own[i] == entry;
    lemma_namespace_entries(reports[k]);
    let first = listed(entry_for(reports[k].name, Family::V4, reports[k].v4));
    if i < first.len() {
        assert(first[i] == entry);
    } else {
        assert(listed(entry_for(reports[k].name, Family::V6, reports[k].v6))[i - first.len()]
            == entry);
    }
    lemma_entry_well_formed(reports[k].name, Family::V4, reports[k].v4);
    lemma_entry_well_formed(reports[k].name, Family::V6, reports[k].v6);
}

/// Among entries of which one holds an address there is a first that does.
pub proof fn lemma_first_holder_exists(entries: Seq<HostEntryView>, address: TypedAddress, at: int)
    requires
        0 <= at < entries.len(),
        holds(entries[at], address),
    ensures
        exists|first: int| first <= at && #[trigger] is_first_holder(entries, first, address),
    decreases at,
{
    if exists|earlier: int| 0 <= earlier < at && holds(#[trigger] entries[earlier], address) {
        let earlier = choose|earlier: int|
            0 <= earlier < at && holds(#[trigger] entries[earlier], address);
        lemma_first_holder_exists(entries, address, earlier);
        let first = choose|first: int|
            first <= earlier && #[trigger] is_first_holder(entries, first, address);
        assert(is_first_holder(entries, first, address));
    } else {
        assert(is_first_holder(entries, at, address));
    }
}

/// Looks a namespace up by its name: the entry of the namespace for the
/// family, from the inspection made of the namespace of that name.
pub fn forward_lookup(name: &str, family: Family, inspection: &Inspection) -> (outcome: Outcome<
    HostEntry,
>)
    ensures
        match outcome {
            Outcome::Success(entry) => entry_for(name@, family, inspection_view(*inspection))
                == Some(entry@),
            Outcome::NotFound => entry_for(name@, family, inspection_view(*inspection)) is None,
            Outcome::Unavailable => false,
        },
        outcome matches Outcome::Success(entry) ==> well_formed(entry@),
{
    proof {
        lemma_entry_well_formed(name@, family, inspection_view(*inspection));
    }
    match inspection {
        Ok(interfaces) => {
            let addresses = classify(interfaces, family);
            if addresses.is_empty() {
                Outcome::NotFound
            } else {
                let entry = HostEntry { name: name.to_owned(), aliases: Vec::new(), addresses };
                assert(entry@.aliases =~= Seq::<Seq<char>>::empty());
                Outcome::Success(entry)
            }
        },
        Err(_) => Outcome::NotFound,
    }
}

/// Lists all namespaces with their addresses: for each namespace of the
/// survey, in order, its entry for IPv4 and then its entry for IPv6.
pub fn full_enumeration(survey: &Survey) -> (outcome: Outcome<Vec<HostEntry>>)
    ensures
        match (*survey, outcome) {
            (Ok(reports), Outcome::Success(entries)) => entry_views(entries@) == enumerated(
                report_views(reports@),
            ),
            (Err(_), Outcome::Unavailable) => true,
            _ => false,
        },
{
    let reports = match survey {
        Ok(reports) => reports,
        Err(_) => {
            return Outcome::Unavailable;
        },
    };
    let ghost views = report_views(reports@);
    let ghost per_namespace = views.map_values(
        |report: NamespaceReportView| namespace_entries(report),
    );
    let mut entries: Vec<HostEntry> = Vec::new();
    let mut at: usize = 0;
    assert(per_namespace.take(0).flatten() =~= Seq::<HostEntryView>::empty());
    assert(entry_views(entries@) =~= Seq::<HostEntryView>::empty());
    while at < reports.len()
        invariant
            at <= reports.len(),
            views == report_views(reports@),
            per_namespace == views.map_values(
                |report: NamespaceReportView| namespace_entries(report),
            ),
            entry_views(entries@) == per_namespace.take(at as int).flatten(),
        decreases reports.len() - at,
    {
        let report = &reports[at];
        let ghost before = entry_views(entries@);
        match forward_lookup(report.name.as_str(), Family::V4, &report.v4) {
            Outcome::Success(entry) => {
                entries.push(entry);
                assert(entry_views(entries@) =~= before.push(entry@));
            },
            _ => {},
        }
        let ghost between = entry_views(entries@);
        assert(between =~= before + listed(entry_for(report@.name, Family::V4, report@.v4)));
        match forward_lookup(report.name.as_str(), Family::V6, &report.v6) {
            Outcome::Success(entry) => {
                entries.push(entry);
                assert(entry_views(entries@) =~= between.push(entry@));
            },
            _ => {},
        }
        proof {
            assert(entry_views(entries@) =~= before + namespace_entries(report@));
            assert(per_namespace[at as int] == namespace_entries(views[at as int]));
            assert(per_namespace.take(at + 1) =~= per_namespace.take(at as int).push(
                per_namespace[at as int],
            ));
            per_namespace.take(at as int).lemma_flatten_push(per_namespace[at as int]);
        }
        at = at + 1;
    }
    assert(per_namespace.take(at as int) =~= per_namespace);
    Outcome::Success(entries)
}

/// Looks an address up among the entries: the position of the first
/// entry, in order, that holds the address.
pub fn find_holder(entries: &Vec<HostEntry>, address: TypedAddress) -> (found: Option<usize>)
    ensures
        match found {
            Some(at) => is_first_holder(entry_views(entries@), at as int, address),
            None => forall|at: int|
                0 <= at < entries@.len() ==> !holds(#[trigger] entry_views(entries@)[at], address),
        },
{
    let ghost views = entry_views(entries@);
    let mut at: usize = 0;
    while at < entries.len()
        invariant
            at <= entries.len(),
            views == entry_views(entries@),
            forall|earlier: int| 0 <= earlier < at ==> !holds(#[trigger] views[earlier], address),
        decreases entries.len() - at,
    {
        let held = entries[at].addresses.contains(address);
        proof {
            entries@[at as int].addresses.lemma_family_pure();
            if held {
                let members = entries@[at as int].addresses.members();
                let k = choose|k: int| 0 <= k < members.len() && members[k] == address;
                assert(members[k].family() == entries@[at as int].addresses.spec_family());
            }
            assert(held == holds(views[at as int], address));
        }
        if held {
            return Some(at);
        }
        at = at + 1;
    }
    None
}

/// Looks an address up: the first entry of the enumeration that holds it.
pub fn reverse_lookup(address: TypedAddress, survey: &Survey) -> (outcome: Outcome<HostEntry>)
    ensures
        match (*survey, outcome) {
            (Ok(reports), Outcome::Success(entry)) => exists|at: int|
                #[trigger] is_first_holder(enumerated(report_views(reports@)), at, address)
                    && enumerated(report_views(reports@))[at] == entry@,
            (Ok(reports), Outcome::NotFound) => forall|at: int|
                0 <= at < enumerated(report_views(reports@)).len() ==> !holds(
                    #[trigger] enumerated(report_views(reports@))[at],
                    address,
                ),
            (Err(_), Outcome::Unavailable) => true,
            _ => false,
        },
        outcome matches Outcome::Success(entry) ==> well_formed(entry@) && holds(entry@, address),
{
    match full_enumeration(survey) {
        Outcome::Success(mut entries) => match find_holder(&entries, address) {
            Some(at) => {
                let ghost views = entry_views(entries@);
                let entry = entries.swap_remove(at);
                assert(views[at as int] == entry@);
                proof {
                    if let Ok(reports) = survey {
                        lemma_enumerated_origin(report_views(reports@), at as int);
                    }
                }
                Outcome::Success(entry)
            },
            None => Outcome::NotFound,
        },
        _ => Outcome::Unavailable,
    }
}

} // verus!
