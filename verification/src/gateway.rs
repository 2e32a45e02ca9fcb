//! What the `ip` tool is asked and what its answers hold.
//!
//! The tool is run by the caller. This module builds the arguments of the
//! two listings and reads what the tool printed: the output must be UTF-8
//! text that holds one JSON array. An element of the array that lacks what
//! a record needs is left out, and the other elements are still read.

use crate::json::{
    json_document,
    json_items,
    json_member,
    member,
    member_text,
    read_document,
    text_member,
};
use crate::record::{
    address_views,
    interface_views,
    AddressRecord,
    AddressRecordView,
    InterfaceRecord,
    InterfaceRecordView,
};
use vstd::prelude::*;
use vstd::string::*;
use vstd::utf8::*;

verus! {

/// What came of one run of the tool.
#[derive(Clone, Debug, PartialEq, Eq)]
pub enum ToolRun {
    /// The tool could not be started, ended with a failure, or its output
    /// could not be read.
    Failed,
    /// The bytes that the tool wrote to its standard output.
    Output(Vec<u8>),
}

/// Why a listing could not be had.
#[derive(Clone, Copy, Debug, PartialEq, Eq, Structural)]
pub enum GatewayError {
    /// The run of the tool failed.
    ToolInvocationFailure,
    /// The output is not UTF-8 text, not JSON, or not a JSON array.
    MalformedOutput,
}

/// The texts of a list of strings.
pub open spec fn texts(strings: Seq<String>) -> Seq<Seq<char>> {
    strings.map_values(|string: String| string@)
}

/// The arguments of the listing of namespaces.
pub open spec fn namespace_listing_arguments() -> Seq<Seq<char>> {
    seq!["-json"@, "netns"@, "ls"@]
}

/// The arguments of the listing of interfaces, in a namespace or, without
/// one, in the namespace of the caller.
pub open spec fn interface_listing_arguments(namespace: Option<Seq<char>>) -> Seq<Seq<char>> {
    match namespace {
        Some(name) => seq!["-json"@, "-n"@, name, "address"@],
        None => seq!["-json"@, "address"@],
    }
}

/// The JSON document in the output of a run.
pub open spec fn document_in(run: ToolRun) -> Result<serde_json::Value, GatewayError> {
    match run {
        ToolRun::Failed => Err(GatewayError::ToolInvocationFailure),
        ToolRun::Output(bytes) => if valid_utf8(bytes@) {
            match json_document(decode_utf8(bytes@)) {
                Some(document) => Ok(document),
                None => Err(GatewayError::MalformedOutput),
            }
        } else {
            Err(GatewayError::MalformedOutput)
        },
    }
}

/// The name in an element of the listing of namespaces: the string member
/// `name` of an object.
pub open spec fn namespace_name_in(element: serde_json::Value) -> Option<Seq<char>> {
    member_text(element, "name"@)
}

/// The address record in an element of `addr_info`: an object with the
/// string members `family`, `local` and `scope`.
pub open spec fn address_record_in(element: serde_json::Value) -> Option<AddressRecordView> {
    match (
        member_text(element, "family"@),
        member_text(element, "local"@),
        member_text(element, "scope"@),
    ) {
        (Some(family), Some(literal), Some(scope)) => Some(
            AddressRecordView { family, literal, scope },
        ),
        _ => None,
    }
}

/// The array member of an object under a key.
pub open spec fn member_items(value: serde_json::Value, key: Seq<char>) -> Option<
    Seq<serde_json::Value>,
> {
    match json_member(value, key) {
        Some(inner) => json_items(inner),
        None => None,
    }
}

/// The interface record in an element of the listing of interfaces: an
/// object with the string member `link_type` and the array member
/// `addr_info`, of which the elements that hold an address record count.
pub open spec fn interface_record_in(element: serde_json::Value) -> Option<InterfaceRecordView> {
    match (member_text(element, "link_type"@), member_items(element, "addr_info"@)) {
        (Some(class), Some(items)) => Some(
            InterfaceRecordView {
                class,
                addresses: items.filter_map(|item: serde_json::Value| address_record_in(item)),
            },
        ),
        _ => None,
    }
}

/// The names that a document lists: those of the elements of the array
/// that hold one, in order.
pub open spec fn namespaces_in_document(document: serde_json::Value) -> Result<
    Seq<Seq<char>>,
    GatewayError,
> {
    match json_items(document) {
        Some(items) => Ok(items.filter_map(|item: serde_json::Value| namespace_name_in(item))),
        None => Err(GatewayError::MalformedOutput),
    }
}

/// The interfaces that a document lists: those of the elements of the
/// array that hold one, in order.
pub open spec fn interfaces_in_document(document: serde_json::Value) -> Result<
    Seq<InterfaceRecordView>,
    GatewayError,
> {
    match json_items(document) {
        Some(items) => Ok(items.filter_map(|item: serde_json::Value| interface_record_in(item))),
        None => Err(GatewayError::MalformedOutput),
    }
}

/// The names that a run of the listing of namespaces gives.
pub open spec fn namespaces_in(run: ToolRun) -> Result<Seq<Seq<char>>, GatewayError> {
    match document_in(run) {
        Ok(document) => namespaces_in_document(document),
        Err(error) => Err(error),
    }
}

/// The interfaces that a run of the listing of interfaces gives.
pub open spec fn interfaces_in(run: ToolRun) -> Result<Seq<InterfaceRecordView>, GatewayError> {
    match document_in(run) {
        Ok(document) => interfaces_in_document(document),
        Err(error) => Err(error),
    }
}

/// `core::str::from_utf8`: the bytes as text where they are well-formed
/// UTF-8, and nothing where they are not. The text holds the characters
/// that the bytes encode.
#[verifier::external_body]
fn utf8_text(bytes: &[u8]) -> (text: Option<&str>)
    ensures
        text is Some <==> valid_utf8(bytes@),
        text matches Some(found) ==> found@ == decode_utf8(bytes@),
{
    match core::str::from_utf8(bytes) {
        Ok(text) => Some(text),
        Err(_) => None,
    }
}

/// Builds the arguments of the listing of namespaces.
pub fn namespace_listing_args() -> (arguments: Vec<String>)
    ensures
        texts(arguments@) == namespace_listing_arguments(),
{
    let mut arguments: Vec<String> = Vec::new();
    arguments.push("-json".to_owned());
    arguments.push("netns".to_owned());
    arguments.push("ls".to_owned());
    assert(texts(arguments@) =~= namespace_listing_arguments());
    arguments
}

/// Builds the arguments of the listing of interfaces.
pub fn interface_listing_args(namespace: Option<&str>) -> (arguments: Vec<String>)
    ensures
        texts(arguments@) == interface_listing_arguments(
            match namespace {
                Some(name) => Some(name@),
                None => None,
            },
        ),
{
    let mut arguments: Vec<String> = Vec::new();
    arguments.push("-json".to_owned());
    match namespace {
        Some(name) => {
            arguments.push("-n".to_owned());
            arguments.push(name.to_owned());
        },
        None => {},
    }
    arguments.push("address".to_owned());
    assert(texts(arguments@) =~= interface_listing_arguments(
        match namespace {
            Some(name) => Some(name@),
            None => None,
        },
    ));
    arguments
}

/// Reads the output of a run as a JSON document.
pub fn read_run(run: &ToolRun) -> (document: Result<serde_json::Value, GatewayError>)
    ensures
        document == document_in(*run),
{
    match run {
        ToolRun::Failed => Err(GatewayError::ToolInvocationFailure),
        ToolRun::Output(bytes) => match utf8_text(bytes.as_slice()) {
            Some(text) => match read_document(text) {
                Some(document) => Ok(document),
                None => Err(GatewayError::MalformedOutput),
            },
            None => Err(GatewayError::MalformedOutput),
        },
    }
}

/// Reads an element of `addr_info`.
pub fn read_address_record(element: &serde_json::Value) -> (record: Option<AddressRecord>)
    ensures
        match record {
            Some(found) => address_record_in(*element) == Some(found@),
            None => address_record_in(*element) is None,
        },
{
    let family = text_member(element, "family");
    let literal = text_member(element, "local");
    let scope = text_member(element, "scope");
    match (family, literal, scope) {
        (Some(family), Some(literal), Some(scope)) => Some(
            AddressRecord { family, literal, scope },
        ),
        _ => None,
    }
}

/// Reads an element of the listing of interfaces.
pub fn read_interface_record(element: &serde_json::Value) -> (record: Option<InterfaceRecord>)
    ensures
        match record {
            Some(found) => interface_record_in(*element) == Some(found@),
            None => interface_record_in(*element) is None,
        },
{
    let class = match text_member(element, "link_type") {
        Some(class) => class,
        None => {
            return None;
        },
    };
    let items = match member(element, "addr_info") {
        Some(inner) => match inner.as_array() {
            Some(items) => items,
            None => {
                return None;
            },
        },
        None => {
            return None;
        },
    };
    let ghost read = |item: serde_json::Value| address_record_in(item);
    let mut addresses: Vec<AddressRecord> = Vec::new();
    let mut at: usize = 0;
    assert(items@.take(0).filter_map(read) =~= Seq::<AddressRecordView>::empty());
    while at < items.len()
        invariant
            at <= items.len(),
            read == |item: serde_json::Value| address_record_in(item),
            address_views(addresses@) == items@.take(at as int).filter_map(read),
        decreases items.len() - at,
    {
        proof {
            items@.lemma_filter_map_take_succ(read, at as int);
        }
        let ghost before = address_views(addresses@);
        match read_address_record(&items[at]) {
            Some(record) => {
                addresses.push(record);
                assert(address_views(addresses@) =~= before.push(record@));
            },
            None => {},
        }
        at = at + 1;
    }
    assert(items@.take(at as int) =~= items@);
    Some(InterfaceRecord { class, addresses })
}

/// The namespaces that a document lists.
pub fn namespaces_of_document(document: &serde_json::Value) -> (names: Result<
    Vec<String>,
    GatewayError,
>)
    ensures
        match names {
            Ok(found) => namespaces_in_document(*document) == Ok::<_, GatewayError>(
                texts(found@),
            ),
            Err(error) => namespaces_in_document(*document) == Err::<Seq<Seq<char>>, _>(error),
        },
{
    let items = match document.as_array() {
        Some(items) => items,
        None => {
            return Err(GatewayError::MalformedOutput);
        },
    };
    let ghost read = |item: serde_json::Value| namespace_name_in(item);
    let mut names: Vec<String> = Vec::new();
    let mut at: usize = 0;
    assert(items@.take(0).filter_map(read) =~= Seq::<Seq<char>>::empty());
    while at < items.len()
        invariant
            at <= items.len(),
            read == |item: serde_json::Value| namespace_name_in(item),
            texts(names@) == items@.take(at as int).filter_map(read),
        decreases items.len() - at,
    {
        proof {
            items@.lemma_filter_map_take_succ(read, at as int);
        }
        let ghost before = texts(names@);
        match text_member(&items[at], "name") {
            Some(name) => {
                names.push(name);
                assert(texts(names@) =~= before.push(name@));
            },
            None => {},
        }
        at = at + 1;
    }
    assert(items@.take(at as int) =~= items@);
    Ok(names)
}

/// The interfaces that a document lists.
pub fn interfaces_of_document(document: &serde_json::Value) -> (interfaces: Result<
    Vec<InterfaceRecord>,
    GatewayError,
>)
    ensures
        match interfaces {
            Ok(found) => interfaces_in_document(*document) == Ok::<_, GatewayError>(
                interface_views(found@),
            ),
            Err(error) => interfaces_in_document(*document) == Err::<
                Seq<InterfaceRecordView>,
                _,
            >(error),
        },
{
    let items = match document.as_array() {
        Some(items) => items,
        None => {
            return Err(GatewayError::MalformedOutput);
        },
    };
    let ghost read = |item: serde_json::Value| interface_record_in(item);
    let mut interfaces: Vec<InterfaceRecord> = Vec::new();
    let mut at: usize = 0;
    assert(items@.take(0).filter_map(read) =~= Seq::<InterfaceRecordView>::empty());
    while at < items.len()
        invariant
            at <= items.len(),
            read == |item: serde_json::Value| interface_record_in(item),
            interface_views(interfaces@) == items@.take(at as int).filter_map(read),
        decreases items.len() - at,
    {
        proof {
            items@.lemma_filter_map_take_succ(read, at as int);
        }
        let ghost before = interface_views(interfaces@);
        match read_interface_record(&items[at]) {
            Some(record) => {
                interfaces.push(record);
                assert(interface_views(interfaces@) =~= before.push(record@));
            },
            None => {},
        }
        at = at + 1;
    }
    assert(items@.take(at as int) =~= items@);
    Ok(interfaces)
}

/// The namespaces that a run of the listing of namespaces gives.
pub fn list_namespaces(run: &ToolRun) -> (names: Result<Vec<String>, GatewayError>)
    ensures
        match names {
            Ok(found) => namespaces_in(*run) == Ok::<_, GatewayError>(texts(found@)),
            Err(error) => namespaces_in(*run) == Err::<Seq<Seq<char>>, _>(error),
        },
        *run is Failed ==> names == Err::<Vec<String>, _>(GatewayError::ToolInvocationFailure),
{
    match read_run(run) {
        Ok(document) => namespaces_of_document(&document),
        Err(error) => Err(error),
    }
}

/// The interfaces that a run of the listing of interfaces gives.
pub fn list_interfaces(run: &ToolRun) -> (interfaces: Result<Vec<InterfaceRecord>, GatewayError>)
    ensures
        match interfaces {
            Ok(found) => interfaces_in(*run) == Ok::<_, GatewayError>(interface_views(found@)),
            Err(error) => interfaces_in(*run) == Err::<Seq<InterfaceRecordView>, _>(error),
        },
        *run is Failed ==> interfaces == Err::<Vec<InterfaceRecord>, _>(
            GatewayError::ToolInvocationFailure,
        ),
{
    match read_run(run) {
        Ok(document) => interfaces_of_document(&document),
        Err(error) => Err(error),
    }
}

} // verus!
