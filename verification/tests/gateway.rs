use nss_netns::gateway::{
    interface_listing_args, interfaces_of_document, list_interfaces, list_namespaces,
    namespace_listing_args, namespaces_of_document, read_address_record, read_interface_record,
    read_run, GatewayError, ToolRun,
};
use nss_netns::record::{AddressRecord, InterfaceRecord};

fn output(text: &str) -> ToolRun {
    ToolRun::Output(text.as_bytes().to_vec())
}

fn address(family: &str, literal: &str, scope: &str) -> AddressRecord {
    AddressRecord {
        family: family.to_string(),
        literal: literal.to_string(),
        scope: scope.to_string(),
    }
}

#[test]
fn namespace_listing_asks_for_json() {
    assert_eq!(
        namespace_listing_args(),
        vec!["-json".to_string(), "netns".to_string(), "ls".to_string()]
    );
}

#[test]
fn interface_listing_names_the_namespace() {
    assert_eq!(
        interface_listing_args(Some("blue")),
        vec!["-json".to_string(), "-n".to_string(), "blue".to_string(), "address".to_string()]
    );
    assert_eq!(
        interface_listing_args(None),
        vec!["-json".to_string(), "address".to_string()]
    );
}

#[test]
fn failed_run_is_an_invocation_failure() {
    assert_eq!(list_namespaces(&ToolRun::Failed), Err(GatewayError::ToolInvocationFailure));
    assert_eq!(list_interfaces(&ToolRun::Failed), Err(GatewayError::ToolInvocationFailure));
    assert_eq!(read_run(&ToolRun::Failed), Err(GatewayError::ToolInvocationFailure));
}

#[test]
fn output_that_is_not_utf8_is_malformed() {
    let run = ToolRun::Output(vec![0x5b, 0xff, 0x5d]);
    assert_eq!(list_namespaces(&run), Err(GatewayError::MalformedOutput));
    assert_eq!(list_interfaces(&run), Err(GatewayError::MalformedOutput));
    let overlong = ToolRun::Output(vec![0xc0, 0x80]);
    assert_eq!(list_namespaces(&overlong), Err(GatewayError::MalformedOutput));
}

#[test]
fn output_that_is_not_json_is_malformed() {
    assert_eq!(list_namespaces(&output("")), Err(GatewayError::MalformedOutput));
    assert_eq!(list_namespaces(&output("[{\"name\": ")), Err(GatewayError::MalformedOutput));
    assert_eq!(list_interfaces(&output("not json")), Err(GatewayError::MalformedOutput));
    assert_eq!(list_interfaces(&output("[] []")), Err(GatewayError::MalformedOutput));
}

#[test]
fn output_that_is_no_array_is_malformed() {
    assert_eq!(list_namespaces(&output("{\"name\": \"blue\"}")), Err(GatewayError::MalformedOutput));
    assert_eq!(list_namespaces(&output("\"blue\"")), Err(GatewayError::MalformedOutput));
    assert_eq!(list_interfaces(&output("null")), Err(GatewayError::MalformedOutput));
    assert_eq!(list_interfaces(&output("7")), Err(GatewayError::MalformedOutput));
}

#[test]
fn namespaces_are_listed_in_order() {
    let run = output("[{\"name\":\"blue\"},{\"name\":\"red\",\"id\":3},{\"name\":\"blue\"}]");
    assert_eq!(
        list_namespaces(&run),
        Ok(vec!["blue".to_string(), "red".to_string(), "blue".to_string()])
    );
    assert_eq!(list_namespaces(&output("[]")), Ok(Vec::<String>::new()));
    assert_eq!(list_namespaces(&output(" [ ] \n")), Ok(Vec::<String>::new()));
}

#[test]
fn namespace_elements_without_a_name_are_skipped() {
    let run = output(
        "[{\"name\":\"blue\"},{\"id\":1},{\"name\":7},{\"name\":null},\"red\",[\"grey\"],{\"name\":\"green\"}]",
    );
    assert_eq!(list_namespaces(&run), Ok(vec!["blue".to_string(), "green".to_string()]));
}

#[test]
fn namespace_names_keep_their_characters() {
    let run = output("[{\"name\":\"bl\\u00fce \\\"x\\\"\"},{\"name\":\"\"}]");
    assert_eq!(list_namespaces(&run), Ok(vec!["bl\u{fc}e \"x\"".to_string(), String::new()]));
}

#[test]
fn interfaces_are_listed_with_their_addresses() {
    let run = output(
        "[{\"ifindex\":1,\"ifname\":\"lo\",\"link_type\":\"loopback\",\"addr_info\":[{\"family\":\"inet\",\"local\":\"127.0.0.1\",\"prefixlen\":8,\"scope\":\"host\"}]},\
         {\"ifname\":\"eth0\",\"link_type\":\"ether\",\"addr_info\":[{\"family\":\"inet\",\"local\":\"10.0.0.5\",\"scope\":\"global\"},{\"family\":\"inet6\",\"local\":\"fe80::1\",\"scope\":\"link\"}]},\
         {\"link_type\":\"none\",\"addr_info\":[]}]",
    );
    assert_eq!(
        list_interfaces(&run),
        Ok(vec![
            InterfaceRecord {
                class: "loopback".to_string(),
                addresses: vec![address("inet", "127.0.0.1", "host")],
            },
            InterfaceRecord {
                class: "ether".to_string(),
                addresses: vec![
                    address("inet", "10.0.0.5", "global"),
                    address("inet6", "fe80::1", "link"),
                ],
            },
            InterfaceRecord { class: "none".to_string(), addresses: vec![] },
        ])
    );
}

#[test]
fn interface_elements_without_class_or_addresses_are_skipped() {
    let run = output(
        "[{\"addr_info\":[]},{\"link_type\":\"ether\"},{\"link_type\":5,\"addr_info\":[]},\
         {\"link_type\":\"ether\",\"addr_info\":{}},{},7,\
         {\"link_type\":\"ether\",\"addr_info\":[]}]",
    );
    assert_eq!(
        list_interfaces(&run),
        Ok(vec![InterfaceRecord { class: "ether".to_string(), addresses: vec![] }])
    );
}

#[test]
fn malformed_address_element_leaves_the_others() {
    let run = output(
        "[{\"link_type\":\"ether\",\"addr_info\":[\
         {\"family\":\"inet\",\"scope\":\"global\"},\
         {\"family\":\"inet\",\"local\":\"10.0.0.5\",\"scope\":\"global\"},\
         {\"family\":\"inet\",\"local\":5,\"scope\":\"global\"},\
         \"10.0.0.6\",\
         {\"family\":\"inet6\",\"local\":\"2001:db8::1\",\"scope\":\"global\"}]}]",
    );
    assert_eq!(
        list_interfaces(&run),
        Ok(vec![InterfaceRecord {
            class: "ether".to_string(),
            addresses: vec![
                address("inet", "10.0.0.5", "global"),
                address("inet6", "2001:db8::1", "global"),
            ],
        }])
    );
}

#[test]
fn records_are_read_from_documents() {
    let element: serde_json::Value =
        serde_json::from_str("{\"family\":\"inet\",\"local\":\"10.0.0.5\",\"scope\":\"global\"}")
            .unwrap();
    assert_eq!(read_address_record(&element), Some(address("inet", "10.0.0.5", "global")));
    let lacking: serde_json::Value =
        serde_json::from_str("{\"family\":\"inet\",\"local\":\"10.0.0.5\"}").unwrap();
    assert_eq!(read_address_record(&lacking), None);
    let interface: serde_json::Value =
        serde_json::from_str("{\"link_type\":\"ether\",\"addr_info\":[{}]}").unwrap();
    assert_eq!(
        read_interface_record(&interface),
        Some(InterfaceRecord { class: "ether".to_string(), addresses: vec![] })
    );
    let document: serde_json::Value =
        serde_json::from_str("[{\"name\":\"blue\"},{\"link_type\":\"ether\",\"addr_info\":[]}]")
            .unwrap();
    assert_eq!(namespaces_of_document(&document), Ok(vec!["blue".to_string()]));
    assert_eq!(
        interfaces_of_document(&document),
        Ok(vec![InterfaceRecord { class: "ether".to_string(), addresses: vec![] }])
    );
    let object: serde_json::Value = serde_json::from_str("{}").unwrap();
    assert_eq!(namespaces_of_document(&object), Err(GatewayError::MalformedOutput));
    assert_eq!(interfaces_of_document(&object), Err(GatewayError::MalformedOutput));
}

#[test]
fn run_is_read_as_a_document() {
    let expected: serde_json::Value = serde_json::from_str("[{\"name\":\"blue\"}]").unwrap();
    assert_eq!(read_run(&output("[{\"name\":\"blue\"}]")), Ok(expected));
    assert_eq!(read_run(&output("[")), Err(GatewayError::MalformedOutput));
}
