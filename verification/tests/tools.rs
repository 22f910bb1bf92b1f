use agent_tools::adder::{AddArgs, Adder};
use agent_tools::ip::IpAddress;
use agent_tools::ip_tool::{IpTool, IpToolArgs, IpToolError};
use agent_tools::net::ip_in_subnet;
use agent_tools::schema::FieldType;

fn args(ip: &str, subnet: Option<&str>) -> IpToolArgs {
    IpToolArgs { ip: String::from(ip), subnet: subnet.map(String::from) }
}

#[test]
fn test_adder_tool() {
    let adder = Adder;

    let test_cases = vec![
        (AddArgs { x: 2, y: 5 }, 7),
        (AddArgs { x: -2, y: -3 }, -5),
        (AddArgs { x: 0, y: 0 }, 0),
    ];

    for (case, expected) in test_cases {
        let result = adder.call(case);
        assert_eq!(result.unwrap(), expected);
    }
}

#[test]
fn test_tool_definition() {
    let adder = Adder;

    let definition = adder.definition(String::from("What is 2 + 5?"));

    assert_eq!(definition.name, "add");
    assert_eq!(definition.description, "Add x and y together");
    assert_eq!(definition.parameters.properties.len(), 2);
    assert_eq!(definition.parameters.properties[0].name, "x");
    assert_eq!(definition.parameters.properties[0].ty, FieldType::Number);
    assert_eq!(definition.parameters.properties[0].description, "The first number to add");
    assert_eq!(definition.parameters.properties[1].name, "y");
    assert_eq!(definition.parameters.required.len(), 0);
}

#[test]
fn adder_wraps_on_overflow() {
    let adder = Adder;
    assert_eq!(adder.call(AddArgs { x: i32::MAX, y: 1 }).unwrap(), i32::MIN);
    assert_eq!(adder.call(AddArgs { x: i32::MIN, y: -1 }).unwrap(), i32::MAX);
    assert_eq!(adder.call(AddArgs { x: -7, y: 7 }).unwrap(), 0);
}

#[test]
fn ip_tool_definition_reports_its_schema() {
    let tool = IpTool;
    let definition = tool.definition(String::new());
    assert_eq!(definition.name, "ip_tool");
    assert_eq!(
        definition.description,
        "Performs IP address-related tasks like validation, subnetting, etc."
    );
    assert_eq!(definition.parameters.properties.len(), 2);
    assert_eq!(definition.parameters.properties[0].name, "ip");
    assert_eq!(definition.parameters.properties[0].ty, FieldType::Text);
    assert_eq!(definition.parameters.properties[1].name, "subnet");
    assert_eq!(definition.parameters.required, vec![String::from("ip")]);
}

#[test]
fn invalid_ip_is_rejected() {
    let tool = IpTool;
    for bad in [
        "999.999.999.999",
        "not-an-ip",
        "",
        "1.2.3",
        "1.2.3.4.5",
        "192.168.01.1",
        "256.1.1.1",
        "1.2.3.4 ",
        "1:2:3:4:5:6:7:8:9",
        ":::",
        "12345::",
        "1::2::3",
    ] {
        let r = tool.call(args(bad, None));
        assert_eq!(r, Err(IpToolError::InvalidIp), "input {:?}", bad);
    }
}

#[test]
fn subnet_without_slash_is_rejected() {
    let tool = IpTool;
    let r = tool.call(args("192.168.1.1", Some("192.168.0.0")));
    assert_eq!(r, Err(IpToolError::InvalidSubnet));
}

#[test]
fn contained_address_reports_in_subnet() {
    let tool = IpTool;
    let out = tool.call(args("192.168.0.10", Some("192.168.0.0/24"))).unwrap();
    assert_eq!(out.ip, "192.168.0.10");
    assert!(out.valid);
    assert_eq!(out.in_subnet, Some(true));
}

#[test]
fn outside_address_reports_not_in_subnet() {
    let tool = IpTool;
    let out = tool.call(args("192.168.1.1", Some("192.168.0.0/25"))).unwrap();
    assert!(out.valid);
    assert_eq!(out.in_subnet, Some(false));
}

#[test]
fn no_subnet_reports_only_validity() {
    let tool = IpTool;
    let out = tool.call(args("10.0.0.1", None)).unwrap();
    assert_eq!(out.ip, "10.0.0.1");
    assert!(out.valid);
    assert_eq!(out.in_subnet, None);
}

#[test]
fn unparsable_cidr_counts_as_not_contained() {
    let tool = IpTool;
    for subnet in ["192.168.0.0/33", "abc/24", "192.168.0.0/", "192.168.0.0/24/7"] {
        let out = tool.call(args("192.168.0.10", Some(subnet))).unwrap();
        assert!(out.valid);
        assert_eq!(out.in_subnet, Some(false), "subnet {:?}", subnet);
    }
}

#[test]
fn family_mismatch_is_not_contained() {
    let tool = IpTool;
    let out = tool.call(args("192.168.0.1", Some("::/0"))).unwrap();
    assert_eq!(out.in_subnet, Some(false));
    let out = tool.call(args("::1", Some("0.0.0.0/0"))).unwrap();
    assert_eq!(out.in_subnet, Some(false));
}

#[test]
fn zero_prefix_contains_every_address_of_its_family() {
    let tool = IpTool;
    let out = tool.call(args("8.8.8.8", Some("0.0.0.0/0"))).unwrap();
    assert_eq!(out.in_subnet, Some(true));
    let out = tool.call(args("2001:db8::1", Some("::/0"))).unwrap();
    assert_eq!(out.in_subnet, Some(true));
}

#[test]
fn ipv6_subnet_containment() {
    let tool = IpTool;
    let out = tool.call(args("2001:db8::1", Some("2001:db8::/32"))).unwrap();
    assert_eq!(out.in_subnet, Some(true));
    let out = tool.call(args("2001:db9::1", Some("2001:db8::/32"))).unwrap();
    assert_eq!(out.in_subnet, Some(false));
}

#[test]
fn ipv6_addresses_render_canonically() {
    let tool = IpTool;
    let out = tool.call(args("::1", None)).unwrap();
    assert_eq!(out.ip, "::1");
    let out = tool.call(args("0:0:0:0:0:0:0:0", None)).unwrap();
    assert_eq!(out.ip, "::");
    let out = tool.call(args("2001:0DB8:0:0:8:800:200C:417A", None)).unwrap();
    assert_eq!(out.ip, "2001:db8::8:800:200c:417a");
    let out = tool.call(args("1:0:0:2:0:0:0:3", None)).unwrap();
    assert_eq!(out.ip, "1:0:0:2::3");
    let out = tool.call(args("1:2:3:4:5:6:7:8", None)).unwrap();
    assert_eq!(out.ip, "1:2:3:4:5:6:7:8");
}

#[test]
fn ipv4_mapped_addresses_render_in_dotted_form() {
    let tool = IpTool;
    let out = tool.call(args("::ffff:192.168.1.1", None)).unwrap();
    assert_eq!(out.ip, "::ffff:192.168.1.1");
    let out = tool.call(args("::ffff:c0a8:101", None)).unwrap();
    assert_eq!(out.ip, "::ffff:192.168.1.1");
}

#[test]
fn embedded_ipv4_in_plain_ipv6() {
    let tool = IpTool;
    let out = tool.call(args("1:2:3:4:5:6:7.8.9.10", None)).unwrap();
    assert_eq!(out.ip, "1:2:3:4:5:6:708:90a");
    let out = tool.call(args("::1.2.3.4", None)).unwrap();
    assert_eq!(out.ip, "::102:304");
}

#[test]
fn same_arguments_give_same_output() {
    let tool = IpTool;
    let r1 = tool.call(args("192.168.1.1", Some("192.168.0.0/25")));
    let r2 = tool.call(args("192.168.1.1", Some("192.168.0.0/25")));
    assert_eq!(r1, r2);
    let r3 = tool.call(args("not-an-ip", None));
    let r4 = tool.call(args("not-an-ip", None));
    assert_eq!(r3, r4);
    let adder = Adder;
    assert_eq!(adder.call(AddArgs { x: 3, y: 4 }), adder.call(AddArgs { x: 3, y: 4 }));
}

#[test]
fn error_messages_match_the_error_kind() {
    assert_eq!(IpToolError::InvalidIp.message(), "Invalid IP address");
    assert_eq!(IpToolError::InvalidSubnet.message(), "Invalid subnet format");
}

#[test]
fn ip_in_subnet_works_on_parsed_addresses() {
    // 192.168.1.1 is 0xc0a80101
    let ip = IpAddress::V4(0xc0a80101);
    assert!(ip_in_subnet(&ip, "192.168.0.0/16"));
    assert!(!ip_in_subnet(&ip, "192.168.0.0/25"));
    assert!(ip_in_subnet(&ip, "192.168.1.1/32"));
    assert!(!ip_in_subnet(&ip, "no-slash"));
}

#[test]
fn tool_names_are_stable() {
    assert_eq!(Adder.name(), "add");
    assert_eq!(IpTool.name(), "ip_tool");
}
