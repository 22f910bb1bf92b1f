//! The IP tool: validates an address and optionally checks containment
//! in a CIDR subnet.

use vstd::prelude::*;
use vstd::string::*;
use crate::ip::parse_ip;
use crate::ip::parse_ip_str;
use crate::render::canonical_ip;
use crate::render::render_ip;
use crate::net::slash_pos;
use crate::net::spec_ip_in_subnet;
use crate::net::ip_in_subnet;
use crate::net::scan_slash;
use crate::schema::{FieldType, FieldSpec, ToolSchema, ToolDefinition, schema_wf};

verus! {

/// The IP tool's error kind.
#[derive(Debug, Clone, Copy, PartialEq, Eq, Structural)]
pub enum IpToolError {
    InvalidIp,
    InvalidSubnet,
}

impl IpToolError {
    /// The human-readable message of this error.
    pub fn message(&self) -> (r: &'static str)
        ensures
            *self is InvalidIp ==> r@ == "Invalid IP address"@,
            *self is InvalidSubnet ==> r@ == "Invalid subnet format"@,
    {
        match self {
            IpToolError::InvalidIp => "Invalid IP address",
            IpToolError::InvalidSubnet => "Invalid subnet format",
        }
    }
}

/// Arguments of the IP tool: address text and optional subnet text.
#[derive(Debug, Clone)]
pub struct IpToolArgs {
    pub ip: String,
    pub subnet: Option<String>,
}

/// The mathematical view of `IpToolArgs`.
pub ghost struct IpToolArgsModel {
    pub ip: Seq<char>,
    pub subnet: Option<Seq<char>>,
}

impl View for IpToolArgs {
    type V = IpToolArgsModel;

    open spec fn view(&self) -> IpToolArgsModel {
        IpToolArgsModel {
            ip: self.ip@,
            subnet: match self.subnet {
                Some(s) => Some(s@),
                None => None,
            },
        }
    }
}

/// The IP tool's structured output: the canonical address text, the
/// validity flag, and — only when a subnet was supplied — the
/// containment flag.
#[derive(Debug, Clone, PartialEq, Eq)]
pub struct IpOutput {
    pub ip: String,
    pub valid: bool,
    pub in_subnet: Option<bool>,
}

/// The mathematical view of `IpOutput`.
pub ghost struct IpOutputModel {
    pub ip: Seq<char>,
    pub valid: bool,
    pub in_subnet: Option<bool>,
}

impl View for IpOutput {
    type V = IpOutputModel;

    open spec fn view(&self) -> IpOutputModel {
        IpOutputModel { ip: self.ip@, valid: self.valid, in_subnet: self.in_subnet }
    }
}

/// Subnet text was supplied but holds no `/` separator.
pub open spec fn subnet_missing_slash(subnet: Option<Seq<char>>) -> bool {
    match subnet {
        Some(t) => slash_pos(t, 0) == t.len(),
        None => false,
    }
}

/// What one invocation of the IP tool returns, as a function of its
/// arguments alone: address text that does not parse is `InvalidIp`;
/// subnet text without a `/` is `InvalidSubnet`; otherwise the output
/// carries the canonical address text, `valid` set, and the containment
/// flag exactly when a subnet was supplied.
pub open spec fn spec_ip_tool(args: IpToolArgsModel) -> Result<IpOutputModel, IpToolError> {
    match parse_ip(args.ip) {
        None => Err(IpToolError::InvalidIp),
        Some(addr) => match args.subnet {
            None => Ok(IpOutputModel { ip: canonical_ip(addr), valid: true, in_subnet: None }),
            Some(sub) => if slash_pos(sub, 0) == sub.len() {
                Err(IpToolError::InvalidSubnet)
            } else {
                Ok(
                    IpOutputModel {
                        ip: canonical_ip(addr),
                        valid: true,
                        in_subnet: Some(spec_ip_in_subnet(addr, sub)),
                    },
                )
            },
        },
    }
}

/// The IP tool.
pub struct IpTool;

impl IpTool {
    /// The name under which this tool is registered.
    pub fn name(&self) -> (r: &'static str)
        ensures
            r@ == "ip_tool"@,
    {
        "ip_tool"
    }

    /// The tool's static descriptor. Pure: every call returns the same
    /// well-formed descriptor, whatever the prompt.
    pub fn definition(&self, _prompt: String) -> (r: ToolDefinition)
        ensures
            r.name@ == "ip_tool"@,
            r.description@ == "Performs IP address-related tasks like validation, subnetting, etc."@,
            r.parameters.properties@.len() == 2,
            r.parameters.properties@[0].name@ == "ip"@,
            r.parameters.properties@[0].ty == FieldType::Text,
            r.parameters.properties@[0].description@ == "The IP address to validate or analyze"@,
            r.parameters.properties@[1].name@ == "subnet"@,
            r.parameters.properties@[1].ty == FieldType::Text,
            r.parameters.properties@[1].description@
                == "Optional subnet in CIDR format for additional checks"@,
            r.parameters.required@.len() == 1,
            r.parameters.required@[0]@ == "ip"@,
            schema_wf(r.parameters),
    {
        let mut properties: Vec<FieldSpec> = Vec::new();
        properties.push(
            FieldSpec {
                name: "ip".to_owned(),
                ty: FieldType::Text,
                description: "The IP address to validate or analyze".to_owned(),
            },
        );
        properties.push(
            FieldSpec {
                name: "subnet".to_owned(),
                ty: FieldType::Text,
                description: "Optional subnet in CIDR format for additional checks".to_owned(),
            },
        );
        let mut required: Vec<String> = Vec::new();
        required.push("ip".to_owned());
        let parameters = ToolSchema { properties, required };
        proof {
            reveal_strlit("ip");
            reveal_strlit("subnet");
            assert(("ip")@ != ("subnet")@) by {
                assert(("ip")@.len() == 2);
                assert(("subnet")@.len() == 6);
            }
            assert(parameters.properties@[0].name@ != parameters.properties@[1].name@);
            assert(parameters.required@[0]@ == parameters.properties@[0].name@);
            assert(schema_wf(parameters));
        }
        ToolDefinition {
            name: "ip_tool".to_owned(),
            description: "Performs IP address-related tasks like validation, subnetting, etc.".to_owned(),
            parameters,
        }
    }

    /// Executes the tool.
    ///
    /// Succeeds exactly when the address text parses and any supplied
    /// subnet text holds a `/`; each error names the input that caused
    /// it, and the output model is pinned as a function of the inputs.
    pub fn call(&self, args: IpToolArgs) -> (r: Result<IpOutput, IpToolError>)
        ensures
            (match r {
                Ok(o) => spec_ip_tool(args@) == Ok::<IpOutputModel, IpToolError>(o@),
                Err(e) => spec_ip_tool(args@) == Err::<IpOutputModel, IpToolError>(e),
            }),
            parse_ip(args@.ip) is None <==> r == Err::<IpOutput, IpToolError>(
                IpToolError::InvalidIp,
            ),
            (parse_ip(args@.ip) is Some && subnet_missing_slash(args@.subnet)) <==> r
                == Err::<IpOutput, IpToolError>(IpToolError::InvalidSubnet),
            r matches Ok(o) ==> o@.valid && (o@.in_subnet is Some <==> args@.subnet is Some),
            (parse_ip(args@.ip) is Some && args@.subnet is None) ==> (r matches Ok(o) && o@.ip
                == canonical_ip(parse_ip(args@.ip)->Some_0) && o@.valid && o@.in_subnet is None),
    {
        let parsed = parse_ip_str(args.ip.as_str());
        match parsed {
            None => Err(IpToolError::InvalidIp),
            Some(addr) => match args.subnet {
                None => Ok(IpOutput { ip: render_ip(&addr), valid: true, in_subnet: None }),
                Some(sub) => {
                    let sp = scan_slash(sub.as_str());
                    if sp == sub.as_str().unicode_len() {
                        Err(IpToolError::InvalidSubnet)
                    } else {
                        let contained = ip_in_subnet(&addr, sub.as_str());
                        Ok(
                            IpOutput {
                                ip: render_ip(&addr),
                                valid: true,
                                in_subnet: Some(contained),
                            },
                        )
                    }
                },
            },
        }
    }
}

/// Law: executing the IP tool is deterministic — its result is a
/// function of the arguments alone, so invoking it twice with identical
/// arguments yields identical results.
pub proof fn lemma_ip_tool_idempotent(
    args1: IpToolArgsModel,
    args2: IpToolArgsModel,
    r1: Result<IpOutputModel, IpToolError>,
    r2: Result<IpOutputModel, IpToolError>,
)
    requires
        args1 == args2,
        r1 == spec_ip_tool(args1),
        r2 == spec_ip_tool(args2),
    ensures
        r1 == r2,
{
}

} // verus!
