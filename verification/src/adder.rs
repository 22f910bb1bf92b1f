//! The arithmetic tool: adds two signed integers with wrapping semantics.

use vstd::prelude::*;
use crate::schema::{FieldType, FieldSpec, ToolSchema, ToolDefinition, schema_wf};

verus! {

/// Arguments of the "add" tool: the two integers to sum.
pub struct AddArgs {
    pub x: i32,
    pub y: i32,
}

/// The "add" tool's declared error kind. It exists only for interface
/// symmetry with the other tools and is never produced for integer input.
#[derive(Debug, Clone, Copy, PartialEq, Eq)]
pub struct MathError;

impl MathError {
    /// The human-readable message of this error.
    pub fn message(&self) -> (r: &'static str)
        ensures
            r@ == "Math error"@,
    {
        "Math error"
    }
}

/// The sum of two machine integers under two's-complement wrapping:
/// the exact sum where it fits in an `i32`, and the sum shifted by
/// `2^32` into range otherwise.
pub open spec fn wrapped_sum(x: int, y: int) -> int {
    let s = x + y;
    if s > i32::MAX {
        s - 0x1_0000_0000
    } else if s < i32::MIN {
        s + 0x1_0000_0000
    } else {
        s
    }
}

/// Adds two `i32` values, wrapping on overflow.
pub fn add_wrapping(x: i32, y: i32) -> (r: i32)
    ensures
        r == wrapped_sum(x as int, y as int),
        i32::MIN <= x as int + y as int <= i32::MAX ==> r == x as int + y as int,
{
    let s: i64 = (x as i64) + (y as i64);
    if s > i32::MAX as i64 {
        (s - 0x1_0000_0000) as i32
    } else if s < i32::MIN as i64 {
        (s + 0x1_0000_0000) as i32
    } else {
        s as i32
    }
}

/// The arithmetic tool.
pub struct Adder;

impl Adder {
    /// The name under which this tool is registered.
    pub fn name(&self) -> (r: &'static str)
        ensures
            r@ == "add"@,
    {
        "add"
    }

    /// The tool's static descriptor. Pure: every call returns the same
    /// well-formed descriptor, whatever the prompt.
    pub fn definition(&self, _prompt: String) -> (r: ToolDefinition)
        ensures
            r.name@ == "add"@,
            r.description@ == "Add x and y together"@,
            r.parameters.properties@.len() == 2,
            r.parameters.properties@[0].name@ == "x"@,
            r.parameters.properties@[0].ty == FieldType::Number,
            r.parameters.properties@[0].description@ == "The first number to add"@,
            r.parameters.properties@[1].name@ == "y"@,
            r.parameters.properties@[1].ty == FieldType::Number,
            r.parameters.properties@[1].description@ == "The second number to add"@,
            r.parameters.required@.len() == 0,
            schema_wf(r.parameters),
    {
        let mut properties: Vec<FieldSpec> = Vec::new();
        properties.push(
            FieldSpec {
                name: "x".to_owned(),
                ty: FieldType::Number,
                description: "The first number to add".to_owned(),
            },
        );
        properties.push(
            FieldSpec {
                name: "y".to_owned(),
                ty: FieldType::Number,
                description: "The second number to add".to_owned(),
            },
        );
        let required: Vec<String> = Vec::new();
        let parameters = ToolSchema { properties, required };
        proof {
            reveal_strlit("x");
            reveal_strlit("y");
            assert(("x")@ != ("y")@) by {
                assert(("x")@[0] == 'x');
                assert(("y")@[0] == 'y');
            }
            assert(parameters.properties@[0].name@ != parameters.properties@[1].name@);
            assert(schema_wf(parameters));
        }
        ToolDefinition {
            name: "add".to_owned(),
            description: "Add x and y together".to_owned(),
            parameters,
        }
    }

    /// Executes the tool: returns the sum of the two arguments.
    ///
    /// Never fails: the `Err` case exists only for interface symmetry.
    /// For every pair of arguments whose exact sum fits in an `i32`,
    /// the exact sum is returned; otherwise the sum wraps.
    pub fn call(&self, args: AddArgs) -> (r: Result<i32, MathError>)
        ensures
            r is Ok,
            r->Ok_0 == wrapped_sum(args.x as int, args.y as int),
            i32::MIN <= args.x as int + args.y as int <= i32::MAX ==> r->Ok_0 == args.x as int
                + args.y as int,
    {
        Ok(add_wrapping(args.x, args.y))
    }
}

/// Law: executing the adder is deterministic — two results that both meet
/// the adder's contract on identical arguments are identical.
pub proof fn lemma_add_idempotent(x: i32, y: i32, r1: int, r2: int)
    requires
        r1 == wrapped_sum(x as int, y as int),
        r2 == wrapped_sum(x as int, y as int),
    ensures
        r1 == r2,
{
}

} // verus!
