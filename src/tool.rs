//! A tool that reports the length of a string, and a record of a person.

use vstd::prelude::*;
use vstd::string::StringExecFns;
use vstd::utf8::encode_utf8;

verus! {

/// The error of the string-length tool; the tool never returns it.
#[derive(Clone, Copy, Debug, PartialEq, Eq, Structural)]
pub struct StringLengthError;

impl StringLengthError {
    /// The message of the error.
    pub fn message(&self) -> (r: String)
        ensures
            r@ == "String length error"@,
    {
        String::from_str("String length error")
    }
}

pub struct StringLengthArgs {
    pub text: String,
}

/// One parameter of a tool: its name, JSON type, description and whether it is required.
pub struct ToolParameter {
    pub name: String,
    pub kind: String,
    pub description: String,
    pub required: bool,
}

/// What a tool tells a model about itself.
pub struct ToolDescription {
    pub name: String,
    pub description: String,
    pub parameters: Vec<ToolParameter>,
}

#[derive(Clone, Copy, Debug, PartialEq, Eq, Structural)]
pub struct StringLengthTool;

impl StringLengthTool {
    pub const NAME: &'static str = "string_length";

    /// The tool's name, description and single required `text` parameter.
    pub fn definition(&self, _prompt: String) -> (r: ToolDescription)
        ensures
            r.name@ == "string_length"@,
            r.description@ == "Calculates the length of the input string"@,
            r.parameters@.len() == 1,
            r.parameters@[0].name@ == "text"@,
            r.parameters@[0].kind@ == "string"@,
            r.parameters@[0].description@ == "The text to calculate the length of"@,
            r.parameters@[0].required,
    {
        let mut parameters: Vec<ToolParameter> = Vec::new();
        parameters.push(
            ToolParameter {
                name: String::from_str("text"),
                kind: String::from_str("string"),
                description: String::from_str("The text to calculate the length of"),
                required: true,
            },
        );
        ToolDescription {
            name: String::from_str("string_length"),
            description: String::from_str("Calculates the length of the input string"),
            parameters,
        }
    }

    /// The length of `args.text` in bytes of UTF-8.
    pub fn call(&self, args: StringLengthArgs) -> (r: Result<usize, StringLengthError>)
        ensures
            r == Ok::<usize, StringLengthError>(encode_utf8(args.text@).len() as usize),
    {
        Ok(args.text.as_str().len())
    }
}

/// A person as extracted from text; each field may be missing.
pub struct Person {
    pub name: Option<String>,
    pub age: Option<u8>,
    pub occupation: Option<String>,
}

} // verus!
