//! The records the protocol and the store exchange.

use vstd::prelude::*;

verus! {

/// A modifier definition: a unique name, its instruction text and its default
/// duration in minutes.
#[derive(Debug)]
pub struct Drug {
    pub name: String,
    pub prompt: String,
    pub default_duration_minutes: i64,
}

impl View for Drug {
    type V = (Seq<char>, Seq<char>, int);

    open spec fn view(&self) -> Self::V {
        (self.name@, self.prompt@, self.default_duration_minutes as int)
    }
}

/// An assignment as reported to its scope: name, copied instruction text and
/// absolute expiry in epoch seconds.
#[derive(Debug)]
pub struct ActiveDrug {
    pub name: String,
    pub prompt: String,
    pub expires_at: i64,
}

impl View for ActiveDrug {
    type V = (Seq<char>, Seq<char>, int);

    open spec fn view(&self) -> Self::V {
        (self.name@, self.prompt@, self.expires_at as int)
    }
}

/// The envelope of a hard failure: a machine code and a human message.
#[derive(Debug)]
pub struct McpError {
    pub error: String,
    pub message: String,
}

/// The part of `tools/call` parameters that the dispatcher reads: the tool's
/// name and, inside `arguments`, the string field `name`.
#[derive(Debug)]
pub struct CallParams {
    pub name: Option<String>,
    pub argument_name: Option<String>,
}

/// A decoded request: the method and its optional parameters.
#[derive(Debug)]
pub struct McpRequest {
    pub method: String,
    pub params: Option<CallParams>,
}

/// A required string argument in a tool's input shape.
#[derive(Debug)]
pub struct ParamSpec {
    pub name: String,
    pub description: String,
}

/// A tool descriptor: machine name, description and required string arguments.
#[derive(Debug)]
pub struct ToolDescriptor {
    pub name: String,
    pub description: String,
    pub required: Vec<ParamSpec>,
}

/// What a successful envelope carries.
#[derive(Debug)]
pub enum Payload {
    /// The tool catalog.
    Tools(Vec<ToolDescriptor>),
    /// A human-readable text result.
    Text(String),
    /// A soft failure: a code and a message inside a normal envelope.
    Failure { error: String, message: String },
}

/// A successful envelope.
#[derive(Debug)]
pub struct McpResponse {
    pub result: Payload,
}

} // verus!
