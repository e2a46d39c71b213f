//! The fixed catalog of invokable tools.

use vstd::prelude::*;
use crate::models::{ParamSpec, ToolDescriptor};
use crate::text::str_eq;

verus! {

/// The four operations a caller can invoke.
#[derive(PartialEq, Eq, Structural, Clone, Copy, Debug)]
pub enum Tool {
    ListDrugs,
    TakeDrug,
    ActiveDrugs,
    Detox,
}

/// A tool's machine name.
pub open spec fn tool_name(t: Tool) -> Seq<char> {
    match t {
        Tool::ListDrugs => "list_drugs"@,
        Tool::TakeDrug => "take_drug"@,
        Tool::ActiveDrugs => "active_drugs"@,
        Tool::Detox => "detox"@,
    }
}

/// A tool's human description.
pub open spec fn tool_description(t: Tool) -> Seq<char> {
    match t {
        Tool::ListDrugs => "List all available digital drugs that can modify agent behavior"@,
        Tool::TakeDrug => "Take a digital drug to modify your behavior. Each drug has a fixed duration."@,
        Tool::ActiveDrugs => "List currently active drugs and their remaining duration"@,
        Tool::Detox => "Remove all active drugs and return to standard behavior"@,
    }
}

/// A tool's required string arguments, each as (name, description).
pub open spec fn tool_params(t: Tool) -> Seq<(Seq<char>, Seq<char>)> {
    match t {
        Tool::TakeDrug => seq![("name"@, "Name of the drug to take"@)],
        _ => Seq::empty(),
    }
}

/// The catalog order.
pub open spec fn catalog_order() -> Seq<Tool> {
    seq![Tool::ListDrugs, Tool::TakeDrug, Tool::ActiveDrugs, Tool::Detox]
}

impl View for ParamSpec {
    type V = (Seq<char>, Seq<char>);

    open spec fn view(&self) -> Self::V {
        (self.name@, self.description@)
    }
}

impl View for ToolDescriptor {
    type V = (Seq<char>, Seq<char>, Seq<(Seq<char>, Seq<char>)>);

    open spec fn view(&self) -> Self::V {
        (self.name@, self.description@, self.required@.map_values(|p: ParamSpec| p@))
    }
}

/// The descriptor that the catalog lists for a tool.
pub open spec fn descriptor(t: Tool) -> (Seq<char>, Seq<char>, Seq<(Seq<char>, Seq<char>)>) {
    (tool_name(t), tool_description(t), tool_params(t))
}

/// Whether a list of descriptors is the catalog, entry for entry.
pub open spec fn is_catalog(tools: Seq<ToolDescriptor>) -> bool {
    &&& tools.len() == 4
    &&& forall|i: int| 0 <= i < 4 ==> #[trigger] tools[i]@ == descriptor(catalog_order()[i])
}

impl Tool {
    /// The machine name.
    pub fn name(&self) -> (r: &'static str)
        ensures
            r@ == tool_name(*self),
    {
        match self {
            Tool::ListDrugs => "list_drugs",
            Tool::TakeDrug => "take_drug",
            Tool::ActiveDrugs => "active_drugs",
            Tool::Detox => "detox",
        }
    }

    /// The human description.
    pub fn description(&self) -> (r: &'static str)
        ensures
            r@ == tool_description(*self),
    {
        match self {
            Tool::ListDrugs => "List all available digital drugs that can modify agent behavior",
            Tool::TakeDrug => "Take a digital drug to modify your behavior. Each drug has a fixed duration.",
            Tool::ActiveDrugs => "List currently active drugs and their remaining duration",
            Tool::Detox => "Remove all active drugs and return to standard behavior",
        }
    }

    /// The descriptor of this tool.
    pub fn descriptor(&self) -> (r: ToolDescriptor)
        ensures
            r@ == descriptor(*self),
    {
        let mut required: Vec<ParamSpec> = Vec::new();
        if let Tool::TakeDrug = self {
            required.push(ParamSpec {
                name: String::from_str("name"),
                description: String::from_str("Name of the drug to take"),
            });
        }
        let r = ToolDescriptor {
            name: String::from_str(self.name()),
            description: String::from_str(self.description()),
            required,
        };
        assert(r.required@.map_values(|p: ParamSpec| p@) =~= tool_params(*self));
        r
    }
}

/// Distinct tools have distinct machine names.
pub proof fn lemma_tool_names_distinct()
    ensures
        forall|a: Tool, b: Tool| a != b ==> tool_name(a) != tool_name(b),
{
    reveal_strlit("list_drugs");
    reveal_strlit("take_drug");
    reveal_strlit("active_drugs");
    reveal_strlit("detox");
    assert(tool_name(Tool::ListDrugs).len() == 10);
    assert(tool_name(Tool::TakeDrug).len() == 9);
    assert(tool_name(Tool::ActiveDrugs).len() == 12);
    assert(tool_name(Tool::Detox).len() == 5);
}

/// The tool whose machine name is `name`, if any.
pub fn tool_named(name: &str) -> (r: Option<Tool>)
    ensures
        match r {
            Some(t) => name@ == tool_name(t),
            None => forall|t: Tool| name@ != #[trigger] tool_name(t),
        },
{
    proof {
        reveal_strlit("list_drugs");
        reveal_strlit("take_drug");
        reveal_strlit("active_drugs");
        reveal_strlit("detox");
    }
    if str_eq(name, "list_drugs") {
        Some(Tool::ListDrugs)
    } else if str_eq(name, "take_drug") {
        Some(Tool::TakeDrug)
    } else if str_eq(name, "active_drugs") {
        Some(Tool::ActiveDrugs)
    } else if str_eq(name, "detox") {
        Some(Tool::Detox)
    } else {
        None
    }
}

/// The four tool descriptors, in catalog order.
pub fn list_tools() -> (r: Vec<ToolDescriptor>)
    ensures
        is_catalog(r@),
{
    let mut r: Vec<ToolDescriptor> = Vec::new();
    r.push(Tool::ListDrugs.descriptor());
    r.push(Tool::TakeDrug.descriptor());
    r.push(Tool::ActiveDrugs.descriptor());
    r.push(Tool::Detox.descriptor());
    r
}

} // verus!
