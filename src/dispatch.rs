//! Routing of protocol requests to the catalog and the modifier operations,
//! with soft failures kept apart from hard ones.

use vstd::prelude::*;
use crate::catalog::{is_catalog, lemma_tool_names_distinct, list_tools, tool_name, tool_named, Tool};
use crate::clock::{expiry, expiry_after, fits_i64, utc_stamp, utc_stamp_of};
use crate::models::{CallParams, McpError, McpRequest, McpResponse, Payload};
use crate::report::{
    active_text, definitions_text, detox_text, render_active, render_definitions, render_detox,
    render_take, take_text,
};
use crate::store::{is_listing, live, lookup, purged, upserted, DefView, ModifierStore, Row};
use crate::text::str_eq;

verus! {

/// A malformed call, or an expiry that cannot be represented: reported as a
/// transport-level failure.
#[derive(PartialEq, Eq, Structural, Clone, Copy, Debug)]
pub enum HardError {
    MissingParams,
    MissingToolName,
    MissingDrugName,
    ExpiryOutOfRange,
}

/// The human message of a hard failure.
pub open spec fn hard_message(e: HardError) -> Seq<char> {
    match e {
        HardError::MissingParams => "Missing params"@,
        HardError::MissingToolName => "Missing tool name"@,
        HardError::MissingDrugName => "Missing drug name"@,
        HardError::ExpiryOutOfRange => "Expiry out of range"@,
    }
}

impl HardError {
    /// The error envelope of this failure, under the generic code.
    pub fn to_mcp_error(&self) -> (r: McpError)
        ensures
            r.error@ == "internal_error"@,
            r.message@ == hard_message(*self),
    {
        let message = match self {
            HardError::MissingParams => "Missing params",
            HardError::MissingToolName => "Missing tool name",
            HardError::MissingDrugName => "Missing drug name",
            HardError::ExpiryOutOfRange => "Expiry out of range",
        };
        McpError { error: String::from_str("internal_error"), message: String::from_str(message) }
    }
}

/// The characters of an optional string.
pub open spec fn opt_view(o: Option<String>) -> Option<Seq<char>> {
    match o {
        Some(s) => Some(s@),
        None => None,
    }
}

/// `p` is a text payload holding `t`.
pub open spec fn is_text(p: Payload, t: Seq<char>) -> bool {
    p matches Payload::Text(s) && s@ == t
}

/// `p` is a soft failure with this code and message.
pub open spec fn is_failure(p: Payload, code: Seq<char>, message: Seq<char>) -> bool {
    p matches Payload::Failure { error, message: m } && error@ == code && m@ == message
}

/// `r` is the catalog of definitions.
pub open spec fn list_drugs_done(defs: Seq<DefView>, r: McpResponse) -> bool {
    is_text(r.result, definitions_text(defs))
}

/// The outcome of taking the modifier `arg` for `scope` at `now`: rows
/// `before` become `after`, and `r` is returned.
pub open spec fn take_done(
    defs: Seq<DefView>,
    before: Set<Row>,
    after: Set<Row>,
    scope: Seq<char>,
    arg: Option<Seq<char>>,
    now: int,
    r: Result<McpResponse, HardError>,
) -> bool {
    match arg {
        None => r == Err::<McpResponse, HardError>(HardError::MissingDrugName) && after == before,
        Some(name) => match lookup(defs, name) {
            None => {
                &&& r matches Ok(resp) && is_failure(resp.result, "not_found"@, "Drug not found: "@ + name)
                &&& after == before
            },
            Some(d) => {
                let e = expiry(now, d.2);
                if fits_i64(e) && utc_stamp_of(e) is Some {
                    &&& r matches Ok(resp) && is_text(resp.result, take_text(d, utc_stamp_of(e).unwrap()))
                    &&& after == upserted(before, (scope, d.0, d.1, e))
                } else {
                    r == Err::<McpResponse, HardError>(HardError::ExpiryOutOfRange) && after == before
                }
            },
        },
    }
}

/// `r` reports the rows of `scope` live at `now`.
pub open spec fn active_done(rows: Set<Row>, scope: Seq<char>, now: int, r: McpResponse) -> bool {
    exists|l: Seq<crate::models::ActiveDrug>| is_listing(rows, scope, now, l) && is_text(r.result, active_text(l, now))
}

/// Rows `before` become `after` by a detox of `scope`, confirmed by `r`.
pub open spec fn detox_done(before: Set<Row>, after: Set<Row>, scope: Seq<char>, r: McpResponse) -> bool {
    after == purged(before, scope) && is_text(r.result, detox_text())
}

/// The outcome of a `tools/call` with `params`.
pub open spec fn call_done(
    defs: Seq<DefView>,
    before: Set<Row>,
    after: Set<Row>,
    scope: Seq<char>,
    params: Option<CallParams>,
    now: int,
    r: Result<McpResponse, HardError>,
) -> bool {
    match params {
        None => r == Err::<McpResponse, HardError>(HardError::MissingParams) && after == before,
        Some(p) => match p.name {
            None => r == Err::<McpResponse, HardError>(HardError::MissingToolName) && after == before,
            Some(n) => if n@ == tool_name(Tool::ListDrugs) {
                r matches Ok(resp) && list_drugs_done(defs, resp) && after == before
            } else if n@ == tool_name(Tool::TakeDrug) {
                take_done(defs, before, after, scope, opt_view(p.argument_name), now, r)
            } else if n@ == tool_name(Tool::ActiveDrugs) {
                r matches Ok(resp) && active_done(before, scope, now, resp) && after == before
            } else if n@ == tool_name(Tool::Detox) {
                r matches Ok(resp) && detox_done(before, after, scope, resp)
            } else {
                &&& r matches Ok(resp) && is_failure(resp.result, "unknown_tool"@, "Unknown tool: "@ + n@)
                &&& after == before
            },
        },
    }
}

fn failure(code: &str, prefix: &str, subject: &str) -> (r: McpResponse)
    ensures
        is_failure(r.result, code@, prefix@ + subject@),
{
    let mut message = String::from_str(prefix);
    message.append(subject);
    McpResponse { result: Payload::Failure { error: String::from_str(code), message } }
}

fn text(t: String) -> (r: McpResponse)
    ensures
        is_text(r.result, t@),
{
    McpResponse { result: Payload::Text(t) }
}

/// Lists every definition as a human-readable catalog.
pub fn list_drugs_tool(store: &ModifierStore) -> (r: McpResponse)
    requires
        store.wf(),
    ensures
        list_drugs_done(store.defs(), r),
{
    let defs = store.list_definitions();
    text(render_definitions(&defs))
}

/// Takes the modifier named `drug_name` for `scope` at `now`.
pub fn take_drug_tool(store: &mut ModifierStore, scope: &str, drug_name: &Option<String>, now: i64)
    -> (r: Result<McpResponse, HardError>)
    requires
        old(store).wf(),
    ensures
        final(store).wf(),
        final(store).defs() == old(store).defs(),
        take_done(old(store).defs(), old(store).rows(), final(store).rows(), scope@, opt_view(*drug_name), now as int, r),
{
    let name = match drug_name {
        Some(n) => n,
        None => {
            return Err(HardError::MissingDrugName);
        },
    };
    let d = match store.find_definition(name.as_str()) {
        Some(d) => d,
        None => {
            return Ok(failure("not_found", "Drug not found: ", name.as_str()));
        },
    };
    let e = match expiry_after(now, d.default_duration_minutes) {
        Some(e) => e,
        None => {
            return Err(HardError::ExpiryOutOfRange);
        },
    };
    let stamp = match utc_stamp(e) {
        Some(s) => s,
        None => {
            return Err(HardError::ExpiryOutOfRange);
        },
    };
    store.upsert_assignment(scope, d.name.as_str(), d.prompt.as_str(), e);
    Ok(text(render_take(&d, stamp.as_str())))
}

/// Reports the assignments of `scope` live at `now`.
pub fn active_drugs_tool(store: &ModifierStore, scope: &str, now: i64) -> (r: McpResponse)
    requires
        store.wf(),
    ensures
        active_done(store.rows(), scope@, now as int, r),
{
    let l = store.list_unexpired_assignments(scope, now);
    assert forall|k: int| 0 <= k < l@.len() implies #[trigger] l@[k].expires_at > now by {
        assert(live(store.rows(), scope@, now as int).contains((scope@, l@[k]@.0, l@[k]@.1, l@[k]@.2)));
    }
    let r = text(render_active(&l, now));
    assert(is_listing(store.rows(), scope@, now as int, l@) && is_text(r.result, active_text(l@, now as int)));
    r
}

/// Removes every assignment of `scope`.
pub fn detox_tool(store: &mut ModifierStore, scope: &str) -> (r: McpResponse)
    requires
        old(store).wf(),
    ensures
        final(store).wf(),
        final(store).defs() == old(store).defs(),
        detox_done(old(store).rows(), final(store).rows(), scope@, r),
{
    store.delete_all_assignments(scope);
    text(render_detox())
}

/// Routes a `tools/call` to the tool it names.
pub fn call_tool(store: &mut ModifierStore, scope: &str, params: &Option<CallParams>, now: i64)
    -> (r: Result<McpResponse, HardError>)
    requires
        old(store).wf(),
    ensures
        final(store).wf(),
        final(store).defs() == old(store).defs(),
        call_done(old(store).defs(), old(store).rows(), final(store).rows(), scope@, *params, now as int, r),
{
    let p = match params {
        Some(p) => p,
        None => {
            return Err(HardError::MissingParams);
        },
    };
    let name = match &p.name {
        Some(n) => n,
        None => {
            return Err(HardError::MissingToolName);
        },
    };
    proof {
        lemma_tool_names_distinct();
    }
    match tool_named(name.as_str()) {
        Some(Tool::ListDrugs) => Ok(list_drugs_tool(store)),
        Some(Tool::TakeDrug) => take_drug_tool(store, scope, &p.argument_name, now),
        Some(Tool::ActiveDrugs) => Ok(active_drugs_tool(store, scope, now)),
        Some(Tool::Detox) => Ok(detox_tool(store, scope)),
        None => {
            assert(name@ != tool_name(Tool::ListDrugs));
            assert(name@ != tool_name(Tool::TakeDrug));
            assert(name@ != tool_name(Tool::ActiveDrugs));
            assert(name@ != tool_name(Tool::Detox));
            Ok(failure("unknown_tool", "Unknown tool: ", name.as_str()))
        },
    }
}

/// The outcome of a request with `method` and `params`.
pub open spec fn request_done(
    defs: Seq<DefView>,
    before: Set<Row>,
    after: Set<Row>,
    scope: Seq<char>,
    request: McpRequest,
    now: int,
    r: Result<McpResponse, HardError>,
) -> bool {
    if request.method@ == "tools/list"@ {
        r matches Ok(resp) && resp.result matches Payload::Tools(t) && is_catalog(t@) && after == before
    } else if request.method@ == "tools/call"@ {
        call_done(defs, before, after, scope, request.params, now, r)
    } else {
        &&& r matches Ok(resp) && is_failure(resp.result, "unknown_method"@, "Unknown method: "@ + request.method@)
        &&& after == before
    }
}

/// Handles one decoded request for `scope` at `now`.
pub fn handle_mcp_request(store: &mut ModifierStore, scope: &str, request: &McpRequest, now: i64)
    -> (r: Result<McpResponse, HardError>)
    requires
        old(store).wf(),
    ensures
        final(store).wf(),
        final(store).defs() == old(store).defs(),
        request_done(old(store).defs(), old(store).rows(), final(store).rows(), scope@, *request, now as int, r),
{
    if str_eq(request.method.as_str(), "tools/list") {
        Ok(McpResponse { result: Payload::Tools(list_tools()) })
    } else if str_eq(request.method.as_str(), "tools/call") {
        call_tool(store, scope, &request.params, now)
    } else {
        Ok(failure("unknown_method", "Unknown method: ", request.method.as_str()))
    }
}

} // verus!
