use agent_drugs::catalog::list_tools;
use agent_drugs::dispatch::{handle_mcp_request, HardError};
use agent_drugs::models::{CallParams, Drug, McpRequest, McpResponse, Payload};
use agent_drugs::store::ModifierStore;
use agent_drugs::text::{int_text, str_eq, str_lt};

const SCOPE: &str = "mock-user/mock-agent";

fn drug(name: &str, prompt: &str, minutes: i64) -> Drug {
    Drug { name: name.to_string(), prompt: prompt.to_string(), default_duration_minutes: minutes }
}

fn seeded() -> ModifierStore {
    let mut s = ModifierStore::new();
    assert!(s.define(drug("focus", "Be focused.", 60)));
    assert!(s.define(drug("concise", "Be brief.", 30)));
    s
}

fn call(tool: &str, arg: Option<&str>) -> McpRequest {
    McpRequest {
        method: "tools/call".to_string(),
        params: Some(CallParams { name: Some(tool.to_string()), argument_name: arg.map(|a| a.to_string()) }),
    }
}

fn text_of(r: Result<McpResponse, HardError>) -> String {
    match r.unwrap().result {
        Payload::Text(t) => t,
        other => panic!("expected text, got {:?}", other),
    }
}

fn failure_of(r: Result<McpResponse, HardError>) -> (String, String) {
    match r.unwrap().result {
        Payload::Failure { error, message } => (error, message),
        other => panic!("expected failure, got {:?}", other),
    }
}

#[test]
fn take_focus_reports_name_and_expiry() {
    let mut s = seeded();
    let t = text_of(handle_mcp_request(&mut s, SCOPE, &call("take_drug", Some("focus")), 0));
    assert!(t.starts_with("✅ Successfully took focus!\n\n"));
    assert!(t.contains("║  Be focused."));
    assert!(t.contains("Duration: 60 minutes\n"));
    assert!(t.ends_with("Expires: 1970-01-01 01:00:00 UTC"));
}

#[test]
fn active_after_take_lists_focus_with_sixty_minutes() {
    let mut s = seeded();
    let now = 1_700_000_000;
    handle_mcp_request(&mut s, SCOPE, &call("take_drug", Some("focus")), now).unwrap();
    let t = text_of(handle_mcp_request(&mut s, SCOPE, &call("active_drugs", None), now));
    assert!(t.starts_with("Currently Active Drugs:\n\n"));
    assert!(t.contains("🎯 focus"));
    assert!(t.contains("Time remaining: 60 minutes\n\n"));
    let later = text_of(handle_mcp_request(&mut s, SCOPE, &call("active_drugs", None), now + 90));
    assert!(later.contains("Time remaining: 58 minutes\n\n"));
}

#[test]
fn unknown_drug_is_soft_not_found_and_stores_nothing() {
    let mut s = seeded();
    let r = handle_mcp_request(&mut s, SCOPE, &call("take_drug", Some("unknown-x")), 100);
    assert_eq!(failure_of(r), ("not_found".to_string(), "Drug not found: unknown-x".to_string()));
    let t = text_of(handle_mcp_request(&mut s, SCOPE, &call("active_drugs", None), 100));
    assert_eq!(t, "No active drugs. Take a drug with the take_drug tool.");
}

#[test]
fn detox_after_take_clears_and_repeats_quietly() {
    let mut s = seeded();
    handle_mcp_request(&mut s, SCOPE, &call("take_drug", Some("focus")), 10).unwrap();
    let d = text_of(handle_mcp_request(&mut s, SCOPE, &call("detox", None), 10));
    assert_eq!(d, "✅ All active drugs removed. Returning to standard behavior.");
    let t = text_of(handle_mcp_request(&mut s, SCOPE, &call("active_drugs", None), 10));
    assert_eq!(t, "No active drugs. Take a drug with the take_drug tool.");
    let again = text_of(handle_mcp_request(&mut s, SCOPE, &call("detox", None), 10));
    assert_eq!(again, d);
}

#[test]
fn bogus_tool_is_soft_unknown_tool() {
    let mut s = seeded();
    let r = handle_mcp_request(&mut s, SCOPE, &call("bogus_tool", None), 0);
    assert_eq!(failure_of(r), ("unknown_tool".to_string(), "Unknown tool: bogus_tool".to_string()));
}

#[test]
fn unknown_method_is_soft() {
    let mut s = seeded();
    let req = McpRequest { method: "resources/list".to_string(), params: None };
    let r = handle_mcp_request(&mut s, SCOPE, &req, 0);
    assert_eq!(failure_of(r), ("unknown_method".to_string(), "Unknown method: resources/list".to_string()));
}

#[test]
fn malformed_calls_are_hard_errors() {
    let mut s = seeded();
    let no_params = McpRequest { method: "tools/call".to_string(), params: None };
    assert_eq!(handle_mcp_request(&mut s, SCOPE, &no_params, 0).unwrap_err(), HardError::MissingParams);
    let no_name = McpRequest {
        method: "tools/call".to_string(),
        params: Some(CallParams { name: None, argument_name: Some("focus".to_string()) }),
    };
    assert_eq!(handle_mcp_request(&mut s, SCOPE, &no_name, 0).unwrap_err(), HardError::MissingToolName);
    let no_arg = call("take_drug", None);
    assert_eq!(handle_mcp_request(&mut s, SCOPE, &no_arg, 0).unwrap_err(), HardError::MissingDrugName);
    let e = HardError::MissingParams.to_mcp_error();
    assert_eq!(e.error, "internal_error");
    assert_eq!(e.message, "Missing params");
}

#[test]
fn expiry_beyond_range_is_hard_error() {
    let mut s = ModifierStore::new();
    assert!(s.define(drug("forever", "Never stop.", i64::MAX / 60)));
    let r = handle_mcp_request(&mut s, SCOPE, &call("take_drug", Some("forever")), 1_000);
    assert_eq!(r.unwrap_err(), HardError::ExpiryOutOfRange);
    let t = text_of(handle_mcp_request(&mut s, SCOPE, &call("active_drugs", None), 1_000));
    assert_eq!(t, "No active drugs. Take a drug with the take_drug tool.");
}

#[test]
fn taking_twice_keeps_one_row_with_the_later_expiry() {
    let mut s = seeded();
    handle_mcp_request(&mut s, SCOPE, &call("take_drug", Some("focus")), 0).unwrap();
    handle_mcp_request(&mut s, SCOPE, &call("take_drug", Some("focus")), 1200).unwrap();
    let t = text_of(handle_mcp_request(&mut s, SCOPE, &call("active_drugs", None), 1200));
    assert_eq!(t.matches("🎯 focus").count(), 1);
    assert!(t.contains("Time remaining: 60 minutes"));
}

#[test]
fn assignments_expire_without_delete() {
    let mut s = seeded();
    handle_mcp_request(&mut s, SCOPE, &call("take_drug", Some("concise")), 0).unwrap();
    let before = text_of(handle_mcp_request(&mut s, SCOPE, &call("active_drugs", None), 1799));
    assert!(before.contains("Time remaining: 0 minutes"));
    let after = text_of(handle_mcp_request(&mut s, SCOPE, &call("active_drugs", None), 1800));
    assert_eq!(after, "No active drugs. Take a drug with the take_drug tool.");
}

#[test]
fn scopes_are_isolated() {
    let mut s = seeded();
    handle_mcp_request(&mut s, "a", &call("take_drug", Some("focus")), 0).unwrap();
    handle_mcp_request(&mut s, "b", &call("detox", None), 0).unwrap();
    let a = text_of(handle_mcp_request(&mut s, "a", &call("active_drugs", None), 0));
    assert!(a.contains("🎯 focus"));
    let b = text_of(handle_mcp_request(&mut s, "b", &call("active_drugs", None), 0));
    assert_eq!(b, "No active drugs. Take a drug with the take_drug tool.");
}

#[test]
fn tool_list_is_fixed_whatever_the_store_holds() {
    let mut empty = ModifierStore::new();
    let mut full = seeded();
    handle_mcp_request(&mut full, SCOPE, &call("take_drug", Some("focus")), 0).unwrap();
    let req = McpRequest { method: "tools/list".to_string(), params: None };
    for s in [&mut empty, &mut full] {
        match handle_mcp_request(s, SCOPE, &req, 0).unwrap().result {
            Payload::Tools(t) => {
                let names: Vec<&str> = t.iter().map(|d| d.name.as_str()).collect();
                assert_eq!(names, vec!["list_drugs", "take_drug", "active_drugs", "detox"]);
                assert_eq!(t[1].required.len(), 1);
                assert_eq!(t[1].required[0].name, "name");
                assert!(t[0].required.is_empty() && t[2].required.is_empty() && t[3].required.is_empty());
            }
            other => panic!("expected tools, got {:?}", other),
        }
    }
    assert_eq!(list_tools()[3].description, "Remove all active drugs and return to standard behavior");
}

#[test]
fn list_drugs_renders_catalog() {
    let mut s = seeded();
    let t = text_of(handle_mcp_request(&mut s, SCOPE, &call("list_drugs", None), 0));
    assert_eq!(
        t,
        "Available Digital Drugs:\n\n• concise (30min)\n  Be brief.\n\n• focus (60min)\n  Be focused.\n\n"
    );
    let mut empty = ModifierStore::new();
    let e = text_of(handle_mcp_request(&mut empty, SCOPE, &call("list_drugs", None), 0));
    assert_eq!(e, "Available Digital Drugs:\n\n");
}

#[test]
fn define_refuses_duplicates_and_non_positive_durations() {
    let mut s = seeded();
    assert!(!s.define(drug("focus", "Other text.", 10)));
    assert!(!s.define(drug("zero", "None.", 0)));
    assert!(!s.define(drug("negative", "None.", -5)));
    assert_eq!(s.list_definitions().len(), 2);
}

#[test]
fn integers_render_in_decimal() {
    assert_eq!(int_text(0), "0");
    assert_eq!(int_text(45), "45");
    assert_eq!(int_text(-7), "-7");
    assert_eq!(int_text(i64::MIN), "-9223372036854775808");
    assert_eq!(int_text(i64::MAX), "9223372036854775807");
}

#[test]
fn active_report_is_ordered_by_name() {
    let mut s = seeded();
    assert!(s.define(drug("alpha", "First.", 45)));
    handle_mcp_request(&mut s, SCOPE, &call("take_drug", Some("focus")), 0).unwrap();
    handle_mcp_request(&mut s, SCOPE, &call("take_drug", Some("concise")), 0).unwrap();
    handle_mcp_request(&mut s, SCOPE, &call("take_drug", Some("alpha")), 0).unwrap();
    let t = text_of(handle_mcp_request(&mut s, SCOPE, &call("active_drugs", None), 60));
    let a = t.find("🎯 alpha").unwrap();
    let c = t.find("🎯 concise").unwrap();
    let f = t.find("🎯 focus").unwrap();
    assert!(a < c && c < f);
    let expected = format!(
        "Currently Active Drugs:\n\n{}{}{}",
        block("alpha", "First.", 44),
        block("concise", "Be brief.", 29),
        block("focus", "Be focused.", 59)
    );
    assert_eq!(t, expected);
}

fn block(name: &str, prompt: &str, minutes: i64) -> String {
    format!(
        "╔════════════════════════════════════════╗\n║  🎯 {}                                 ║\n╠════════════════════════════════════════╣\n║  {}                                    ║\n╚════════════════════════════════════════╝\nTime remaining: {} minutes\n\n",
        name, prompt, minutes
    )
}

#[test]
fn take_text_is_exact() {
    let mut s = seeded();
    let t = text_of(handle_mcp_request(&mut s, SCOPE, &call("take_drug", Some("concise")), 86_400));
    assert_eq!(
        t,
        "✅ Successfully took concise!\n\n╔════════════════════════════════════════╗\n║  🎯 ACTIVE BEHAVIORAL MODIFICATION     ║\n╠════════════════════════════════════════╣\n║  Be brief.                                    ║\n╚════════════════════════════════════════╝\n\nDuration: 30 minutes\nExpires: 1970-01-02 00:30:00 UTC"
    );
}

#[test]
fn expiry_beyond_calendar_is_hard_error_and_stores_nothing() {
    let mut s = ModifierStore::new();
    assert!(s.define(drug("epoch", "Last a while.", 1_000_000_000_000_000)));
    let r = handle_mcp_request(&mut s, SCOPE, &call("take_drug", Some("epoch")), 0);
    assert_eq!(r.unwrap_err(), HardError::ExpiryOutOfRange);
    let t = text_of(handle_mcp_request(&mut s, SCOPE, &call("active_drugs", None), 0));
    assert_eq!(t, "No active drugs. Take a drug with the take_drug tool.");
}

#[test]
fn names_order_by_code_point() {
    assert!(str_lt("alpha", "beta"));
    assert!(str_lt("ab", "abc"));
    assert!(!str_lt("abc", "ab"));
    assert!(!str_lt("same", "same"));
    assert!(str_lt("Zeta", "alpha"));
    assert!(str_eq("detox", "detox"));
    assert!(!str_eq("detox", "detox "));
}
