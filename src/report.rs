//! The texts that the modifier operations report.

use vstd::prelude::*;
use crate::clock::{remaining, remaining_minutes};
use crate::models::{ActiveDrug, Drug};
use crate::store::{drug_views, DefView};
use crate::text::{decimal, push_int};

verus! {

/// One catalog line: name, duration and instruction text.
pub open spec fn definition_entry(d: DefView) -> Seq<char> {
    "• "@ + d.0 + " ("@ + decimal(d.2) + "min)\n  "@ + d.1 + "\n\n"@
}

/// The catalog lines of `defs`, in order.
pub open spec fn definition_entries(defs: Seq<DefView>) -> Seq<char>
    decreases defs.len(),
{
    if defs.len() == 0 {
        Seq::empty()
    } else {
        definition_entries(defs.drop_last()) + definition_entry(defs.last())
    }
}

/// The human-readable catalog of definitions.
pub open spec fn definitions_text(defs: Seq<DefView>) -> Seq<char> {
    "Available Digital Drugs:\n\n"@ + definition_entries(defs)
}

/// The report block of one live assignment at `now`.
pub open spec fn active_entry(a: ActiveDrug, now: int) -> Seq<char> {
    "╔════════════════════════════════════════╗\n║  🎯 "@ + a.name@ + "                                 ║\n╠════════════════════════════════════════╣\n║  "@ + a.prompt@ + "                                    ║\n╚════════════════════════════════════════╝\nTime remaining: "@
        + decimal(remaining(a.expires_at as int, now)) + " minutes\n\n"@
}

/// The report blocks of `l`, in order.
pub open spec fn active_entries(l: Seq<ActiveDrug>, now: int) -> Seq<char>
    decreases l.len(),
{
    if l.len() == 0 {
        Seq::empty()
    } else {
        active_entries(l.drop_last(), now) + active_entry(l.last(), now)
    }
}

/// The text that says no modifier is in effect.
pub open spec fn no_active_text() -> Seq<char> {
    "No active drugs. Take a drug with the take_drug tool."@
}

/// The report of live assignments, or the explicit empty notice.
pub open spec fn active_text(l: Seq<ActiveDrug>, now: int) -> Seq<char> {
    if l.len() == 0 {
        no_active_text()
    } else {
        "Currently Active Drugs:\n\n"@ + active_entries(l, now)
    }
}

/// The confirmation of a take: name, instruction text, duration and the
/// rendered expiry.
pub open spec fn take_text(d: DefView, stamp: Seq<char>) -> Seq<char> {
    "✅ Successfully took "@ + d.0 + "!\n\n╔════════════════════════════════════════╗\n║  🎯 ACTIVE BEHAVIORAL MODIFICATION     ║\n╠════════════════════════════════════════╣\n║  "@ + d.1 + "                                    ║\n╚════════════════════════════════════════╝\n\nDuration: "@ + decimal(d.2) + " minutes\nExpires: "@ + stamp
}

/// The confirmation of a detox.
pub open spec fn detox_text() -> Seq<char> {
    "✅ All active drugs removed. Returning to standard behavior."@
}

/// Renders the catalog of `defs`.
pub fn render_definitions(defs: &Vec<Drug>) -> (r: String)
    ensures
        r@ == definitions_text(drug_views(defs@)),
{
    let mut out = String::from_str("Available Digital Drugs:\n\n");
    let n = defs.len();
    let mut i: usize = 0;
    while i < n
        invariant
            n == defs@.len(),
            i <= n,
            out@ == "Available Digital Drugs:\n\n"@ + definition_entries(drug_views(defs@).subrange(0, i as int)),
        decreases n - i,
    {
        let d = &defs[i];
        out.append("• ");
        out.append(d.name.as_str());
        out.append(" (");
        push_int(&mut out, d.default_duration_minutes);
        out.append("min)\n  ");
        out.append(d.prompt.as_str());
        out.append("\n\n");
        proof {
            let v = drug_views(defs@);
            assert(v.subrange(0, i + 1).drop_last() =~= v.subrange(0, i as int));
            assert(v.subrange(0, i + 1).last() == d@);
            assert(out@ =~= "Available Digital Drugs:\n\n"@ + definition_entries(v.subrange(0, i + 1)));
        }
        i = i + 1;
    }
    assert(drug_views(defs@).subrange(0, n as int) =~= drug_views(defs@));
    out
}

/// Renders the report of live assignments at `now`.
pub fn render_active(l: &Vec<ActiveDrug>, now: i64) -> (r: String)
    requires
        forall|k: int| 0 <= k < l@.len() ==> #[trigger] l@[k].expires_at > now,
    ensures
        r@ == active_text(l@, now as int),
{
    if l.len() == 0 {
        return String::from_str("No active drugs. Take a drug with the take_drug tool.");
    }
    let mut out = String::from_str("Currently Active Drugs:\n\n");
    let n = l.len();
    let mut i: usize = 0;
    while i < n
        invariant
            n == l@.len(),
            i <= n,
            forall|k: int| 0 <= k < l@.len() ==> #[trigger] l@[k].expires_at > now,
            out@ == "Currently Active Drugs:\n\n"@ + active_entries(l@.subrange(0, i as int), now as int),
        decreases n - i,
    {
        let a = &l[i];
        out.append("╔════════════════════════════════════════╗\n║  🎯 ");
        out.append(a.name.as_str());
        out.append("                                 ║\n╠════════════════════════════════════════╣\n║  ");
        out.append(a.prompt.as_str());
        out.append("                                    ║\n╚════════════════════════════════════════╝\nTime remaining: ");
        let left = remaining_minutes(a.expires_at, now);
        push_int(&mut out, left);
        out.append(" minutes\n\n");
        proof {
            assert(l@.subrange(0, i + 1).drop_last() =~= l@.subrange(0, i as int));
            assert(l@.subrange(0, i + 1).last() == *a);
            assert(out@ =~= "Currently Active Drugs:\n\n"@ + active_entries(l@.subrange(0, i + 1), now as int));
        }
        i = i + 1;
    }
    assert(l@.subrange(0, n as int) =~= l@);
    out
}

/// Renders the confirmation of a take.
pub fn render_take(d: &Drug, stamp: &str) -> (r: String)
    ensures
        r@ == take_text(d@, stamp@),
{
    let mut out = String::from_str("✅ Successfully took ");
    out.append(d.name.as_str());
    out.append("!\n\n╔════════════════════════════════════════╗\n║  🎯 ACTIVE BEHAVIORAL MODIFICATION     ║\n╠════════════════════════════════════════╣\n║  ");
    out.append(d.prompt.as_str());
    out.append("                                    ║\n╚════════════════════════════════════════╝\n\nDuration: ");
    push_int(&mut out, d.default_duration_minutes);
    out.append(" minutes\nExpires: ");
    out.append(stamp);
    assert(out@ =~= take_text(d@, stamp@));
    out
}

/// The confirmation of a detox.
pub fn render_detox() -> (r: String)
    ensures
        r@ == detox_text(),
{
    String::from_str("✅ All active drugs removed. Returning to standard behavior.")
}

} // verus!
