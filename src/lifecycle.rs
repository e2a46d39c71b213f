//! What the modifier operations guarantee across calls.

use vstd::prelude::*;
use crate::catalog::is_catalog;
use crate::clock::{expiry, remaining};
use crate::dispatch::{active_done, is_text, take_done, HardError};
use crate::models::{ActiveDrug, McpResponse, Payload, ToolDescriptor};
use crate::report::{active_entries, active_text};
use crate::store::{
    is_listing, key_of, keys_unique, lemma_listing_unique, live, lookup, purged, upserted, ModifierStore, Row,
};

verus! {

/// The definition that `lookup` finds carries the name looked up.
proof fn lemma_lookup_name(store: ModifierStore, name: Seq<char>)
    requires
        lookup(store.defs(), name) is Some,
    ensures
        lookup(store.defs(), name).unwrap().0 == name,
{
    let defs = store.defs();
    let i = choose|i: int| 0 <= i < defs.len() && #[trigger] defs[i].0 == name;
    assert(defs[i].0 == name);
}

/// The definition that `lookup` finds in a well-formed store has a positive duration.
proof fn lemma_lookup_positive(store: ModifierStore, name: Seq<char>)
    requires
        store.wf(),
        lookup(store.defs(), name) is Some,
    ensures
        lookup(store.defs(), name).unwrap().2 > 0,
{
    store.lemma_wf();
    let defs = store.defs();
    let i = choose|i: int| 0 <= i < defs.len() && #[trigger] defs[i].0 == name;
    assert(defs[i].2 > 0);
}

/// Taking a defined modifier at `now` leaves it live for its scope at `now`,
/// as the only live row of that name, with exactly its defined duration in
/// whole minutes remaining.
pub proof fn lemma_take_sets_remaining(
    before: ModifierStore,
    after: ModifierStore,
    scope: Seq<char>,
    name: Seq<char>,
    now: int,
    r: Result<McpResponse, HardError>,
)
    requires
        before.wf(),
        lookup(before.defs(), name) is Some,
        take_done(before.defs(), before.rows(), after.rows(), scope, Some(name), now, r),
        r is Ok,
    ensures
        ({
            let d = lookup(before.defs(), name).unwrap();
            let e = expiry(now, d.2);
            &&& live(after.rows(), scope, now).contains((scope, name, d.1, e))
            &&& remaining(e, now) == d.2
            &&& forall|x: Row| #[trigger] live(after.rows(), scope, now).contains(x) && x.1 == name
                ==> x == (scope, name, d.1, e)
        }),
{
    lemma_lookup_name(before, name);
    lemma_lookup_positive(before, name);
    let d = lookup(before.defs(), name).unwrap();
    let e = expiry(now, d.2);
    assert(e - now == 60 * d.2);
    assert((60 * d.2) / 60 == d.2) by (nonlinear_arith);
    assert(after.rows().contains((scope, name, d.1, e)));
}

/// Taking the same modifier twice for a scope leaves exactly one row under
/// that key: the second take's text and expiry.
pub proof fn lemma_take_twice(
    s0: ModifierStore,
    s1: ModifierStore,
    s2: ModifierStore,
    scope: Seq<char>,
    name: Seq<char>,
    now1: int,
    now2: int,
    r1: Result<McpResponse, HardError>,
    r2: Result<McpResponse, HardError>,
)
    requires
        s0.wf(),
        lookup(s0.defs(), name) is Some,
        take_done(s0.defs(), s0.rows(), s1.rows(), scope, Some(name), now1, r1),
        s1.defs() == s0.defs(),
        take_done(s1.defs(), s1.rows(), s2.rows(), scope, Some(name), now2, r2),
        r2 is Ok,
    ensures
        ({
            let d = lookup(s0.defs(), name).unwrap();
            let second: Row = (scope, name, d.1, expiry(now2, d.2));
            &&& s2.rows().contains(second)
            &&& forall|x: Row| #[trigger] s2.rows().contains(x) && key_of(x) == (scope, name) ==> x == second
        }),
{
    lemma_lookup_name(s0, name);
}

/// Once `now` reaches the expiry that a take set, no listing of live rows
/// names that modifier, though its row is still stored.
pub proof fn lemma_take_then_expire(
    before: ModifierStore,
    after: ModifierStore,
    scope: Seq<char>,
    name: Seq<char>,
    taken_at: int,
    r: Result<McpResponse, HardError>,
    now: int,
    l: Seq<ActiveDrug>,
)
    requires
        before.wf(),
        lookup(before.defs(), name) is Some,
        take_done(before.defs(), before.rows(), after.rows(), scope, Some(name), taken_at, r),
        r is Ok,
        now >= expiry(taken_at, lookup(before.defs(), name).unwrap().2),
        is_listing(after.rows(), scope, now, l),
    ensures
        after.rows().contains(
            (scope, name, lookup(before.defs(), name).unwrap().1,
             expiry(taken_at, lookup(before.defs(), name).unwrap().2)),
        ),
        forall|k: int| 0 <= k < l.len() ==> (#[trigger] l[k]).name@ != name,
{
    lemma_lookup_name(before, name);
    assert forall|k: int| 0 <= k < l.len() implies (#[trigger] l[k]).name@ != name by {
        let x: Row = (scope, l[k]@.0, l[k]@.1, l[k]@.2);
        assert(live(after.rows(), scope, now).contains(x));
    }
}

/// After a detox of `scope` no row of it is live at any time, any listing is
/// empty, and a second detox, or one of a scope with no rows, changes nothing.
pub proof fn lemma_detox_clears(rows: Set<Row>, scope: Seq<char>, now: int, l: Seq<ActiveDrug>)
    requires
        is_listing(purged(rows, scope), scope, now, l),
    ensures
        live(purged(rows, scope), scope, now) == Set::<Row>::empty(),
        l.len() == 0,
        purged(purged(rows, scope), scope) == purged(rows, scope),
        (forall|x: Row| #[trigger] rows.contains(x) ==> x.0 != scope) ==> purged(rows, scope) == rows,
{
    assert(live(purged(rows, scope), scope, now) =~= Set::<Row>::empty());
    if l.len() > 0 {
        assert(live(purged(rows, scope), scope, now).contains((scope, l[0]@.0, l[0]@.1, l[0]@.2)));
    }
    assert(purged(purged(rows, scope), scope) =~= purged(rows, scope));
    if forall|x: Row| #[trigger] rows.contains(x) ==> x.0 != scope {
        assert(purged(rows, scope) =~= rows);
    }
}

/// Any two catalogs agree descriptor for descriptor: the tool list does not
/// depend on anything else.
pub proof fn lemma_catalog_fixed(a: Seq<ToolDescriptor>, b: Seq<ToolDescriptor>)
    requires
        is_catalog(a),
        is_catalog(b),
    ensures
        a.len() == b.len(),
        forall|i: int| 0 <= i < a.len() ==> #[trigger] a[i]@ == b[i]@,
{
}

proof fn lemma_entries_by_view(l1: Seq<ActiveDrug>, l2: Seq<ActiveDrug>, now: int)
    requires
        l1.len() == l2.len(),
        forall|k: int| 0 <= k < l1.len() ==> #[trigger] l1[k]@ == l2[k]@,
    ensures
        active_entries(l1, now) == active_entries(l2, now),
    decreases l1.len(),
{
    if l1.len() > 0 {
        let k = l1.len() - 1;
        assert(l1[k]@ == l2[k]@);
        lemma_entries_by_view(l1.drop_last(), l2.drop_last(), now);
    }
}

/// Two reports of the live assignments of a scope, over the same rows and at
/// the same time, are the same text.
pub proof fn lemma_active_report_determined(
    store: ModifierStore,
    scope: Seq<char>,
    now: int,
    a: McpResponse,
    b: McpResponse,
)
    requires
        store.wf(),
        active_done(store.rows(), scope, now, a),
        active_done(store.rows(), scope, now, b),
    ensures
        a.result matches Payload::Text(x) && b.result matches Payload::Text(y) && x@ == y@,
{
    store.lemma_wf();
    let l1 = choose|l: Seq<ActiveDrug>| is_listing(store.rows(), scope, now, l) && is_text(a.result, active_text(l, now));
    let l2 = choose|l: Seq<ActiveDrug>| is_listing(store.rows(), scope, now, l) && is_text(b.result, active_text(l, now));
    lemma_listing_unique(store.rows(), scope, now, l1, l2);
    lemma_entries_by_view(l1, l2, now);
}

} // verus!
