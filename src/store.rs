//! The modifier store: definitions, and assignments keyed by (scope, name).

use vstd::prelude::*;
use crate::models::{ActiveDrug, Drug};
use crate::text::{chars_lt, lemma_chars_lt_irreflexive, lemma_chars_lt_total, lemma_chars_lt_transitive, str_eq, str_lt};

verus! {

/// A definition as seen by contracts: name, instruction text, minutes.
pub type DefView = (Seq<char>, Seq<char>, int);

/// A stored assignment as seen by contracts: scope, name, instruction text,
/// expiry in epoch seconds.
pub type Row = (Seq<char>, Seq<char>, Seq<char>, int);

/// The key under which at most one assignment exists.
pub open spec fn key_of(r: Row) -> (Seq<char>, Seq<char>) {
    (r.0, r.1)
}

/// Rows after an insert-or-replace of `row` under its key.
pub open spec fn upserted(rows: Set<Row>, row: Row) -> Set<Row> {
    rows.filter(|r: Row| key_of(r) != key_of(row)).insert(row)
}

/// Rows after every assignment of `scope` is removed.
pub open spec fn purged(rows: Set<Row>, scope: Seq<char>) -> Set<Row> {
    rows.filter(|r: Row| r.0 != scope)
}

/// The rows of `scope` still in effect at `now`.
pub open spec fn live(rows: Set<Row>, scope: Seq<char>, now: int) -> Set<Row> {
    rows.filter(|r: Row| r.0 == scope && r.3 > now)
}

/// No two rows share a key.
pub open spec fn keys_unique(rows: Set<Row>) -> bool {
    forall|a: Row, b: Row|
        rows.contains(a) && rows.contains(b) && key_of(a) == key_of(b) ==> a == b
}

/// No two definitions share a name.
pub open spec fn names_unique(defs: Seq<DefView>) -> bool {
    forall|i: int, j: int|
        0 <= i < defs.len() && 0 <= j < defs.len() && i != j ==> defs[i].0 != defs[j].0
}

/// Definition names strictly ascending.
pub open spec fn names_sorted(defs: Seq<DefView>) -> bool {
    forall|i: int, j: int| 0 <= i < j < defs.len() ==> chars_lt(#[trigger] defs[i].0, #[trigger] defs[j].0)
}

/// The definition named `name`, if any.
pub open spec fn lookup(defs: Seq<DefView>, name: Seq<char>) -> Option<DefView> {
    if exists|i: int| 0 <= i < defs.len() && #[trigger] defs[i].0 == name {
        Some(defs[choose|i: int| 0 <= i < defs.len() && #[trigger] defs[i].0 == name])
    } else {
        None
    }
}

/// The views of a sequence of definitions.
pub open spec fn drug_views(s: Seq<Drug>) -> Seq<DefView> {
    s.map_values(|d: Drug| d@)
}

/// `l` lists the rows of `scope` live at `now`, each once, as
/// (name, instruction text, expiry), by name ascending.
pub open spec fn is_listing(rows: Set<Row>, scope: Seq<char>, now: int, l: Seq<ActiveDrug>) -> bool {
    &&& forall|k: int| 0 <= k < l.len()
        ==> live(rows, scope, now).contains((scope, #[trigger] l[k]@.0, l[k]@.1, l[k]@.2))
    &&& forall|x: Row| #[trigger] live(rows, scope, now).contains(x)
        ==> exists|k: int| 0 <= k < l.len() && #[trigger] l[k]@ == (x.1, x.2, x.3)
    &&& forall|k1: int, k2: int| 0 <= k1 < k2 < l.len()
        ==> chars_lt(#[trigger] l[k1].name@, #[trigger] l[k2].name@)
}

/// Two listings of the same live rows agree entry for entry: the report of
/// a scope at a given time is determined by the stored rows.
pub proof fn lemma_listing_unique(rows: Set<Row>, scope: Seq<char>, now: int, l1: Seq<ActiveDrug>, l2: Seq<ActiveDrug>)
    requires
        keys_unique(rows),
        is_listing(rows, scope, now, l1),
        is_listing(rows, scope, now, l2),
    ensures
        l1.len() == l2.len(),
        forall|k: int| 0 <= k < l1.len() ==> #[trigger] l1[k]@ == l2[k]@,
    decreases l1.len(),
{
    if l1.len() == 0 || l2.len() == 0 {
        if l2.len() > 0 {
            let x: Row = (scope, l2[0]@.0, l2[0]@.1, l2[0]@.2);
            assert(live(rows, scope, now).contains(x));
        }
        if l1.len() > 0 {
            let x: Row = (scope, l1[0]@.0, l1[0]@.1, l1[0]@.2);
            assert(live(rows, scope, now).contains(x));
        }
        return;
    }
    let r1: Row = (scope, l1[0]@.0, l1[0]@.1, l1[0]@.2);
    let r2: Row = (scope, l2[0]@.0, l2[0]@.1, l2[0]@.2);
    assert(live(rows, scope, now).contains(r1));
    assert(live(rows, scope, now).contains(r2));
    let k2 = choose|k: int| 0 <= k < l2.len() && #[trigger] l2[k]@ == (r1.1, r1.2, r1.3);
    let k1 = choose|k: int| 0 <= k < l1.len() && #[trigger] l1[k]@ == (r2.1, r2.2, r2.3);
    if r1.1 != r2.1 {
        assert(k1 > 0);
        assert(k2 > 0);
        assert(chars_lt(l1[0].name@, l1[k1].name@));
        assert(chars_lt(l2[0].name@, l2[k2].name@));
        lemma_chars_lt_total(r1.1, r2.1);
    }
    assert(key_of(r1) == key_of(r2));
    assert(r1 == r2);
    let rest = rows.remove(r1);
    let t1 = l1.drop_first();
    let t2 = l2.drop_first();
    assert(live(rest, scope, now) =~= live(rows, scope, now).remove(r1));
    assert forall|a: Row, b: Row| rest.contains(a) && rest.contains(b) && key_of(a) == key_of(b) implies a == b by {
        assert(rows.contains(a) && rows.contains(b));
    }
    assert forall|k: int| 0 <= k < t1.len()
        implies live(rest, scope, now).contains((scope, #[trigger] t1[k]@.0, t1[k]@.1, t1[k]@.2)) by {
        assert(t1[k] == l1[k + 1]);
        assert(chars_lt(l1[0].name@, l1[k + 1].name@));
        lemma_chars_lt_irreflexive(l1[0].name@);
    }
    assert forall|k: int| 0 <= k < t2.len()
        implies live(rest, scope, now).contains((scope, #[trigger] t2[k]@.0, t2[k]@.1, t2[k]@.2)) by {
        assert(t2[k] == l2[k + 1]);
        assert(chars_lt(l2[0].name@, l2[k + 1].name@));
        lemma_chars_lt_irreflexive(l2[0].name@);
    }
    assert forall|x: Row| #[trigger] live(rest, scope, now).contains(x)
        implies exists|k: int| 0 <= k < t1.len() && #[trigger] t1[k]@ == (x.1, x.2, x.3) by {
        assert(live(rows, scope, now).contains(x));
        let k = choose|k: int| 0 <= k < l1.len() && #[trigger] l1[k]@ == (x.1, x.2, x.3);
        assert(k != 0);
        assert(t1[k - 1] == l1[k]);
    }
    assert forall|x: Row| #[trigger] live(rest, scope, now).contains(x)
        implies exists|k: int| 0 <= k < t2.len() && #[trigger] t2[k]@ == (x.1, x.2, x.3) by {
        assert(live(rows, scope, now).contains(x));
        let k = choose|k: int| 0 <= k < l2.len() && #[trigger] l2[k]@ == (x.1, x.2, x.3);
        assert(k != 0);
        assert(t2[k - 1] == l2[k]);
    }
    assert forall|k1: int, k2: int| 0 <= k1 < k2 < t1.len()
        implies chars_lt(#[trigger] t1[k1].name@, #[trigger] t1[k2].name@) by {
        assert(t1[k1] == l1[k1 + 1] && t1[k2] == l1[k2 + 1]);
    }
    assert forall|k1: int, k2: int| 0 <= k1 < k2 < t2.len()
        implies chars_lt(#[trigger] t2[k1].name@, #[trigger] t2[k2].name@) by {
        assert(t2[k1] == l2[k1 + 1] && t2[k2] == l2[k2 + 1]);
    }
    lemma_listing_unique(rest, scope, now, t1, t2);
    assert forall|k: int| 0 <= k < l1.len() implies #[trigger] l1[k]@ == l2[k]@ by {
        if k > 0 {
            assert(t1[k - 1] == l1[k] && t2[k - 1] == l2[k]);
        }
    }
}

/// One stored assignment.
pub struct Assignment {
    pub scope: String,
    pub name: String,
    pub prompt: String,
    pub expires_at: i64,
}

impl View for Assignment {
    type V = Row;

    open spec fn view(&self) -> Row {
        (self.scope@, self.name@, self.prompt@, self.expires_at as int)
    }
}

impl Assignment {
    fn copy(&self) -> (r: Assignment)
        ensures
            r@ == self@,
    {
        Assignment {
            scope: self.scope.clone(),
            name: self.name.clone(),
            prompt: self.prompt.clone(),
            expires_at: self.expires_at,
        }
    }
}

impl Drug {
    /// A field-for-field copy.
    pub fn copy(&self) -> (r: Drug)
        ensures
            r@ == self@,
    {
        Drug {
            name: self.name.clone(),
            prompt: self.prompt.clone(),
            default_duration_minutes: self.default_duration_minutes,
        }
    }
}

/// Definitions, read-only once defined, and the assignments of every scope.
pub struct ModifierStore {
    definitions: Vec<Drug>,
    assignments: Vec<Assignment>,
}

impl ModifierStore {
    /// The definitions, by name ascending.
    pub closed spec fn defs(&self) -> Seq<DefView> {
        drug_views(self.definitions@)
    }

    /// The stored assignments.
    pub closed spec fn rows(&self) -> Set<Row> {
        Set::new(|x: Row| exists|i: int| 0 <= i < self.assignments@.len() && #[trigger] self.assignments@[i]@ == x)
    }

    /// Definition names are unique and durations positive; no two
    /// assignments share a (scope, name) key.
    pub closed spec fn wf(&self) -> bool {
        &&& names_unique(self.defs())
        &&& names_sorted(self.defs())
        &&& forall|i: int, j: int| 0 <= i < j < self.assignments@.len()
            ==> !chars_lt(#[trigger] self.assignments@[j]@.1, #[trigger] self.assignments@[i]@.1)
        &&& forall|i: int| 0 <= i < self.definitions@.len()
            ==> #[trigger] self.definitions@[i].default_duration_minutes > 0
        &&& forall|i: int, j: int|
            0 <= i < self.assignments@.len() && 0 <= j < self.assignments@.len() && i != j
            ==> key_of(#[trigger] self.assignments@[i]@) != key_of(#[trigger] self.assignments@[j]@)
    }

    /// A well-formed store holds unique, ascending names, positive durations
    /// and one row per key.
    pub proof fn lemma_wf(&self)
        requires
            self.wf(),
        ensures
            names_unique(self.defs()),
            names_sorted(self.defs()),
            forall|i: int| 0 <= i < self.defs().len() ==> #[trigger] self.defs()[i].2 > 0,
            keys_unique(self.rows()),
    {
        assert forall|i: int| 0 <= i < self.defs().len() implies #[trigger] self.defs()[i].2 > 0 by {
            assert(self.defs()[i] == self.definitions@[i]@);
        }
        assert forall|a: Row, b: Row|
            self.rows().contains(a) && self.rows().contains(b) && key_of(a) == key_of(b) implies a == b by {
            let i = choose|i: int| 0 <= i < self.assignments@.len() && #[trigger] self.assignments@[i]@ == a;
            let j = choose|j: int| 0 <= j < self.assignments@.len() && #[trigger] self.assignments@[j]@ == b;
            assert(key_of(self.assignments@[i]@) == key_of(self.assignments@[j]@));
        }
    }

    /// An empty store.
    pub fn new() -> (r: Self)
        ensures
            r.wf(),
            r.defs() == Seq::<DefView>::empty(),
            r.rows() == Set::<Row>::empty(),
    {
        let r = ModifierStore { definitions: Vec::new(), assignments: Vec::new() };
        assert(r.defs() =~= Seq::<DefView>::empty());
        assert(r.rows() =~= Set::<Row>::empty());
        r
    }

    /// The definition named `name`, if any.
    pub fn find_definition(&self, name: &str) -> (r: Option<Drug>)
        requires
            self.wf(),
        ensures
            match r {
                Some(d) => lookup(self.defs(), name@) == Some(d@),
                None => lookup(self.defs(), name@) is None,
            },
    {
        let n = self.definitions.len();
        let mut i: usize = 0;
        while i < n
            invariant
                self.wf(),
                n == self.definitions@.len(),
                n == self.defs().len(),
                i <= n,
                forall|k: int| 0 <= k < i ==> #[trigger] self.defs()[k].0 != name@,
            decreases n - i,
        {
            assert(self.defs()[i as int] == self.definitions@[i as int]@);
            if str_eq(self.definitions[i].name.as_str(), name) {
                let d = self.definitions[i].copy();
                proof {
                    assert(self.defs()[i as int].0 == name@);
                    let j = choose|j: int| 0 <= j < self.defs().len() && #[trigger] self.defs()[j].0 == name@;
                    assert(j == i);
                }
                return Some(d);
            }
            i = i + 1;
        }
        None
    }

    /// Adds a definition; refused (and nothing changes) when its duration is
    /// not positive or its name is already defined.
    pub fn define(&mut self, d: Drug) -> (r: bool)
        requires
            old(self).wf(),
        ensures
            final(self).wf(),
            r == (d.default_duration_minutes > 0 && lookup(old(self).defs(), d.name@) is None),
            !r ==> final(self).defs() == old(self).defs(),
            r ==> exists|p: int| 0 <= p <= old(self).defs().len() && final(self).defs() == old(self).defs().insert(p, d@),
            final(self).rows() == old(self).rows(),
    {
        if d.default_duration_minutes <= 0 {
            return false;
        }
        if self.find_definition(d.name.as_str()).is_some() {
            return false;
        }
        proof {
            assert forall|k: int| 0 <= k < self.defs().len() implies #[trigger] self.defs()[k].0 != d.name@ by {
                if self.defs()[k].0 == d.name@ {
                    assert(exists|i: int| 0 <= i < self.defs().len() && #[trigger] self.defs()[i].0 == d.name@);
                }
            }
        }
        let ghost before = self.defs();
        let ghost rows_before = self.rows();
        let n = self.definitions.len();
        let mut p: usize = 0;
        while p < n
            invariant
                n == self.definitions@.len(),
                n == before.len(),
                before == self.defs(),
                p <= n,
                forall|k: int| 0 <= k < p ==> !chars_lt(d.name@, #[trigger] before[k].0),
            ensures
                p < n ==> chars_lt(d.name@, before[p as int].0),
                forall|k: int| 0 <= k < p ==> !chars_lt(d.name@, #[trigger] before[k].0),
            decreases n - p,
        {
            assert(before[p as int] == self.definitions@[p as int]@);
            if str_lt(d.name.as_str(), self.definitions[p].name.as_str()) {
                break;
            }
            p = p + 1;
        }
        let ghost dv = d@;
        self.definitions.insert(p, d);
        proof {
            let after = self.defs();
            assert(after =~= before.insert(p as int, dv));
            assert forall|k: int| 0 <= k < p implies chars_lt(#[trigger] before[k].0, dv.0) by {
                lemma_chars_lt_total(before[k].0, dv.0);
            }
            assert forall|k: int| p <= k < n implies chars_lt(dv.0, #[trigger] before[k].0) by {
                if k > p {
                    lemma_chars_lt_transitive(dv.0, before[p as int].0, before[k].0);
                }
            }
            assert forall|i: int, j: int| 0 <= i < j < after.len()
                implies chars_lt(#[trigger] after[i].0, #[trigger] after[j].0) by {
                if j < p {
                } else if j == p {
                    assert(chars_lt(before[i].0, dv.0));
                } else if i < p {
                    assert(chars_lt(before[i].0, dv.0));
                    assert(chars_lt(dv.0, before[j - 1].0));
                    lemma_chars_lt_transitive(before[i].0, dv.0, before[j - 1].0);
                } else if i == p {
                    assert(chars_lt(dv.0, before[j - 1].0));
                } else {
                    assert(chars_lt(before[i - 1].0, before[j - 1].0));
                }
            }
            assert forall|i: int, j: int| 0 <= i < after.len() && 0 <= j < after.len() && i != j
                implies after[i].0 != after[j].0 by {
                if i < j {
                    assert(chars_lt(after[i].0, after[j].0));
                    lemma_chars_lt_irreflexive(after[i].0);
                } else {
                    assert(chars_lt(after[j].0, after[i].0));
                    lemma_chars_lt_irreflexive(after[j].0);
                }
            }
            assert forall|i: int| 0 <= i < self.definitions@.len()
                implies #[trigger] self.definitions@[i].default_duration_minutes > 0 by {
                assert(self.definitions@[i]@ == after[i]);
                if i < p {
                    assert(after[i] == before[i]);
                } else if i > p {
                    assert(after[i] == before[i - 1]);
                }
            }
        }
        assert(self.rows() =~= rows_before);
        true
    }

    /// Every definition, by name ascending.
    pub fn list_definitions(&self) -> (r: Vec<Drug>)
        requires
            self.wf(),
        ensures
            drug_views(r@) == self.defs(),
            names_sorted(drug_views(r@)),
    {
        let mut r: Vec<Drug> = Vec::new();
        let n = self.definitions.len();
        let mut i: usize = 0;
        while i < n
            invariant
                n == self.definitions@.len(),
                i <= n,
                drug_views(r@) == self.defs().subrange(0, i as int),
            decreases n - i,
        {
            let ghost before = r@;
            r.push(self.definitions[i].copy());
            assert(self.defs()[i as int] == self.definitions@[i as int]@);
            assert(drug_views(r@) =~= drug_views(before).push(self.definitions@[i as int]@));
            assert(drug_views(r@) =~= self.defs().subrange(0, i + 1));
            i = i + 1;
        }
        assert(self.defs().subrange(0, n as int) =~= self.defs());
        r
    }

    /// Inserts the assignment of `name` to `scope`, replacing any earlier one
    /// under the same key, text and expiry both.
    pub fn upsert_assignment(&mut self, scope: &str, name: &str, prompt: &str, expires_at: i64)
        requires
            old(self).wf(),
        ensures
            final(self).wf(),
            final(self).defs() == old(self).defs(),
            final(self).rows() == upserted(old(self).rows(), (scope@, name@, prompt@, expires_at as int)),
    {
        let ghost row: Row = (scope@, name@, prompt@, expires_at as int);
        let ghost old_rows = self.rows();
        let ghost old_asg = self.assignments@;
        let n = self.assignments.len();
        let mut i: usize = 0;
        while i < n
            invariant
                n == self.assignments@.len(),
                i <= n,
                row == (scope@, name@, prompt@, expires_at as int),
                forall|k: int| 0 <= k < i ==> key_of(#[trigger] self.assignments@[k]@) != key_of(row),
            ensures
                i < n ==> key_of(self.assignments@[i as int]@) == key_of(row),
                forall|k: int| 0 <= k < i ==> key_of(#[trigger] self.assignments@[k]@) != key_of(row),
            decreases n - i,
        {
            let same_scope = str_eq(self.assignments[i].scope.as_str(), scope);
            let same_name = str_eq(self.assignments[i].name.as_str(), name);
            if same_scope && same_name {
                break;
            }
            i = i + 1;
        }
        let fresh = Assignment {
            scope: String::from_str(scope),
            name: String::from_str(name),
            prompt: String::from_str(prompt),
            expires_at,
        };
        let ghost before_defs = self.defs();
        if i < n {
            assert(key_of(old_asg[i as int]@) == key_of(row));
            self.assignments.set(i, fresh);
            assert(self.defs() =~= before_defs);
            assert forall|a: int, b: int| 0 <= a < b < self.assignments@.len()
                implies !chars_lt(#[trigger] self.assignments@[b]@.1, #[trigger] self.assignments@[a]@.1) by {
                assert(self.assignments@[a]@.1 == old_asg[a]@.1);
                assert(self.assignments@[b]@.1 == old_asg[b]@.1);
            }
            assert forall|x: Row| #[trigger] self.rows().contains(x) <==> upserted(old_rows, row).contains(x) by {
                if self.rows().contains(x) {
                    let j = choose|j: int| 0 <= j < self.assignments@.len() && #[trigger] self.assignments@[j]@ == x;
                    if j != i {
                        assert(old_asg[j]@ == x);
                        assert(old_rows.contains(x));
                    }
                }
                if upserted(old_rows, row).contains(x) && x != row {
                    let j = choose|j: int| 0 <= j < old_asg.len() && #[trigger] old_asg[j]@ == x;
                    assert(j != i);
                    assert(self.assignments@[j]@ == x);
                }
                if x == row {
                    assert(self.assignments@[i as int]@ == x);
                }
            }
        } else {
            let mut p: usize = 0;
            while p < n
                invariant
                    n == self.assignments@.len(),
                    self.assignments@ == old_asg,
                    p <= n,
                    row == (scope@, name@, prompt@, expires_at as int),
                    forall|k: int| 0 <= k < p ==> !chars_lt(row.1, #[trigger] old_asg[k]@.1),
                ensures
                    p < n ==> chars_lt(row.1, old_asg[p as int]@.1),
                    forall|k: int| 0 <= k < p ==> !chars_lt(row.1, #[trigger] old_asg[k]@.1),
                decreases n - p,
            {
                if str_lt(name, self.assignments[p].name.as_str()) {
                    break;
                }
                p = p + 1;
            }
            self.assignments.insert(p, fresh);
            let ghost asg = self.assignments@;
            assert(asg =~= old_asg.insert(p as int, asg[p as int]));
            assert(asg[p as int]@ == row);
            assert forall|k: int| p <= k < n implies chars_lt(row.1, #[trigger] old_asg[k]@.1) by {
                if k > p {
                    lemma_chars_lt_total(old_asg[p as int]@.1, old_asg[k]@.1);
                    if old_asg[p as int]@.1 != old_asg[k]@.1 {
                        lemma_chars_lt_transitive(row.1, old_asg[p as int]@.1, old_asg[k]@.1);
                    }
                }
            }
            assert forall|a: int, b: int| 0 <= a < b < asg.len()
                implies !chars_lt(#[trigger] asg[b]@.1, #[trigger] asg[a]@.1) by {
                if b < p {
                } else if b == p {
                } else if a < p {
                    assert(asg[b] == old_asg[b - 1]);
                    assert(asg[a] == old_asg[a]);
                    assert(chars_lt(row.1, old_asg[b - 1]@.1));
                    assert(!chars_lt(row.1, old_asg[a]@.1));
                    lemma_chars_lt_total(row.1, old_asg[a]@.1);
                    lemma_chars_lt_total(old_asg[b - 1]@.1, old_asg[a]@.1);
                    if chars_lt(old_asg[b - 1]@.1, old_asg[a]@.1) {
                        if row.1 == old_asg[a]@.1 {
                        } else {
                            lemma_chars_lt_transitive(old_asg[a]@.1, row.1, old_asg[b - 1]@.1);
                            lemma_chars_lt_transitive(old_asg[a]@.1, old_asg[b - 1]@.1, old_asg[a]@.1);
                            lemma_chars_lt_irreflexive(old_asg[a]@.1);
                        }
                    }
                } else if a == p {
                    assert(asg[b] == old_asg[b - 1]);
                    lemma_chars_lt_total(row.1, old_asg[b - 1]@.1);
                } else {
                    assert(asg[b] == old_asg[b - 1]);
                    assert(asg[a] == old_asg[a - 1]);
                }
            }
            assert forall|a: int, b: int|
                0 <= a < asg.len() && 0 <= b < asg.len() && a != b
                implies key_of(#[trigger] asg[a]@) != key_of(#[trigger] asg[b]@) by {
                if a != p && b != p {
                    let oa = if a < p { a } else { a - 1 };
                    let ob = if b < p { b } else { b - 1 };
                    assert(asg[a] == old_asg[oa]);
                    assert(asg[b] == old_asg[ob]);
                } else if a == p {
                    let ob = if b < p { b } else { b - 1 };
                    assert(asg[b] == old_asg[ob]);
                } else {
                    let oa = if a < p { a } else { a - 1 };
                    assert(asg[a] == old_asg[oa]);
                }
            }
            assert(self.defs() =~= before_defs);
            assert forall|x: Row| #[trigger] self.rows().contains(x) <==> upserted(old_rows, row).contains(x) by {
                if self.rows().contains(x) && x != row {
                    let j = choose|j: int| 0 <= j < asg.len() && #[trigger] asg[j]@ == x;
                    let oj = if j < p { j } else { j - 1 };
                    assert(j != p);
                    assert(old_asg[oj]@ == x);
                    assert(key_of(x) != key_of(row));
                }
                if upserted(old_rows, row).contains(x) && x != row {
                    let j = choose|j: int| 0 <= j < old_asg.len() && #[trigger] old_asg[j]@ == x;
                    let nj = if j < p { j } else { j + 1 };
                    assert(asg[nj]@ == x);
                }
                if x == row {
                    assert(asg[p as int]@ == x);
                }
            }
        }
        assert(self.rows() =~= upserted(old_rows, row));
    }

    /// Removes every assignment of `scope`, whether expired or not.
    pub fn delete_all_assignments(&mut self, scope: &str)
        requires
            old(self).wf(),
        ensures
            final(self).wf(),
            final(self).defs() == old(self).defs(),
            final(self).rows() == purged(old(self).rows(), scope@),
    {
        let ghost old_rows = self.rows();
        let mut kept: Vec<Assignment> = Vec::new();
        let ghost mut idx: Seq<int> = Seq::empty();
        let n = self.assignments.len();
        let mut i: usize = 0;
        while i < n
            invariant
                self.wf(),
                old_rows == self.rows(),
                n == self.assignments@.len(),
                i <= n,
                idx.len() == kept@.len(),
                forall|k: int| 0 <= k < idx.len() ==> 0 <= #[trigger] idx[k] < i,
                forall|k: int| 0 <= k < idx.len() ==> kept@[k]@ == self.assignments@[#[trigger] idx[k]]@,
                forall|k: int| 0 <= k < idx.len() ==> self.assignments@[#[trigger] idx[k]]@.0 != scope@,
                forall|k1: int, k2: int| 0 <= k1 < k2 < idx.len() ==> idx[k1] < idx[k2],
                forall|j: int| 0 <= j < i && (#[trigger] self.assignments@[j])@.0 != scope@
                    ==> exists|k: int| 0 <= k < idx.len() && idx[k] == j,
            decreases n - i,
        {
            if !str_eq(self.assignments[i].scope.as_str(), scope) {
                kept.push(self.assignments[i].copy());
                proof {
                    let old_idx = idx;
                    idx = idx.push(i as int);
                    assert forall|j: int| 0 <= j < i + 1 && (#[trigger] self.assignments@[j])@.0 != scope@
                        implies exists|k: int| 0 <= k < idx.len() && idx[k] == j by {
                        if j < i {
                            let k = choose|k: int| 0 <= k < old_idx.len() && old_idx[k] == j;
                            assert(idx[k] == j);
                        } else {
                            assert(idx[idx.len() - 1] == j);
                        }
                    }
                }
            }
            i = i + 1;
        }
        let ghost asg = self.assignments@;
        let ghost defs = self.defs();
        self.assignments = kept;
        assert(self.defs() =~= defs);
        assert forall|k1: int, k2: int|
            0 <= k1 < self.assignments@.len() && 0 <= k2 < self.assignments@.len() && k1 != k2
            implies key_of(#[trigger] self.assignments@[k1]@) != key_of(#[trigger] self.assignments@[k2]@) by {
            if k1 < k2 {
                assert(idx[k1] < idx[k2]);
            } else {
                assert(idx[k2] < idx[k1]);
            }
        }
        assert forall|k1: int, k2: int| 0 <= k1 < k2 < self.assignments@.len()
            implies !chars_lt(#[trigger] self.assignments@[k2]@.1, #[trigger] self.assignments@[k1]@.1) by {
            assert(idx[k1] < idx[k2]);
            assert(self.assignments@[k1]@ == asg[idx[k1]]@);
            assert(self.assignments@[k2]@ == asg[idx[k2]]@);
        }
        assert forall|x: Row| #[trigger] self.rows().contains(x) <==> purged(old_rows, scope@).contains(x) by {
            if self.rows().contains(x) {
                let k = choose|k: int| 0 <= k < self.assignments@.len() && #[trigger] self.assignments@[k]@ == x;
                assert(asg[idx[k]]@ == x);
            }
            if purged(old_rows, scope@).contains(x) {
                let j = choose|j: int| 0 <= j < asg.len() && #[trigger] asg[j]@ == x;
                assert(asg[j]@.0 != scope@);
                let k = choose|k: int| 0 <= k < idx.len() && idx[k] == j;
                assert(self.assignments@[k]@ == x);
            }
        }
        assert(self.rows() =~= purged(old_rows, scope@));
    }

    /// The assignments of `scope` whose expiry lies after `now`, one per name.
    pub fn list_unexpired_assignments(&self, scope: &str, now: i64) -> (r: Vec<ActiveDrug>)
        requires
            self.wf(),
        ensures
            is_listing(self.rows(), scope@, now as int, r@),
    {
        let mut r: Vec<ActiveDrug> = Vec::new();
        let ghost mut idx: Seq<int> = Seq::empty();
        let n = self.assignments.len();
        let mut i: usize = 0;
        while i < n
            invariant
                self.wf(),
                n == self.assignments@.len(),
                i <= n,
                idx.len() == r@.len(),
                forall|k: int| 0 <= k < idx.len() ==> 0 <= #[trigger] idx[k] < i,
                forall|k: int| 0 <= k < idx.len() ==> {
                    let a = self.assignments@[#[trigger] idx[k]]@;
                    &&& a.0 == scope@
                    &&& a.3 > now
                    &&& r@[k]@ == (a.1, a.2, a.3)
                },
                forall|k1: int, k2: int| 0 <= k1 < k2 < idx.len() ==> idx[k1] < idx[k2],
                forall|j: int| 0 <= j < i && (#[trigger] self.assignments@[j])@.0 == scope@
                    && self.assignments@[j]@.3 > now
                    ==> exists|k: int| 0 <= k < idx.len() && idx[k] == j,
            decreases n - i,
        {
            if str_eq(self.assignments[i].scope.as_str(), scope) && self.assignments[i].expires_at > now {
                let a = &self.assignments[i];
                r.push(ActiveDrug { name: a.name.clone(), prompt: a.prompt.clone(), expires_at: a.expires_at });
                proof {
                    let old_idx = idx;
                    idx = idx.push(i as int);
                    assert forall|j: int| 0 <= j < i + 1 && (#[trigger] self.assignments@[j])@.0 == scope@
                        && self.assignments@[j]@.3 > now
                        implies exists|k: int| 0 <= k < idx.len() && idx[k] == j by {
                        if j < i {
                            let k = choose|k: int| 0 <= k < old_idx.len() && old_idx[k] == j;
                            assert(idx[k] == j);
                        } else {
                            assert(idx[idx.len() - 1] == j);
                        }
                    }
                }
            }
            i = i + 1;
        }
        assert forall|k: int| 0 <= k < r@.len()
            implies live(self.rows(), scope@, now as int).contains((scope@, #[trigger] r@[k]@.0, r@[k]@.1, r@[k]@.2)) by {
            assert(self.assignments@[idx[k]]@ == (scope@, r@[k]@.0, r@[k]@.1, r@[k]@.2));
        }
        assert forall|x: Row| #[trigger] live(self.rows(), scope@, now as int).contains(x)
            implies exists|k: int| 0 <= k < r@.len() && #[trigger] r@[k]@ == (x.1, x.2, x.3) by {
            let j = choose|j: int| 0 <= j < self.assignments@.len() && #[trigger] self.assignments@[j]@ == x;
            let k = choose|k: int| 0 <= k < idx.len() && idx[k] == j;
            assert(r@[k]@ == (x.1, x.2, x.3));
        }
        assert forall|k1: int, k2: int| 0 <= k1 < k2 < r@.len()
            implies chars_lt(#[trigger] r@[k1].name@, #[trigger] r@[k2].name@) by {
            assert(idx[k1] < idx[k2]);
            let a = self.assignments@[idx[k1]]@;
            let b = self.assignments@[idx[k2]]@;
            assert(r@[k1].name@ == a.1);
            assert(r@[k2].name@ == b.1);
            assert(key_of(a) != key_of(b));
            assert(!chars_lt(b.1, a.1));
            lemma_chars_lt_total(a.1, b.1);
        }
        r
    }
}

} // verus!
