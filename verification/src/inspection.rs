//! What changed in the inspector between two pauses: the variables, arrays,
//! error state, timers and DATA pointer whose shown values differ. The
//! natural countdown of a timer is not a change.
use vstd::prelude::*;
use crate::debugger::{DebugArrayKind, DebugArraySummary, DebugTimerSnapshot};
use crate::panel::{ChangeView, DebugDataSnapshot, DebugPanelChanges, DebugSnapshot, DebugVariable, format_debug_value, value_text};
use crate::text::{str_chars, string_from_chars, upper_seq};

verus! {

// ---------------------------------------------------------------------------
// Association lists
// ---------------------------------------------------------------------------

/// The map of a list of entries, later entries replacing earlier ones.
pub open spec fn assoc_map<K, V>(e: Seq<(K, V)>) -> Map<K, V>
    decreases e.len(),
{
    if e.len() == 0 {
        Map::empty()
    } else {
        assoc_map(e.drop_last()).insert(e.last().0, e.last().1)
    }
}

/// The keys of `cur` whose value is new or different from `prev`.
pub open spec fn changed_keys<K, V>(prev: Map<K, V>, cur: Map<K, V>) -> Set<K> {
    Set::new(|k: K| cur.dom().contains(k) && !(prev.dom().contains(k) && prev[k] == cur[k]))
}

proof fn lemma_assoc_last<K, V>(e: Seq<(K, V)>, k: K, j: int)
    requires
        0 <= j < e.len(),
        e[j].0 == k,
        forall|q: int| j < q < e.len() ==> #[trigger] e[q].0 != k,
    ensures
        assoc_map(e).dom().contains(k),
        assoc_map(e)[k] == e[j].1,
    decreases e.len(),
{
    if j < e.len() - 1 {
        assert(e.last().0 != k);
        assert forall|q: int| j < q < e.drop_last().len() implies #[trigger] e.drop_last()[q].0 != k by {
            assert(e.drop_last()[q] == e[q]);
        }
        lemma_assoc_last(e.drop_last(), k, j);
    }
}

proof fn lemma_assoc_absent<K, V>(e: Seq<(K, V)>, k: K)
    requires
        forall|q: int| 0 <= q < e.len() ==> #[trigger] e[q].0 != k,
    ensures
        !assoc_map(e).dom().contains(k),
    decreases e.len(),
{
    if e.len() > 0 {
        assert forall|q: int| 0 <= q < e.drop_last().len() implies #[trigger] e.drop_last()[q].0 != k by {
            assert(e.drop_last()[q] == e[q]);
        }
        lemma_assoc_absent(e.drop_last(), k);
        assert(e.last().0 != k);
    }
}

proof fn lemma_assoc_dom<K, V>(e: Seq<(K, V)>, k: K)
    ensures
        assoc_map(e).dom().contains(k) <==> exists|q: int| 0 <= q < e.len() && #[trigger] e[q].0 == k,
    decreases e.len(),
{
    if e.len() > 0 {
        lemma_assoc_dom(e.drop_last(), k);
        if exists|q: int| 0 <= q < e.drop_last().len() && #[trigger] e.drop_last()[q].0 == k {
            let q = choose|q: int| 0 <= q < e.drop_last().len() && #[trigger] e.drop_last()[q].0 == k;
            assert(e[q].0 == k);
        }
        if exists|q: int| 0 <= q < e.len() && #[trigger] e[q].0 == k {
            let q = choose|q: int| 0 <= q < e.len() && #[trigger] e[q].0 == k;
            if q < e.len() - 1 {
                assert(e.drop_last()[q].0 == k);
            }
        }
    }
}

// ---------------------------------------------------------------------------
// What the inspector compares
// ---------------------------------------------------------------------------

/// An array as compared between pauses.
#[verifier::ext_equal]
pub struct ArrayView {
    pub name: Seq<char>,
    pub alias_of: Option<Seq<char>>,
    pub kind: DebugArrayKind,
    pub dimensions: Seq<usize>,
    pub elements: usize,
}

pub open spec fn array_view(a: DebugArraySummary) -> ArrayView {
    ArrayView {
        name: a.name@,
        alias_of: match a.alias_of {
            Some(t) => Some(t@),
            None => None,
        },
        kind: a.kind,
        dimensions: a.dimensions@,
        elements: a.elements,
    }
}

/// A timer as compared between pauses: everything but the time left.
pub open spec fn timer_view(t: DebugTimerSnapshot) -> (i32, bool, bool, u64) {
    (t.target, t.repeat, t.active, t.interval_ms)
}

/// The DATA pointer as compared between pauses, with the value as shown.
pub enum DataView {
    Empty,
    Next(usize, i32, usize, Seq<char>),
    Exhausted(usize, usize),
}

pub open spec fn data_view(d: DebugDataSnapshot) -> DataView {
    match d {
        DebugDataSnapshot::Empty => DataView::Empty,
        DebugDataSnapshot::Next { position, line, line_item, value } => DataView::Next(position, line, line_item, value_text(value)),
        DebugDataSnapshot::Exhausted { position, total } => DataView::Exhausted(position, total),
    }
}

/// What the inspector remembers of a pause.
pub struct InspectionView {
    pub variables: Map<Seq<char>, Seq<char>>,
    pub arrays: Map<Seq<char>, ArrayView>,
    pub err: i32,
    pub erl: i32,
    pub timers: Map<i32, (i32, bool, bool, u64)>,
    pub data: DataView,
}

pub open spec fn variable_entries(v: Seq<DebugVariable>) -> Seq<(Seq<char>, Seq<char>)> {
    v.map_values(|x: DebugVariable| (upper_seq(x.name@), value_text(x.value)))
}

pub open spec fn inspection_of(s: DebugSnapshot) -> InspectionView {
    InspectionView {
        variables: assoc_map(variable_entries(s.variables@) + variable_entries(s.array_elements@)),
        arrays: assoc_map(s.arrays@.map_values(|a: DebugArraySummary| (upper_seq(a.name@), array_view(a)))),
        err: s.err,
        erl: s.erl,
        timers: assoc_map(s.timers@.map_values(|t: DebugTimerSnapshot| (t.number, timer_view(t)))),
        data: data_view(s.data),
    }
}

/// The changes from the pause `prev` to the pause `cur`.
pub open spec fn changes_between(prev: InspectionView, cur: InspectionView) -> (Set<Seq<char>>, Set<Seq<char>>, bool, Set<i32>, bool) {
    (
        changed_keys(prev.variables, cur.variables),
        changed_keys(prev.arrays, cur.arrays),
        (cur.err, cur.erl) != (prev.err, prev.erl),
        changed_keys(prev.timers, cur.timers),
        cur.data != prev.data,
    )
}

/// The changes as the panel receives them: each changed name or number
/// once.
pub open spec fn reports(c: ChangeView, expected: (Set<Seq<char>>, Set<Seq<char>>, bool, Set<i32>, bool)) -> bool {
    &&& c.variables.to_set() == expected.0
    &&& c.variables.no_duplicates()
    &&& c.arrays.to_set() == expected.1
    &&& c.arrays.no_duplicates()
    &&& c.state == expected.2
    &&& c.timers.to_set() == expected.3
    &&& c.timers.no_duplicates()
    &&& c.data == expected.4
}

// ---------------------------------------------------------------------------
// The remembered pause
// ---------------------------------------------------------------------------

/// The DATA pointer as remembered, with the value as shown.
#[derive(Debug, Clone, PartialEq, Eq)]
pub enum DebugDataInspection {
    Empty,
    Next { position: usize, line: i32, line_item: usize, value: String },
    Exhausted { position: usize, total: usize },
}

/// What the inspector remembers of a pause: variables and arrays by
/// upper-case name, in the order listed, timers by number.
#[derive(Debug)]
pub struct DebugInspectionState {
    pub variables: Vec<(String, String)>,
    pub arrays: Vec<(String, DebugArraySummary)>,
    pub err: i32,
    pub erl: i32,
    pub timers: Vec<DebugTimerSnapshot>,
    pub data: DebugDataInspection,
}

pub open spec fn pairs_view(v: Seq<(String, String)>) -> Seq<(Seq<char>, Seq<char>)> {
    v.map_values(|p: (String, String)| (p.0@, p.1@))
}

pub open spec fn arrays_view(v: Seq<(String, DebugArraySummary)>) -> Seq<(Seq<char>, ArrayView)> {
    v.map_values(|p: (String, DebugArraySummary)| (p.0@, array_view(p.1)))
}

pub open spec fn timers_view(v: Seq<DebugTimerSnapshot>) -> Seq<(i32, (i32, bool, bool, u64))> {
    v.map_values(|t: DebugTimerSnapshot| (t.number, timer_view(t)))
}

pub open spec fn data_inspection_view(d: DebugDataInspection) -> DataView {
    match d {
        DebugDataInspection::Empty => DataView::Empty,
        DebugDataInspection::Next { position, line, line_item, value } => DataView::Next(position, line, line_item, value@),
        DebugDataInspection::Exhausted { position, total } => DataView::Exhausted(position, total),
    }
}

impl View for DebugInspectionState {
    type V = InspectionView;

    open spec fn view(&self) -> InspectionView {
        InspectionView {
            variables: assoc_map(pairs_view(self.variables@)),
            arrays: assoc_map(arrays_view(self.arrays@)),
            err: self.err,
            erl: self.erl,
            timers: assoc_map(timers_view(self.timers@)),
            data: data_inspection_view(self.data),
        }
    }
}

fn copy_string(s: &String) -> (r: String)
    ensures
        r@ == s@,
{
    string_from_chars(&str_chars(s.as_str()))
}

fn upper_string(s: &String) -> (r: String)
    ensures
        r@ == upper_seq(s@),
{
    string_from_chars(&crate::text::chars_upper(&str_chars(s.as_str())))
}

fn copy_array(a: &DebugArraySummary) -> (r: DebugArraySummary)
    ensures
        array_view(r) == array_view(*a),
{
    let mut dims: Vec<usize> = Vec::new();
    let mut k: usize = 0;
    while k < a.dimensions.len()
        invariant
            k <= a.dimensions@.len(),
            dims@ == a.dimensions@.subrange(0, k as int),
        decreases a.dimensions@.len() - k,
    {
        dims.push(a.dimensions[k]);
        assert(dims@ =~= a.dimensions@.subrange(0, k + 1));
        k += 1;
    }
    assert(dims@ =~= a.dimensions@);
    let alias_of = match &a.alias_of {
        Some(t) => Some(copy_string(t)),
        None => None,
    };
    DebugArraySummary { name: copy_string(&a.name), alias_of, kind: a.kind, dimensions: dims, elements: a.elements }
}

fn push_variables(out: &mut Vec<(String, String)>, vars: &Vec<DebugVariable>)
    ensures
        pairs_view(final(out)@) == pairs_view(old(out)@) + variable_entries(vars@),
{
    let ghost start = pairs_view(out@);
    let mut k: usize = 0;
    while k < vars.len()
        invariant
            k <= vars@.len(),
            pairs_view(out@) == start + variable_entries(vars@).subrange(0, k as int),
        decreases vars@.len() - k,
    {
        let name = upper_string(&vars[k].name);
        let value = format_debug_value(&vars[k].value);
        let ghost before = out@;
        out.push((name, value));
        assert(pairs_view(out@) =~= pairs_view(before).push((upper_seq(vars@[k as int].name@), value_text(vars@[k as int].value))));
        assert(variable_entries(vars@).subrange(0, k + 1) =~= variable_entries(vars@).subrange(0, k as int).push(
            (upper_seq(vars@[k as int].name@), value_text(vars@[k as int].value)),
        ));
        k += 1;
    }
    assert(variable_entries(vars@).subrange(0, vars@.len() as int) =~= variable_entries(vars@));
}

impl DebugInspectionState {
    /// What the inspector remembers of `snapshot`.
    pub fn from_snapshot(snapshot: &DebugSnapshot) -> (r: DebugInspectionState)
        ensures
            r@ == inspection_of(*snapshot),
    {
        let mut variables: Vec<(String, String)> = Vec::new();
        push_variables(&mut variables, &snapshot.variables);
        push_variables(&mut variables, &snapshot.array_elements);
        assert(pairs_view(variables@) =~= variable_entries(snapshot.variables@) + variable_entries(snapshot.array_elements@));
        let mut arrays: Vec<(String, DebugArraySummary)> = Vec::new();
        let mut k: usize = 0;
        let ghost want = snapshot.arrays@.map_values(|a: DebugArraySummary| (upper_seq(a.name@), array_view(a)));
        while k < snapshot.arrays.len()
            invariant
                k <= snapshot.arrays@.len(),
                want == snapshot.arrays@.map_values(|a: DebugArraySummary| (upper_seq(a.name@), array_view(a))),
                arrays_view(arrays@) == want.subrange(0, k as int),
            decreases snapshot.arrays@.len() - k,
        {
            let name = upper_string(&snapshot.arrays[k].name);
            let copy = copy_array(&snapshot.arrays[k]);
            let ghost before = arrays@;
            arrays.push((name, copy));
            assert(arrays_view(arrays@) =~= arrays_view(before).push(want[k as int]));
            assert(want.subrange(0, k + 1) =~= want.subrange(0, k as int).push(want[k as int]));
            k += 1;
        }
        assert(want.subrange(0, snapshot.arrays@.len() as int) =~= want);
        let mut timers: Vec<DebugTimerSnapshot> = Vec::new();
        let mut t: usize = 0;
        while t < snapshot.timers.len()
            invariant
                t <= snapshot.timers@.len(),
                timers@ == snapshot.timers@.subrange(0, t as int),
            decreases snapshot.timers@.len() - t,
        {
            timers.push(snapshot.timers[t]);
            assert(timers@ =~= snapshot.timers@.subrange(0, t + 1));
            t += 1;
        }
        assert(timers@ =~= snapshot.timers@);
        let data = match &snapshot.data {
            DebugDataSnapshot::Empty => DebugDataInspection::Empty,
            DebugDataSnapshot::Next { position, line, line_item, value } => DebugDataInspection::Next {
                position: *position,
                line: *line,
                line_item: *line_item,
                value: format_debug_value(value),
            },
            DebugDataSnapshot::Exhausted { position, total } => DebugDataInspection::Exhausted { position: *position, total: *total },
        };
        let r = DebugInspectionState { variables, arrays, err: snapshot.err, erl: snapshot.erl, timers, data };
        assert(r@.variables == inspection_of(*snapshot).variables);
        assert(r@.arrays == inspection_of(*snapshot).arrays);
        assert(r@.timers == inspection_of(*snapshot).timers);
        r
    }
}

// ---------------------------------------------------------------------------
// Finding what changed
// ---------------------------------------------------------------------------

pub open spec fn names_view(v: Seq<String>) -> Seq<Seq<char>> {
    v.map_values(|s: String| s@)
}

fn names_hold(names: &Vec<String>, key: &Vec<char>) -> (r: bool)
    ensures
        r == names_view(names@).contains(key@),
{
    let ghost nv = names_view(names@);
    let mut k: usize = 0;
    while k < names.len()
        invariant
            k <= names@.len(),
            nv == names_view(names@),
            forall|q: int| 0 <= q < k ==> #[trigger] nv[q] != key@,
        decreases names@.len() - k,
    {
        if crate::text::chars_eq(&str_chars(names[k].as_str()), key) {
            assert(nv[k as int] == key@);
            return true;
        }
        k += 1;
    }
    false
}

/// The last entry of `e` whose key reads `key`.
fn last_pair(e: &Vec<(String, String)>, key: &Vec<char>) -> (r: Option<usize>)
    ensures
        match r {
            Some(j) => j < e@.len() && pairs_view(e@)[j as int].0 == key@ && forall|q: int| j < q < e@.len() ==> #[trigger] pairs_view(e@)[q].0 != key@,
            None => forall|q: int| 0 <= q < e@.len() ==> #[trigger] pairs_view(e@)[q].0 != key@,
        },
{
    let mut k: usize = e.len();
    while k > 0
        invariant
            k <= e@.len(),
            forall|q: int| k <= q < e@.len() ==> #[trigger] pairs_view(e@)[q].0 != key@,
        decreases k,
    {
        k -= 1;
        if crate::text::chars_eq(&str_chars(e[k].0.as_str()), key) {
            return Some(k);
        }
    }
    None
}

/// The names of the variables whose shown value is new or different.
fn changed_variable_names(prev: &Vec<(String, String)>, cur: &Vec<(String, String)>) -> (r: Vec<String>)
    ensures
        names_view(r@).to_set() == changed_keys(assoc_map(pairs_view(prev@)), assoc_map(pairs_view(cur@))),
        names_view(r@).no_duplicates(),
{
    let ghost pm = assoc_map(pairs_view(prev@));
    let ghost cm = assoc_map(pairs_view(cur@));
    let ghost ch = changed_keys(pm, cm);
    let ghost kv = pairs_view(cur@);
    let mut out: Vec<String> = Vec::new();
    let mut j: usize = 0;
    while j < cur.len()
        invariant
            j <= cur@.len(),
            pm == assoc_map(pairs_view(prev@)),
            cm == assoc_map(pairs_view(cur@)),
            ch == changed_keys(pm, cm),
            kv == pairs_view(cur@),
            forall|x: Seq<char>| #[trigger] names_view(out@).contains(x) <==> ((exists|q: int| 0 <= q < j && #[trigger] kv[q].0 == x) && ch.contains(x)),
            names_view(out@).no_duplicates(),
        decreases cur@.len() - j,
    {
        let key = str_chars(cur[j].0.as_str());
        assert(kv[j as int].0 == key@);
        let ci = match last_pair(cur, &key) {
            Some(i) => i,
            None => {
                assert(false);
                0
            },
        };
        proof {
            lemma_assoc_last(kv, key@, ci as int);
        }
        let cur_value = str_chars(cur[ci].1.as_str());
        let changed = match last_pair(prev, &key) {
            None => {
                proof {
                    lemma_assoc_absent(pairs_view(prev@), key@);
                }
                true
            },
            Some(pi) => {
                proof {
                    lemma_assoc_last(pairs_view(prev@), key@, pi as int);
                }
                !crate::text::chars_eq(&str_chars(prev[pi].1.as_str()), &cur_value)
            },
        };
        assert(changed == ch.contains(key@));
        let ghost ov = names_view(out@);
        if changed && !names_hold(&out, &key) {
            out.push(string_from_chars(&key));
            proof {
                let nv = names_view(out@);
                assert(nv =~= ov.push(key@));
                assert forall|x: Seq<char>| #[trigger] nv.contains(x) <==> ((exists|q: int| 0 <= q < j + 1 && #[trigger] kv[q].0 == x) && ch.contains(x)) by {
                    if nv.contains(x) && x != key@ {
                        let i = choose|i: int| 0 <= i < nv.len() && nv[i] == x;
                        assert(ov[i] == x);
                        assert(ov.contains(x));
                        assert((exists|q: int| 0 <= q < j && #[trigger] kv[q].0 == x) && ch.contains(x));
                        let q = choose|q: int| 0 <= q < j && #[trigger] kv[q].0 == x;
                        assert(0 <= q < j + 1 && kv[q].0 == x);
                    }
                    if x != key@ && (exists|q: int| 0 <= q < j + 1 && #[trigger] kv[q].0 == x) && ch.contains(x) {
                        let q = choose|q: int| 0 <= q < j + 1 && #[trigger] kv[q].0 == x;
                        assert(q < j);
                        assert(ov.contains(x));
                        let i = choose|i: int| 0 <= i < ov.len() && ov[i] == x;
                        assert(nv[i] == x);
                    }
                    if x == key@ {
                        assert(nv[nv.len() - 1] == x);
                        assert(kv[j as int].0 == x);
                        assert(ch.contains(x));
                    }
                }
                assert forall|a: int, b: int| 0 <= a < b < nv.len() implies nv[a] != nv[b] by {
                    if b == nv.len() - 1 {
                        assert(nv[a] == ov[a]);
                    }
                }
            }
        } else {
            proof {
                assert forall|x: Seq<char>| #[trigger] ov.contains(x) <==> ((exists|q: int| 0 <= q < j + 1 && #[trigger] kv[q].0 == x) && ch.contains(x)) by {
                    if x != key@ && (exists|q: int| 0 <= q < j + 1 && #[trigger] kv[q].0 == x) && ch.contains(x) {
                        let q = choose|q: int| 0 <= q < j + 1 && #[trigger] kv[q].0 == x;
                        assert(q < j);
                    }
                }
            }
        }
        j += 1;
    }
    proof {
        let ov = names_view(out@);
        assert forall|x: Seq<char>| #[trigger] ov.to_set().contains(x) <==> ch.contains(x) by {
            lemma_assoc_dom(kv, x);
            if ch.contains(x) {
                assert(cm.dom().contains(x));
            }
        }
        assert(ov.to_set() =~= ch);
    }
    out
}

fn options_equal(a: &Option<String>, b: &Option<String>) -> (r: bool)
    ensures
        r == ((match a {
            Some(t) => Some(t@),
            None => None,
        }) == (match b {
            Some(t) => Some(t@),
            None => None,
        })),
{
    match (a, b) {
        (Some(x), Some(y)) => crate::text::chars_eq(&str_chars(x.as_str()), &str_chars(y.as_str())),
        (None, None) => true,
        _ => false,
    }
}

fn arrays_equal(a: &DebugArraySummary, b: &DebugArraySummary) -> (r: bool)
    ensures
        r == (array_view(*a) == array_view(*b)),
{
    if !crate::text::chars_eq(&str_chars(a.name.as_str()), &str_chars(b.name.as_str())) {
        return false;
    }
    if !options_equal(&a.alias_of, &b.alias_of) {
        return false;
    }
    if a.kind != b.kind || a.elements != b.elements || a.dimensions.len() != b.dimensions.len() {
        return false;
    }
    let mut k: usize = 0;
    while k < a.dimensions.len()
        invariant
            k <= a.dimensions@.len(),
            a.dimensions@.len() == b.dimensions@.len(),
            forall|q: int| 0 <= q < k ==> a.dimensions@[q] == b.dimensions@[q],
        decreases a.dimensions@.len() - k,
    {
        if a.dimensions[k] != b.dimensions[k] {
            return false;
        }
        k += 1;
    }
    assert(a.dimensions@ =~= b.dimensions@);
    assert(array_view(*a) =~= array_view(*b));
    true
}

/// The last array of `e` whose key reads `key`.
fn last_array(e: &Vec<(String, DebugArraySummary)>, key: &Vec<char>) -> (r: Option<usize>)
    ensures
        match r {
            Some(j) => j < e@.len() && arrays_view(e@)[j as int].0 == key@ && forall|q: int| j < q < e@.len() ==> #[trigger] arrays_view(e@)[q].0 != key@,
            None => forall|q: int| 0 <= q < e@.len() ==> #[trigger] arrays_view(e@)[q].0 != key@,
        },
{
    let mut k: usize = e.len();
    while k > 0
        invariant
            k <= e@.len(),
            forall|q: int| k <= q < e@.len() ==> #[trigger] arrays_view(e@)[q].0 != key@,
        decreases k,
    {
        k -= 1;
        if crate::text::chars_eq(&str_chars(e[k].0.as_str()), key) {
            return Some(k);
        }
    }
    None
}

/// The names of the arrays whose summary is new or different.
fn changed_array_names(prev: &Vec<(String, DebugArraySummary)>, cur: &Vec<(String, DebugArraySummary)>) -> (r: Vec<String>)
    ensures
        names_view(r@).to_set() == changed_keys(assoc_map(arrays_view(prev@)), assoc_map(arrays_view(cur@))),
        names_view(r@).no_duplicates(),
{
    let ghost pm = assoc_map(arrays_view(prev@));
    let ghost cm = assoc_map(arrays_view(cur@));
    let ghost ch = changed_keys(pm, cm);
    let ghost kv = arrays_view(cur@);
    let mut out: Vec<String> = Vec::new();
    let mut j: usize = 0;
    while j < cur.len()
        invariant
            j <= cur@.len(),
            pm == assoc_map(arrays_view(prev@)),
            cm == assoc_map(arrays_view(cur@)),
            ch == changed_keys(pm, cm),
            kv == arrays_view(cur@),
            forall|x: Seq<char>| #[trigger] names_view(out@).contains(x) <==> ((exists|q: int| 0 <= q < j && #[trigger] kv[q].0 == x) && ch.contains(x)),
            names_view(out@).no_duplicates(),
        decreases cur@.len() - j,
    {
        let key = str_chars(cur[j].0.as_str());
        assert(kv[j as int].0 == key@);
        let ci = match last_array(cur, &key) {
            Some(i) => i,
            None => {
                assert(false);
                0
            },
        };
        proof {
            lemma_assoc_last(kv, key@, ci as int);
        }
        let cur_value = &cur[ci].1;
        let changed = match last_array(prev, &key) {
            None => {
                proof {
                    lemma_assoc_absent(arrays_view(prev@), key@);
                }
                true
            },
            Some(pi) => {
                proof {
                    lemma_assoc_last(arrays_view(prev@), key@, pi as int);
                }
                !arrays_equal(&prev[pi].1, cur_value)
            },
        };
        assert(changed == ch.contains(key@));
        let ghost ov = names_view(out@);
        if changed && !names_hold(&out, &key) {
            out.push(string_from_chars(&key));
            proof {
                let nv = names_view(out@);
                assert(nv =~= ov.push(key@));
                assert forall|x: Seq<char>| #[trigger] nv.contains(x) <==> ((exists|q: int| 0 <= q < j + 1 && #[trigger] kv[q].0 == x) && ch.contains(x)) by {
                    if nv.contains(x) && x != key@ {
                        let i = choose|i: int| 0 <= i < nv.len() && nv[i] == x;
                        assert(ov[i] == x);
                        assert(ov.contains(x));
                        assert((exists|q: int| 0 <= q < j && #[trigger] kv[q].0 == x) && ch.contains(x));
                        let q = choose|q: int| 0 <= q < j && #[trigger] kv[q].0 == x;
                        assert(0 <= q < j + 1 && kv[q].0 == x);
                    }
                    if x != key@ && (exists|q: int| 0 <= q < j + 1 && #[trigger] kv[q].0 == x) && ch.contains(x) {
                        let q = choose|q: int| 0 <= q < j + 1 && #[trigger] kv[q].0 == x;
                        assert(q < j);
                        assert(ov.contains(x));
                        let i = choose|i: int| 0 <= i < ov.len() && ov[i] == x;
                        assert(nv[i] == x);
                    }
                    if x == key@ {
                        assert(nv[nv.len() - 1] == x);
                        assert(kv[j as int].0 == x);
                        assert(ch.contains(x));
                    }
                }
                assert forall|a: int, b: int| 0 <= a < b < nv.len() implies nv[a] != nv[b] by {
                    if b == nv.len() - 1 {
                        assert(nv[a] == ov[a]);
                    }
                }
            }
        } else {
            proof {
                assert forall|x: Seq<char>| #[trigger] ov.contains(x) <==> ((exists|q: int| 0 <= q < j + 1 && #[trigger] kv[q].0 == x) && ch.contains(x)) by {
                    if x != key@ && (exists|q: int| 0 <= q < j + 1 && #[trigger] kv[q].0 == x) && ch.contains(x) {
                        let q = choose|q: int| 0 <= q < j + 1 && #[trigger] kv[q].0 == x;
                        assert(q < j);
                    }
                }
            }
        }
        j += 1;
    }
    proof {
        let ov = names_view(out@);
        assert forall|x: Seq<char>| #[trigger] ov.to_set().contains(x) <==> ch.contains(x) by {
            lemma_assoc_dom(kv, x);
            if ch.contains(x) {
                assert(cm.dom().contains(x));
            }
        }
        assert(ov.to_set() =~= ch);
    }
    out
}

fn last_timer(e: &Vec<DebugTimerSnapshot>, key: i32) -> (r: Option<usize>)
    ensures
        match r {
            Some(j) => j < e@.len() && timers_view(e@)[j as int].0 == key && forall|q: int| j < q < e@.len() ==> #[trigger] timers_view(e@)[q].0 != key,
            None => forall|q: int| 0 <= q < e@.len() ==> #[trigger] timers_view(e@)[q].0 != key,
        },
{
    let mut k: usize = e.len();
    while k > 0
        invariant
            k <= e@.len(),
            forall|q: int| k <= q < e@.len() ==> #[trigger] timers_view(e@)[q].0 != key,
        decreases k,
    {
        k -= 1;
        if e[k].number == key {
            return Some(k);
        }
    }
    None
}

fn numbers_hold(numbers: &Vec<i32>, n: i32) -> (r: bool)
    ensures
        r == numbers@.contains(n),
{
    let mut k: usize = 0;
    while k < numbers.len()
        invariant
            k <= numbers@.len(),
            forall|q: int| 0 <= q < k ==> numbers@[q] != n,
        decreases numbers@.len() - k,
    {
        if numbers[k] == n {
            assert(numbers@[k as int] == n);
            return true;
        }
        k += 1;
    }
    false
}

/// The numbers of the timers whose settings are new or different; the time
/// left is not compared.
fn changed_timer_numbers(prev: &Vec<DebugTimerSnapshot>, cur: &Vec<DebugTimerSnapshot>) -> (r: Vec<i32>)
    ensures
        r@.to_set() == changed_keys(assoc_map(timers_view(prev@)), assoc_map(timers_view(cur@))),
        r@.no_duplicates(),
{
    let ghost pm = assoc_map(timers_view(prev@));
    let ghost cm = assoc_map(timers_view(cur@));
    let ghost ch = changed_keys(pm, cm);
    let ghost kv = timers_view(cur@);
    let mut out: Vec<i32> = Vec::new();
    let mut j: usize = 0;
    while j < cur.len()
        invariant
            j <= cur@.len(),
            pm == assoc_map(timers_view(prev@)),
            cm == assoc_map(timers_view(cur@)),
            ch == changed_keys(pm, cm),
            kv == timers_view(cur@),
            forall|x: i32| #[trigger] out@.contains(x) <==> ((exists|q: int| 0 <= q < j && #[trigger] kv[q].0 == x) && ch.contains(x)),
            out@.no_duplicates(),
        decreases cur@.len() - j,
    {
        let key = cur[j].number;
        assert(kv[j as int].0 == key);
        let ci = match last_timer(cur, key) {
            Some(i) => i,
            None => {
                assert(false);
                0
            },
        };
        proof {
            lemma_assoc_last(kv, key, ci as int);
        }
        let now = cur[ci];
        let changed = match last_timer(prev, key) {
            None => {
                proof {
                    lemma_assoc_absent(timers_view(prev@), key);
                }
                true
            },
            Some(pi) => {
                proof {
                    lemma_assoc_last(timers_view(prev@), key, pi as int);
                }
                let before = prev[pi];
                !(before.target == now.target && before.repeat == now.repeat && before.active == now.active && before.interval_ms
                    == now.interval_ms)
            },
        };
        assert(changed == ch.contains(key));
        let ghost ov = out@;
        if changed && !numbers_hold(&out, key) {
            out.push(key);
            proof {
                let nv = out@;
                assert(nv =~= ov.push(key));
                assert forall|x: i32| #[trigger] nv.contains(x) <==> ((exists|q: int| 0 <= q < j + 1 && #[trigger] kv[q].0 == x) && ch.contains(x)) by {
                    if nv.contains(x) && x != key {
                        let i = choose|i: int| 0 <= i < nv.len() && nv[i] == x;
                        assert(ov[i] == x);
                        assert(ov.contains(x));
                        let q = choose|q: int| 0 <= q < j && #[trigger] kv[q].0 == x;
                        assert(0 <= q < j + 1 && kv[q].0 == x);
                    }
                    if x != key && (exists|q: int| 0 <= q < j + 1 && #[trigger] kv[q].0 == x) && ch.contains(x) {
                        let q = choose|q: int| 0 <= q < j + 1 && #[trigger] kv[q].0 == x;
                        assert(q < j);
                        assert(ov.contains(x));
                        let i = choose|i: int| 0 <= i < ov.len() && ov[i] == x;
                        assert(nv[i] == x);
                    }
                    if x == key {
                        assert(nv[nv.len() - 1] == x);
                        assert(kv[j as int].0 == x);
                    }
                }
                assert forall|a: int, b: int| 0 <= a < b < nv.len() implies nv[a] != nv[b] by {
                    if b == nv.len() - 1 {
                        assert(nv[a] == ov[a]);
                    }
                }
            }
        } else {
            proof {
                assert forall|x: i32| #[trigger] ov.contains(x) <==> ((exists|q: int| 0 <= q < j + 1 && #[trigger] kv[q].0 == x) && ch.contains(x)) by {
                    if x != key && (exists|q: int| 0 <= q < j + 1 && #[trigger] kv[q].0 == x) && ch.contains(x) {
                        let q = choose|q: int| 0 <= q < j + 1 && #[trigger] kv[q].0 == x;
                        assert(q < j);
                    }
                }
            }
        }
        j += 1;
    }
    proof {
        let ov = out@;
        assert forall|x: i32| #[trigger] ov.to_set().contains(x) <==> ch.contains(x) by {
            lemma_assoc_dom(kv, x);
            if ch.contains(x) {
                assert(cm.dom().contains(x));
            }
        }
        assert(ov.to_set() =~= ch);
    }
    out
}

fn data_equal(a: &DebugDataInspection, b: &DebugDataInspection) -> (r: bool)
    ensures
        r == (data_inspection_view(*a) == data_inspection_view(*b)),
{
    match (a, b) {
        (DebugDataInspection::Empty, DebugDataInspection::Empty) => true,
        (
            DebugDataInspection::Next { position: p1, line: l1, line_item: i1, value: v1 },
            DebugDataInspection::Next { position: p2, line: l2, line_item: i2, value: v2 },
        ) => *p1 == *p2 && *l1 == *l2 && *i1 == *i2 && crate::text::chars_eq(&str_chars(v1.as_str()), &str_chars(v2.as_str())),
        (
            DebugDataInspection::Exhausted { position: p1, total: t1 },
            DebugDataInspection::Exhausted { position: p2, total: t2 },
        ) => *p1 == *p2 && *t1 == *t2,
        _ => false,
    }
}

/// The pause that the inspector last showed.
#[derive(Debug)]
pub struct DebugInspectionHistory {
    pub previous: Option<DebugInspectionState>,
}

impl DebugInspectionHistory {
    /// No pause seen yet.
    pub fn new() -> (r: DebugInspectionHistory)
        ensures
            r.previous is None,
    {
        DebugInspectionHistory { previous: None }
    }

    /// What changed in `snapshot` since the remembered pause; nothing before
    /// the first one.
    pub fn changes(&self, snapshot: &DebugSnapshot) -> (r: DebugPanelChanges)
        ensures
            match self.previous {
                None => r@.variables.len() == 0 && r@.arrays.len() == 0 && !r@.state && r@.timers.len() == 0 && !r@.data,
                Some(p) => reports(r@, changes_between(p@, inspection_of(*snapshot))),
            },
    {
        let previous = match &self.previous {
            None => {
                let none = DebugPanelChanges { variables: Vec::new(), arrays: Vec::new(), state: false, timers: Vec::new(), data: false };
                return none;
            },
            Some(p) => p,
        };
        let current = DebugInspectionState::from_snapshot(snapshot);
        let variables = changed_variable_names(&previous.variables, &current.variables);
        let arrays = changed_array_names(&previous.arrays, &current.arrays);
        let timers = changed_timer_numbers(&previous.timers, &current.timers);
        let state = current.err != previous.err || current.erl != previous.erl;
        let data = !data_equal(&current.data, &previous.data);
        let r = DebugPanelChanges { variables, arrays, state, timers, data };
        assert(r@.variables == names_view(r.variables@));
        assert(r@.arrays == names_view(r.arrays@));
        r
    }

    /// Remembers `snapshot` as the last pause shown.
    pub fn remember(&mut self, snapshot: &DebugSnapshot)
        ensures
            final(self).previous matches Some(p) && p@ == inspection_of(*snapshot),
    {
        self.previous = Some(DebugInspectionState::from_snapshot(snapshot));
    }
}

/// Pausing twice on the same state marks nothing as changed.
pub proof fn same_pause_marks_nothing(s: DebugSnapshot)
    ensures
        ({
            let c = changes_between(inspection_of(s), inspection_of(s));
            &&& c.0 == Set::<Seq<char>>::empty()
            &&& c.1 == Set::<Seq<char>>::empty()
            &&& !c.2
            &&& c.3 == Set::<i32>::empty()
            &&& !c.4
        }),
{
    let v = inspection_of(s);
    assert(changed_keys(v.variables, v.variables) =~= Set::<Seq<char>>::empty());
    assert(changed_keys(v.arrays, v.arrays) =~= Set::<Seq<char>>::empty());
    assert(changed_keys(v.timers, v.timers) =~= Set::<i32>::empty());
}

/// Pauses that differ only in the time their timers have left mark nothing
/// as changed.
pub proof fn timer_countdown_marks_nothing(s: DebugSnapshot, t: DebugSnapshot)
    requires
        t.variables@ == s.variables@,
        t.array_elements@ == s.array_elements@,
        t.arrays@ == s.arrays@,
        t.err == s.err,
        t.erl == s.erl,
        t.data == s.data,
        t.timers@.len() == s.timers@.len(),
        forall|k: int|
            0 <= k < s.timers@.len() ==> #[trigger] t.timers@[k].number == s.timers@[k].number && timer_view(t.timers@[k])
                == timer_view(s.timers@[k]),
    ensures
        ({
            let c = changes_between(inspection_of(s), inspection_of(t));
            &&& c.0 == Set::<Seq<char>>::empty()
            &&& c.1 == Set::<Seq<char>>::empty()
            &&& !c.2
            &&& c.3 == Set::<i32>::empty()
            &&& !c.4
        }),
{
    let ts = t.timers@.map_values(|x: DebugTimerSnapshot| (x.number, timer_view(x)));
    let ss = s.timers@.map_values(|x: DebugTimerSnapshot| (x.number, timer_view(x)));
    assert(ts =~= ss) by {
        assert forall|k: int| 0 <= k < ts.len() implies ts[k] == ss[k] by {
            assert(t.timers@[k].number == s.timers@[k].number);
        }
    }
    assert(inspection_of(t) == inspection_of(s));
    same_pause_marks_nothing(s);
}

} // verus!
