//! The debugger's inspector panel: the variables, arrays, stack, error
//! state, timers and DATA pointer of a paused program, laid out in one to
//! three columns, with the entries that changed since the last pause marked.
use vstd::prelude::*;
use crate::debugger::{DebugArrayKind, DebugArraySummary, DebugFrameKind, DebugLocation, DebugPauseReason, DebugStackFrame, DebugTimerSnapshot};
use crate::screen_text::{column_count, column_width, columns_view, escaped, fit, max_rows, panel_row};
use crate::separators::join;
use crate::text::{decimal, int_decimal, str_chars, string_from_chars, extend_with_str, extend_with_chars, upper_seq};

verus! {

/// A value as the panel shows it: a number by its printed text, or a
/// string.
#[derive(Debug, Clone, PartialEq, Eq)]
pub enum DebugValue {
    Number(String),
    String(String),
}

/// A variable or array element and its value.
#[derive(Debug, Clone, PartialEq, Eq)]
pub struct DebugVariable {
    pub name: String,
    pub value: DebugValue,
}

/// Where READ stands in the DATA items.
#[derive(Debug, Clone, PartialEq, Eq)]
pub enum DebugDataSnapshot {
    Empty,
    Next { position: usize, line: i32, line_item: usize, value: DebugValue },
    Exhausted { position: usize, total: usize },
}

/// Everything the debugger shows of a paused program.
#[derive(Debug, Clone, PartialEq, Eq)]
pub struct DebugSnapshot {
    pub reason: DebugPauseReason,
    pub location: DebugLocation,
    pub source_lines: Vec<String>,
    pub variables: Vec<DebugVariable>,
    pub array_elements: Vec<DebugVariable>,
    pub arrays: Vec<DebugArraySummary>,
    pub stack: Vec<DebugStackFrame>,
    pub err: i32,
    pub erl: i32,
    pub timers: Vec<DebugTimerSnapshot>,
    pub data: DebugDataSnapshot,
}

/// The entries that changed since the previous pause: variables and arrays
/// by upper-case name, timers by number.
#[derive(Debug, Clone, PartialEq, Eq)]
pub struct DebugPanelChanges {
    pub variables: Vec<String>,
    pub arrays: Vec<String>,
    pub state: bool,
    pub timers: Vec<i32>,
    pub data: bool,
}

/// The changes as values.
pub struct ChangeView {
    pub variables: Seq<Seq<char>>,
    pub arrays: Seq<Seq<char>>,
    pub state: bool,
    pub timers: Seq<i32>,
    pub data: bool,
}

impl View for DebugPanelChanges {
    type V = ChangeView;

    open spec fn view(&self) -> ChangeView {
        ChangeView {
            variables: self.variables@.map_values(|n: String| n@),
            arrays: self.arrays@.map_values(|n: String| n@),
            state: self.state,
            timers: self.timers@,
            data: self.data,
        }
    }
}

/// No change at all.
pub open spec fn no_changes() -> ChangeView {
    ChangeView { variables: Seq::empty(), arrays: Seq::empty(), state: false, timers: Seq::empty(), data: false }
}

// ---------------------------------------------------------------------------
// The text of each entry
// ---------------------------------------------------------------------------

/// A value as the panel writes it: numbers as printed, strings quoted with
/// their control characters escaped.
pub open spec fn value_text(v: DebugValue) -> Seq<char> {
    match v {
        DebugValue::Number(t) => t@,
        DebugValue::String(s) => seq!['"'] + escaped(s@) + seq!['"'],
    }
}

pub open spec fn change_prefix(changed: bool) -> Seq<char> {
    if changed { seq!['*', ' '] } else { seq![' ', ' '] }
}

pub open spec fn names_contain(names: Seq<Seq<char>>, name: Seq<char>) -> bool {
    names.contains(name)
}

pub open spec fn variable_line(v: DebugVariable, changes: ChangeView) -> Seq<char> {
    change_prefix(names_contain(changes.variables, upper_seq(v.name@))) + v.name@ + seq![' ', '=', ' '] + value_text(v.value)
}

pub open spec fn array_kind_text(kind: DebugArrayKind) -> Seq<char> {
    match kind {
        DebugArrayKind::Number => seq!['N', 'U', 'M'],
        DebugArrayKind::String => seq!['S', 'T', 'R'],
    }
}

pub open spec fn frame_kind_text(kind: DebugFrameKind) -> Seq<char> {
    match kind {
        DebugFrameKind::Program => "MAIN"@,
        DebugFrameKind::Gosub => "GOSUB"@,
        DebugFrameKind::Sub => "SUB"@,
        DebugFrameKind::Function => "FUNCTION"@,
        DebugFrameKind::Timer => "TIMER"@,
        DebugFrameKind::Mouse => "MOUSE"@,
    }
}

pub open spec fn dims_text(d: Seq<usize>) -> Seq<char> {
    join(Seq::new(d.len(), |k: int| decimal(d[k] as nat)), seq![','])
}

pub open spec fn array_line(a: DebugArraySummary, changes: ChangeView) -> Seq<char> {
    change_prefix(names_contain(changes.arrays, upper_seq(a.name@))) + a.name@ + (match a.alias_of {
        Some(t) => seq![' ', '-', '>', ' '] + t@,
        None => Seq::<char>::empty(),
    }) + seq!['('] + dims_text(a.dimensions@) + seq![')', ' '] + array_kind_text(a.kind) + seq![' ', '['] + decimal(a.elements as nat)
        + seq![']']
}

pub open spec fn frame_name(f: DebugStackFrame) -> Seq<char> {
    match f.name {
        Some(n) => n@,
        None => Seq::<char>::empty(),
    }
}

pub open spec fn stack_line(index: int, f: DebugStackFrame) -> Seq<char> {
    seq![' ', ' '] + decimal(index as nat) + seq![':', ' '] + frame_kind_text(f.kind) + (if frame_name(f).len() == 0 {
        Seq::<char>::empty()
    } else {
        seq![' ']
    }) + frame_name(f) + (match f.line {
        Some(l) => seq![' ', '@'] + int_decimal(l as int),
        None => Seq::<char>::empty(),
    })
}

pub open spec fn state_line(err: i32, erl: i32, changes: ChangeView) -> Seq<char> {
    change_prefix(changes.state) + "ERR="@ + int_decimal(err as int) + " ERL="@ + int_decimal(erl as int)
}

pub open spec fn timer_line(t: DebugTimerSnapshot, changes: ChangeView) -> Seq<char> {
    change_prefix(changes.timers.contains(t.number)) + seq!['#'] + int_decimal(t.number as int) + seq![' '] + (if t.repeat {
        "EVERY"@
    } else {
        "AFTER"@
    }) + " -> "@ + int_decimal(t.target as int) + seq![' '] + (if t.active { "active"@ } else { "stopped"@ }) + seq![' ']
        + decimal(t.remaining_ms as nat) + seq!['/'] + decimal(t.interval_ms as nat) + "ms"@
}

pub open spec fn data_line(d: DebugDataSnapshot, changes: ChangeView) -> Seq<char> {
    match d {
        DebugDataSnapshot::Empty => "  (none)"@,
        DebugDataSnapshot::Next { line, line_item, value, .. } => change_prefix(changes.data) + "Ln "@ + int_decimal(
            line as int,
        ) + " Item "@ + decimal(line_item as nat) + seq![':', ' '] + value_text(value),
        DebugDataSnapshot::Exhausted { .. } => change_prefix(changes.data) + "(end)"@,
    }
}

// ---------------------------------------------------------------------------
// The columns
// ---------------------------------------------------------------------------

pub open spec fn none_line() -> Seq<char> {
    "  (none)"@
}

pub open spec fn values_column(s: DebugSnapshot, changes: ChangeView) -> Seq<Seq<char>> {
    let vars = s.variables@;
    let elems = s.array_elements@;
    let arrays = s.arrays@;
    seq!["VARIABLES"@] + (if vars.len() == 0 && elems.len() == 0 {
        seq![none_line()]
    } else {
        Seq::new(vars.len(), |k: int| variable_line(vars[k], changes)) + Seq::new(elems.len(), |k: int| variable_line(elems[k], changes))
    }) + seq!["ARRAYS"@] + (if arrays.len() == 0 {
        seq![none_line()]
    } else {
        Seq::new(arrays.len(), |k: int| array_line(arrays[k], changes))
    })
}

pub open spec fn stack_column(s: DebugSnapshot, changes: ChangeView) -> Seq<Seq<char>> {
    let stack = s.stack@;
    seq!["STACK"@] + (if stack.len() == 0 {
        seq![none_line()]
    } else {
        Seq::new(stack.len(), |k: int| stack_line(k, stack[k]))
    }) + seq!["STATE"@, state_line(s.err, s.erl, changes)]
}

pub open spec fn timers_column(s: DebugSnapshot, changes: ChangeView) -> Seq<Seq<char>> {
    let timers = s.timers@;
    seq!["TIMERS"@] + (if timers.len() == 0 {
        seq![none_line()]
    } else {
        Seq::new(timers.len(), |k: int| timer_line(timers[k], changes))
    }) + seq!["DATA"@, data_line(s.data, changes)]
}

/// The panel's columns for `width`: three side by side, two (the stack,
/// state, timers and DATA under one another), or one.
pub open spec fn panel_texts(s: DebugSnapshot, changes: ChangeView, width: int) -> Seq<Seq<Seq<char>>> {
    let v = values_column(s, changes);
    let st = stack_column(s, changes);
    let t = timers_column(s, changes);
    let count = column_count(width);
    if count == 3 {
        seq![v, st, t]
    } else if count == 2 {
        seq![v, st + seq![Seq::<char>::empty()] + t]
    } else {
        seq![v + seq![Seq::<char>::empty()] + st + seq![Seq::<char>::empty()] + t]
    }
}

pub open spec fn lines_view(v: Seq<String>) -> Seq<Seq<char>> {
    v.map_values(|s: String| s@)
}

// ---------------------------------------------------------------------------
// Building the text
// ---------------------------------------------------------------------------

/// The text of a value.
pub fn format_debug_value(value: &DebugValue) -> (r: String)
    ensures
        r@ == value_text(*value),
{
    match value {
        DebugValue::Number(t) => t.clone(),
        DebugValue::String(s) => {
            let mut out: Vec<char> = Vec::new();
            out.push('"');
            let e = crate::screen_text::escape_debug_string(s.as_str());
            extend_with_str(&mut out, e.as_str());
            out.push('"');
            assert(out@ =~= seq!['"'] + escaped(s@) + seq!['"']);
            string_from_chars(&out)
        },
    }
}

fn push_prefix(out: &mut Vec<char>, changed: bool)
    ensures
        final(out)@ == old(out)@ + change_prefix(changed),
{
    let ghost before = out@;
    if changed {
        out.push('*');
    } else {
        out.push(' ');
    }
    out.push(' ');
    assert(out@ =~= before + change_prefix(changed));
}

fn push_line(column: &mut Vec<String>, line: &Vec<char>)
    ensures
        lines_view(final(column)@) == lines_view(old(column)@).push(line@),
{
    let s = string_from_chars(line);
    column.push(s);
    assert(lines_view(column@) =~= lines_view(old(column)@).push(line@));
}

fn push_text(column: &mut Vec<String>, text: &str)
    ensures
        lines_view(final(column)@) == lines_view(old(column)@).push(text@),
{
    let chars = str_chars(text);
    push_line(column, &chars);
}

/// Whether `names` holds the upper-case form of `name`.
fn names_contain_exec(names: &Vec<String>, name: &str) -> (r: bool)
    ensures
        r == names_contain(names@.map_values(|n: String| n@), upper_seq(name@)),
{
    let upper = crate::text::chars_upper(&str_chars(name));
    let mut k: usize = 0;
    while k < names.len()
        invariant
            k <= names@.len(),
            upper@ == upper_seq(name@),
            forall|j: int| 0 <= j < k ==> #[trigger] names@[j]@ != upper_seq(name@),
        decreases names@.len() - k,
    {
        let candidate = str_chars(names[k].as_str());
        if crate::text::chars_eq(&candidate, &upper) {
            assert(names@.map_values(|n: String| n@)[k as int] == upper_seq(name@));
            return true;
        }
        k += 1;
    }
    let ghost nv = names@.map_values(|n: String| n@);
    assert forall|j: int| 0 <= j < nv.len() implies #[trigger] nv[j] != upper_seq(name@) by {
        assert(nv[j] == names@[j]@);
    }
    false
}

fn numbers_contain(numbers: &Vec<i32>, n: i32) -> (r: bool)
    ensures
        r == numbers@.contains(n),
{
    let mut k: usize = 0;
    while k < numbers.len()
        invariant
            k <= numbers@.len(),
            forall|j: int| 0 <= j < k ==> numbers@[j] != n,
        decreases numbers@.len() - k,
    {
        if numbers[k] == n {
            assert(numbers@[k as int] == n);
            return true;
        }
        k += 1;
    }
    false
}

fn variable_line_exec(v: &DebugVariable, changes: &DebugPanelChanges) -> (r: Vec<char>)
    ensures
        r@ == variable_line(*v, changes@),
{
    let mut out: Vec<char> = Vec::new();
    push_prefix(&mut out, names_contain_exec(&changes.variables, v.name.as_str()));
    extend_with_str(&mut out, v.name.as_str());
    extend_with_str(&mut out, " = ");
    let value = format_debug_value(&v.value);
    extend_with_str(&mut out, value.as_str());
    proof {
        reveal_strlit(" = ");
    }
    assert(out@ =~= variable_line(*v, changes@));
    out
}

fn dims_text_exec(d: &Vec<usize>) -> (r: Vec<char>)
    ensures
        r@ == dims_text(d@),
{
    let mut out: Vec<char> = Vec::new();
    let mut k: usize = 0;
    let ghost parts = Seq::new(d@.len(), |j: int| decimal(d@[j] as nat));
    while k < d.len()
        invariant
            k <= d@.len(),
            parts == Seq::new(d@.len(), |j: int| decimal(d@[j] as nat)),
            out@ == join(parts.subrange(0, k as int), seq![',']),
        decreases d@.len() - k,
    {
        let ghost before = out@;
        if k > 0 {
            out.push(',');
        }
        let digits = crate::text::nat_to_decimal(d[k] as u64);
        extend_with_chars(&mut out, &digits);
        proof {
            let next = parts.subrange(0, k + 1);
            assert(next.drop_last() =~= parts.subrange(0, k as int));
            assert(next.last() == decimal(d@[k as int] as nat));
            if k == 0 {
                assert(next.len() == 1);
                assert(join(parts.subrange(0, 0), seq![',']) =~= Seq::<char>::empty());
                assert(out@ =~= next[0]);
            } else {
                assert(out@ =~= join(next.drop_last(), seq![',']) + seq![','] + next.last());
            }
        }
        k += 1;
    }
    assert(parts.subrange(0, d@.len() as int) =~= parts);
    out
}

fn array_line_exec(a: &DebugArraySummary, changes: &DebugPanelChanges) -> (r: Vec<char>)
    ensures
        r@ == array_line(*a, changes@),
{
    let mut out: Vec<char> = Vec::new();
    push_prefix(&mut out, names_contain_exec(&changes.arrays, a.name.as_str()));
    extend_with_str(&mut out, a.name.as_str());
    let ghost after_name = out@;
    match &a.alias_of {
        Some(t) => {
            out.push(' ');
            out.push('-');
            out.push('>');
            out.push(' ');
            extend_with_str(&mut out, t.as_str());
        },
        None => {},
    }
    assert(out@ =~= after_name + (match a.alias_of {
        Some(t) => seq![' ', '-', '>', ' '] + t@,
        None => Seq::<char>::empty(),
    }));
    out.push('(');
    let dims = dims_text_exec(&a.dimensions);
    extend_with_chars(&mut out, &dims);
    out.push(')');
    out.push(' ');
    let label = crate::screen_text::debug_array_kind_label(a.kind);
    extend_with_str(&mut out, label);
    out.push(' ');
    out.push('[');
    let digits = crate::text::nat_to_decimal(a.elements as u64);
    extend_with_chars(&mut out, &digits);
    out.push(']');
    proof {
        reveal_strlit("NUM");
        reveal_strlit("STR");
        assert(label@ == array_kind_text(a.kind));
    }
    assert(out@ =~= array_line(*a, changes@));
    out
}

fn stack_line_exec(index: usize, f: &DebugStackFrame) -> (r: Vec<char>)
    ensures
        r@ == stack_line(index as int, *f),
{
    let mut out: Vec<char> = Vec::new();
    out.push(' ');
    out.push(' ');
    let digits = crate::text::nat_to_decimal(index as u64);
    extend_with_chars(&mut out, &digits);
    out.push(':');
    out.push(' ');
    let label = crate::screen_text::debug_frame_kind_label(f.kind);
    extend_with_str(&mut out, label);
    let ghost after_label = out@;
    let name: Vec<char> = match &f.name {
        Some(n) => str_chars(n.as_str()),
        None => Vec::new(),
    };
    assert(name@ == frame_name(*f));
    if name.len() > 0 {
        out.push(' ');
    }
    extend_with_chars(&mut out, &name);
    let ghost after_name = out@;
    match f.line {
        Some(l) => {
            out.push(' ');
            out.push('@');
            let ld = crate::text::i32_to_decimal(l);
            extend_with_chars(&mut out, &ld);
        },
        None => {},
    }
    assert(out@ =~= after_name + (match f.line {
        Some(l) => seq![' ', '@'] + int_decimal(l as int),
        None => Seq::<char>::empty(),
    }));
    assert(label@ == frame_kind_text(f.kind));
    assert(out@ =~= stack_line(index as int, *f));
    out
}

fn timer_line_exec(t: &DebugTimerSnapshot, changes: &DebugPanelChanges) -> (r: Vec<char>)
    ensures
        r@ == timer_line(*t, changes@),
{
    let mut out: Vec<char> = Vec::new();
    push_prefix(&mut out, numbers_contain(&changes.timers, t.number));
    out.push('#');
    extend_with_chars(&mut out, &crate::text::i32_to_decimal(t.number));
    out.push(' ');
    let ghost before_kind = out@;
    if t.repeat {
        extend_with_str(&mut out, "EVERY");
    } else {
        extend_with_str(&mut out, "AFTER");
    }
    let ghost after_kind = out@;
    extend_with_str(&mut out, " -> ");
    extend_with_chars(&mut out, &crate::text::i32_to_decimal(t.target));
    out.push(' ');
    let ghost before_state = out@;
    if t.active {
        extend_with_str(&mut out, "active");
    } else {
        extend_with_str(&mut out, "stopped");
    }
    let ghost after_state = out@;
    out.push(' ');
    extend_with_chars(&mut out, &crate::text::nat_to_decimal(t.remaining_ms));
    out.push('/');
    extend_with_chars(&mut out, &crate::text::nat_to_decimal(t.interval_ms));
    extend_with_str(&mut out, "ms");
    assert(after_kind =~= before_kind + (if t.repeat { "EVERY"@ } else { "AFTER"@ }));
    assert(after_state =~= before_state + (if t.active { "active"@ } else { "stopped"@ }));
    assert(out@ =~= timer_line(*t, changes@));
    out
}

fn state_line_exec(err: i32, erl: i32, changes: &DebugPanelChanges) -> (r: Vec<char>)
    ensures
        r@ == state_line(err, erl, changes@),
{
    let mut out: Vec<char> = Vec::new();
    push_prefix(&mut out, changes.state);
    extend_with_str(&mut out, "ERR=");
    extend_with_chars(&mut out, &crate::text::i32_to_decimal(err));
    extend_with_str(&mut out, " ERL=");
    extend_with_chars(&mut out, &crate::text::i32_to_decimal(erl));
    assert(out@ =~= state_line(err, erl, changes@));
    out
}

fn data_line_exec(d: &DebugDataSnapshot, changes: &DebugPanelChanges) -> (r: Vec<char>)
    ensures
        r@ == data_line(*d, changes@),
{
    match d {
        DebugDataSnapshot::Empty => str_chars("  (none)"),
        DebugDataSnapshot::Next { line, line_item, value, .. } => {
            let mut out: Vec<char> = Vec::new();
            push_prefix(&mut out, changes.data);
            extend_with_str(&mut out, "Ln ");
            extend_with_chars(&mut out, &crate::text::i32_to_decimal(*line));
            extend_with_str(&mut out, " Item ");
            extend_with_chars(&mut out, &crate::text::nat_to_decimal(*line_item as u64));
            out.push(':');
            out.push(' ');
            let text = format_debug_value(value);
            extend_with_str(&mut out, text.as_str());
            assert(out@ =~= data_line(*d, changes@));
            out
        },
        DebugDataSnapshot::Exhausted { .. } => {
            let mut out: Vec<char> = Vec::new();
            push_prefix(&mut out, changes.data);
            extend_with_str(&mut out, "(end)");
            assert(out@ =~= data_line(*d, changes@));
            out
        },
    }
}

fn variables_into(column: &mut Vec<String>, vars: &Vec<DebugVariable>, changes: &DebugPanelChanges)
    ensures
        lines_view(final(column)@) == lines_view(old(column)@) + Seq::new(vars@.len(), |k: int| variable_line(vars@[k], changes@)),
{
    let ghost start = lines_view(column@);
    let mut k: usize = 0;
    while k < vars.len()
        invariant
            k <= vars@.len(),
            lines_view(column@) == start + Seq::new(k as nat, |j: int| variable_line(vars@[j], changes@)),
        decreases vars@.len() - k,
    {
        let line = variable_line_exec(&vars[k], changes);
        push_line(column, &line);
        assert(Seq::new((k + 1) as nat, |j: int| variable_line(vars@[j], changes@)) =~= Seq::new(
            k as nat,
            |j: int| variable_line(vars@[j], changes@),
        ).push(variable_line(vars@[k as int], changes@)));
        k += 1;
    }
}

fn values_column_exec(s: &DebugSnapshot, changes: &DebugPanelChanges) -> (r: Vec<String>)
    ensures
        lines_view(r@) == values_column(*s, changes@),
{
    let mut column: Vec<String> = Vec::new();
    push_text(&mut column, "VARIABLES");
    if s.variables.len() == 0 && s.array_elements.len() == 0 {
        push_text(&mut column, "  (none)");
    } else {
        variables_into(&mut column, &s.variables, changes);
        variables_into(&mut column, &s.array_elements, changes);
    }
    push_text(&mut column, "ARRAYS");
    if s.arrays.len() == 0 {
        push_text(&mut column, "  (none)");
    } else {
        let ghost start = lines_view(column@);
        let mut k: usize = 0;
        while k < s.arrays.len()
            invariant
                k <= s.arrays@.len(),
                lines_view(column@) == start + Seq::new(k as nat, |j: int| array_line(s.arrays@[j], changes@)),
            decreases s.arrays@.len() - k,
        {
            let line = array_line_exec(&s.arrays[k], changes);
            push_line(&mut column, &line);
            assert(Seq::new((k + 1) as nat, |j: int| array_line(s.arrays@[j], changes@)) =~= Seq::new(
                k as nat,
                |j: int| array_line(s.arrays@[j], changes@),
            ).push(array_line(s.arrays@[k as int], changes@)));
            k += 1;
        }
    }
    assert(lines_view(column@) =~= values_column(*s, changes@));
    column
}

fn stack_column_exec(s: &DebugSnapshot, changes: &DebugPanelChanges) -> (r: Vec<String>)
    ensures
        lines_view(r@) == stack_column(*s, changes@),
{
    let mut column: Vec<String> = Vec::new();
    push_text(&mut column, "STACK");
    if s.stack.len() == 0 {
        push_text(&mut column, "  (none)");
    } else {
        let ghost start = lines_view(column@);
        let mut k: usize = 0;
        while k < s.stack.len()
            invariant
                k <= s.stack@.len(),
                lines_view(column@) == start + Seq::new(k as nat, |j: int| stack_line(j, s.stack@[j])),
            decreases s.stack@.len() - k,
        {
            let line = stack_line_exec(k, &s.stack[k]);
            push_line(&mut column, &line);
            assert(Seq::new((k + 1) as nat, |j: int| stack_line(j, s.stack@[j])) =~= Seq::new(
                k as nat,
                |j: int| stack_line(j, s.stack@[j]),
            ).push(stack_line(k as int, s.stack@[k as int])));
            k += 1;
        }
    }
    push_text(&mut column, "STATE");
    let state = state_line_exec(s.err, s.erl, changes);
    push_line(&mut column, &state);
    assert(lines_view(column@) =~= stack_column(*s, changes@));
    column
}

fn timers_column_exec(s: &DebugSnapshot, changes: &DebugPanelChanges) -> (r: Vec<String>)
    ensures
        lines_view(r@) == timers_column(*s, changes@),
{
    let mut column: Vec<String> = Vec::new();
    push_text(&mut column, "TIMERS");
    if s.timers.len() == 0 {
        push_text(&mut column, "  (none)");
    } else {
        let ghost start = lines_view(column@);
        let mut k: usize = 0;
        while k < s.timers.len()
            invariant
                k <= s.timers@.len(),
                lines_view(column@) == start + Seq::new(k as nat, |j: int| timer_line(s.timers@[j], changes@)),
            decreases s.timers@.len() - k,
        {
            let line = timer_line_exec(&s.timers[k], changes);
            push_line(&mut column, &line);
            assert(Seq::new((k + 1) as nat, |j: int| timer_line(s.timers@[j], changes@)) =~= Seq::new(
                k as nat,
                |j: int| timer_line(s.timers@[j], changes@),
            ).push(timer_line(s.timers@[k as int], changes@)));
            k += 1;
        }
    }
    push_text(&mut column, "DATA");
    let data = data_line_exec(&s.data, changes);
    push_line(&mut column, &data);
    assert(lines_view(column@) =~= timers_column(*s, changes@));
    column
}

fn append_column(into: &mut Vec<String>, from: Vec<String>)
    ensures
        lines_view(final(into)@) == lines_view(old(into)@) + lines_view(from@),
{
    let ghost start = lines_view(into@);
    let mut k: usize = 0;
    while k < from.len()
        invariant
            k <= from@.len(),
            lines_view(into@) == start + lines_view(from@).subrange(0, k as int),
        decreases from@.len() - k,
    {
        let chars = str_chars(from[k].as_str());
        push_line(into, &chars);
        assert(lines_view(from@).subrange(0, k + 1) =~= lines_view(from@).subrange(0, k as int).push(from@[k as int]@));
        assert(lines_view(into@) =~= start + lines_view(from@).subrange(0, k + 1));
        k += 1;
    }
    assert(lines_view(from@).subrange(0, from@.len() as int) =~= lines_view(from@));
}

/// The lines of the inspector panel in `width` cells: the variables and
/// arrays, the stack and error state, the timers and the DATA pointer, each
/// changed entry marked `* `, in as many columns as the width allows.
pub fn debug_panel_lines_with_changes(snapshot: &DebugSnapshot, changes: &DebugPanelChanges, width: usize) -> (r: Vec<String>)
    ensures
        ({
            let w = if width > 1 { width as int } else { 1 };
            let cols = panel_texts(*snapshot, changes@, width as int);
            &&& r@.len() == max_rows(cols, cols.len() as int)
            &&& forall|row: int|
                0 <= row < r@.len() ==> #[trigger] r@[row]@ == fit(
                    panel_row(cols, row, column_width(w, (if cols.len() > 1 { cols.len() } else { 1 }) as int)),
                    w,
                )
        }),
{
    let values = values_column_exec(snapshot, changes);
    let stack = stack_column_exec(snapshot, changes);
    let timers = timers_column_exec(snapshot, changes);
    let count = crate::screen_text::debug_panel_column_count(width);
    let mut columns: Vec<Vec<String>> = Vec::new();
    if count == 3 {
        columns.push(values);
        columns.push(stack);
        columns.push(timers);
    } else if count == 2 {
        let mut right = stack;
        push_text(&mut right, "");
        append_column(&mut right, timers);
        columns.push(values);
        columns.push(right);
    } else {
        let mut all = values;
        push_text(&mut all, "");
        append_column(&mut all, stack);
        push_text(&mut all, "");
        append_column(&mut all, timers);
        columns.push(all);
    }
    proof {
        reveal_strlit("");
        assert(""@ =~= Seq::<char>::empty());
        assert(columns_view(columns@) =~= panel_texts(*snapshot, changes@, width as int)) by {
            let cv = columns_view(columns@);
            let pt = panel_texts(*snapshot, changes@, width as int);
            assert forall|k: int| 0 <= k < cv.len() implies #[trigger] cv[k] == pt[k] by {
                assert(cv[k] =~= lines_view(columns@[k]@));
            }
        }
    }
    let w = if width > 1 { width } else { 1 };
    crate::screen_text::join_debug_panel_columns(&columns, w)
}

/// The inspector panel with nothing marked as changed.
pub fn debug_panel_lines(snapshot: &DebugSnapshot, width: usize) -> (r: Vec<String>)
    ensures
        ({
            let w = if width > 1 { width as int } else { 1 };
            let cols = panel_texts(*snapshot, no_changes(), width as int);
            &&& r@.len() == max_rows(cols, cols.len() as int)
            &&& forall|row: int|
                0 <= row < r@.len() ==> #[trigger] r@[row]@ == fit(
                    panel_row(cols, row, column_width(w, (if cols.len() > 1 { cols.len() } else { 1 }) as int)),
                    w,
                )
        }),
{
    let none = DebugPanelChanges { variables: Vec::new(), arrays: Vec::new(), state: false, timers: Vec::new(), data: false };
    assert(none@.variables =~= Seq::<Seq<char>>::empty());
    assert(none@.arrays =~= Seq::<Seq<char>>::empty());
    assert(none@.timers =~= Seq::<i32>::empty());
    debug_panel_lines_with_changes(snapshot, &none, width)
}

} // verus!
