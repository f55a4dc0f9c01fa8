//! Properties of the editor that span several operations.
use vstd::prelude::*;
use crate::editor::{BasicEditor, EditorPosition, stack_view, push_bounded, SnapshotView};
use crate::editor_ops::{moved, MoveDirection};
use crate::renumber::{EditorNumberedLine, renum_pairs, lookup, lookup_from};

verus! {

/// What `undo` leaves when it restores the newest undo snapshot of `from`.
pub open spec fn undone(from: &BasicEditor, to: &BasicEditor) -> bool {
    &&& from.undo_stack@.len() > 0
    &&& to.restored_from(stack_view(from.undo_stack@).last())
    &&& stack_view(to.redo_stack@) == stack_view(from.redo_stack@).push(from.snap())
}

/// What `redo` leaves when it restores the newest redo snapshot of `from`.
pub open spec fn redone(from: &BasicEditor, to: &BasicEditor) -> bool {
    &&& from.redo_stack@.len() > 0
    &&& to.restored_from(stack_view(from.redo_stack@).last())
}

proof fn lemma_push_bounded_last(stack: Seq<SnapshotView>, snap: SnapshotView)
    ensures
        push_bounded(stack, snap).len() > 0,
        push_bounded(stack, snap).last() == snap,
{
}

proof fn lemma_restored_from_own_snap(e: &BasicEditor, r: &BasicEditor)
    requires
        e.wf(),
        r.restored_from(e.snap()),
    ensures
        r.docv() == e.docv(),
        r.pos() == e.pos(),
        r.breakpoints@ == e.breakpoints@,
        r.selection_anchor == e.selection_anchor,
        r.dirty == e.dirty,
        r.left_col == e.left_col,
{
}

/// Undo takes back a recorded edit: after any operation that records one
/// undo step, undo gives back the document, the cursor, the selection, the
/// breakpoints and the dirty flag from before the operation.
pub proof fn undo_restores_state_before_edit(before: &BasicEditor, edited: &BasicEditor, after_undo: &BasicEditor)
    requires
        before.wf(),
        edited.recorded(before),
        undone(edited, after_undo),
    ensures
        after_undo.docv() == before.docv(),
        after_undo.pos() == before.pos(),
        after_undo.selection_anchor == before.selection_anchor,
        after_undo.breakpoints@ == before.breakpoints@,
        after_undo.dirty == before.dirty,
{
    lemma_push_bounded_last(stack_view(before.undo_stack@), before.snap());
    lemma_restored_from_own_snap(before, after_undo);
}

/// Redo takes back an undo: redo right after undo gives back the document,
/// the cursor, the selection, the breakpoints and the dirty flag from before
/// the undo.
pub proof fn redo_restores_state_before_undo(before: &BasicEditor, after_undo: &BasicEditor, after_redo: &BasicEditor)
    requires
        before.wf(),
        undone(before, after_undo),
        redone(after_undo, after_redo),
    ensures
        after_redo.docv() == before.docv(),
        after_redo.pos() == before.pos(),
        after_redo.selection_anchor == before.selection_anchor,
        after_redo.breakpoints@ == before.breakpoints@,
        after_redo.dirty == before.dirty,
{
    lemma_restored_from_own_snap(before, after_redo);
}

/// Renumbering keeps the buffer order: the k-th numbered line gets a larger
/// number than every line before it, the first gets `start`.
pub proof fn renumbering_keeps_line_order(v: Seq<EditorNumberedLine>, start: int, step: int, j: int, k: int)
    requires
        step >= 1,
        start >= 1,
        start + v.len() * step <= i32::MAX,
        0 <= j < k < v.len(),
    ensures
        renum_pairs(v, start, step)[j].1 < renum_pairs(v, start, step)[k].1,
        renum_pairs(v, start, step)[0].1 == start,
{
    assert(j * step < k * step) by (nonlinear_arith)
        requires
            j < k,
            step >= 1,
    ;
    assert(k * step <= v.len() * step) by (nonlinear_arith)
        requires
            k <= v.len(),
            step >= 1,
    ;
    assert(0 <= j * step) by (nonlinear_arith)
        requires
            j >= 0,
            step >= 1,
    ;
}

proof fn lemma_lookup_from_finds(m: Seq<(i32, i32)>, x: int, i: int, k: int)
    requires
        0 <= i <= k < m.len(),
        m[k].0 == x,
        forall|j: int| 0 <= j < k ==> m[j].0 != x,
    ensures
        lookup_from(m, x, i) == Some(m[k].1),
    decreases k - i,
{
    if i < k {
        lemma_lookup_from_finds(m, x, i + 1, k);
    }
}

/// References follow their lines: when the old numbers are distinct, a
/// reference to the old number of the k-th numbered line is rewritten to that
/// line's new number.
pub proof fn references_follow_renumbered_lines(v: Seq<EditorNumberedLine>, start: int, step: int, k: int)
    requires
        0 <= k < v.len(),
        forall|a: int, b: int| 0 <= a < b < v.len() ==> v[a].old_number != v[b].old_number,
    ensures
        lookup(renum_pairs(v, start, step), v[k].old_number as int) == Some(renum_pairs(v, start, step)[k].1),
{
    let m = renum_pairs(v, start, step);
    lemma_lookup_from_finds(m, v[k].old_number as int, 0, k);
}

/// Moving up from a line below the first lands on the line above: the
/// column stays where it was when that line is long enough, and otherwise
/// stops at the end of that line — never further right than before, never
/// past the line's end.
pub proof fn moving_up_keeps_the_column(d: Seq<Seq<char>>, p: EditorPosition)
    requires
        0 < p.line < d.len(),
    ensures
        ({
            let r = moved(d, p, MoveDirection::Up);
            &&& r.line == p.line - 1
            &&& r.col <= d[r.line as int].len()
            &&& r.col <= p.col
            &&& (r.col == p.col || r.col == d[r.line as int].len())
            &&& (p.col <= d[p.line - 1].len() ==> r.col == p.col)
        }),
{
}

/// Moving down from a line above the last lands on the line below, keeping
/// the column when that line is long enough and otherwise stopping at its
/// end.
pub proof fn moving_down_keeps_the_column(d: Seq<Seq<char>>, p: EditorPosition)
    requires
        p.line + 1 < d.len() <= usize::MAX,
    ensures
        ({
            let r = moved(d, p, MoveDirection::Down);
            &&& r.line == p.line + 1
            &&& r.col <= d[r.line as int].len()
            &&& r.col <= p.col
            &&& (r.col == p.col || r.col == d[r.line as int].len())
            &&& (p.col <= d[p.line + 1].len() ==> r.col == p.col)
        }),
{
}

/// Up then down comes back to the same place when the column fits on the
/// line above.
pub proof fn up_then_down_returns(d: Seq<Seq<char>>, p: EditorPosition)
    requires
        0 < p.line < d.len(),
        p.col <= d[p.line - 1].len(),
        p.col <= d[p.line as int].len(),
    ensures
        moved(d, moved(d, p, MoveDirection::Up), MoveDirection::Down) == p,
{
}

/// Left and right move one character within a line and cross line ends:
/// left from the start of a line lands at the end of the line above, right
/// from the end of a line lands at the start of the line below, and each
/// undoes the other.
pub proof fn left_and_right_cross_line_ends(d: Seq<Seq<char>>, p: EditorPosition)
    requires
        p.line < d.len() <= usize::MAX,
        p.col <= d[p.line as int].len(),
        forall|k: int| 0 <= k < d.len() ==> #[trigger] d[k].len() <= usize::MAX,
    ensures
        p.col > 0 ==> (moved(d, p, MoveDirection::Left) == (EditorPosition { line: p.line, col: (p.col - 1) as usize })),
        p.col == 0 && p.line > 0 ==> (moved(d, p, MoveDirection::Left) == (EditorPosition {
            line: (p.line - 1) as usize,
            col: d[p.line - 1].len() as usize,
        })),
        p.col < d[p.line as int].len() ==> (moved(d, p, MoveDirection::Right) == (EditorPosition {
            line: p.line,
            col: (p.col + 1) as usize,
        })),
        p.col == d[p.line as int].len() && p.line + 1 < d.len() ==> (moved(d, p, MoveDirection::Right)
            == (EditorPosition { line: (p.line + 1) as usize, col: 0 })),
        (p.col > 0 || p.line > 0) ==> moved(d, moved(d, p, MoveDirection::Left), MoveDirection::Right) == p,
        (p.col < d[p.line as int].len() || p.line + 1 < d.len()) ==> (moved(
            d,
            moved(d, p, MoveDirection::Right),
            MoveDirection::Left,
        ) == p),
{
}

} // verus!
