//! Line-number lists after reference keywords (`ON X GOTO 25,35`): what a
//! renumbering makes of every number in them.
use vstd::prelude::*;
use crate::renumber::{ident_char, ident_run, ident_start, lookup, ref_keyword, ref_list, renum_refs, renum_scan};
use crate::separators::{digit_run, ws_run};
use crate::text::{digits_value, int_decimal, is_ws, upper_seq};

verus! {

/// Line numbers joined by commas, as a reference list writes them.
pub open spec fn comma_list(nums: Seq<Seq<char>>) -> Seq<char>
    decreases nums.len(),
{
    if nums.len() == 0 {
        Seq::empty()
    } else if nums.len() == 1 {
        nums[0]
    } else {
        nums[0] + seq![','] + comma_list(nums.drop_first())
    }
}

/// Every entry is a non-empty run of ASCII digits.
pub open spec fn all_numerals(nums: Seq<Seq<char>>) -> bool {
    &&& forall|k: int| 0 <= k < nums.len() ==> (#[trigger] nums[k]).len() > 0
    &&& forall|k: int, j: int| 0 <= k < nums.len() && 0 <= j < nums[k].len() ==> '0' <= #[trigger] nums[k][j] <= '9'
}

proof fn lemma_ws_span(s: Seq<char>, from: int, len: int)
    requires
        0 <= from,
        0 <= len,
        from + len <= s.len(),
        forall|j: int| from <= j < from + len ==> is_ws(#[trigger] s[j]),
        from + len == s.len() || !is_ws(s[from + len]),
    ensures
        ws_run(s, from) == len,
    decreases len,
{
    if len > 0 {
        lemma_ws_span(s, from + 1, len - 1);
    }
}

proof fn lemma_digit_span(s: Seq<char>, from: int, len: int)
    requires
        0 <= from,
        0 <= len,
        from + len <= s.len(),
        forall|j: int| from <= j < from + len ==> '0' <= #[trigger] s[j] <= '9',
        from + len == s.len() || !('0' <= s[from + len] <= '9'),
    ensures
        digit_run(s, from) == len,
    decreases len,
{
    if len > 0 {
        lemma_digit_span(s, from + 1, len - 1);
    }
}

/// A comma list after a renumbering by `m`: each number whose line is
/// renumbered replaced by the new number of that line, the others kept.
pub open spec fn renumbered_list(nums: Seq<Seq<char>>, m: Seq<(i32, i32)>) -> Seq<Seq<char>> {
    Seq::new(
        nums.len(),
        |k: int|
            if digits_value(nums[k]) <= i32::MAX && lookup(m, digits_value(nums[k])) is Some {
                int_decimal(lookup(m, digits_value(nums[k]))->0 as int)
            } else {
                nums[k]
            },
    )
}

proof fn lemma_ref_list_of_comma_list(
    pre: Seq<char>,
    lead: Seq<char>,
    nums: Seq<Seq<char>>,
    tail: Seq<char>,
    m: Seq<(i32, i32)>,
)
    requires
        nums.len() >= 1,
        all_numerals(nums),
        forall|j: int| 0 <= j < lead.len() ==> is_ws(#[trigger] lead[j]),
        tail.len() == 0 || (!('0' <= tail[0] <= '9') && !is_ws(tail[0]) && tail[0] != ','),
    ensures
        ref_list(pre + lead + comma_list(nums) + tail, pre.len() as int, m) == (
            lead + comma_list(renumbered_list(nums, m)),
            (pre.len() + lead.len() + comma_list(nums).len()) as int,
        ),
    decreases nums.len(),
{
    let s = pre + lead + comma_list(nums) + tail;
    let i = pre.len() as int;
    let n0 = nums[0];
    let a = i + lead.len();
    assert(n0.len() > 0 && '0' <= n0[0] <= '9');
    assert(s[a] == n0[0]);
    assert(!is_ws(s[a]));
    assert forall|j: int| i <= j < a implies is_ws(#[trigger] s[j]) by {
        assert(s[j] == lead[j - i]);
    }
    lemma_ws_span(s, i, lead.len() as int);
    let e = a + n0.len();
    assert forall|j: int| a <= j < e implies '0' <= #[trigger] s[j] <= '9' by {
        assert(s[j] == n0[j - a]);
    }
    let out = renumbered_list(nums, m);
    if nums.len() == 1 {
        assert(comma_list(nums) == n0);
        assert(comma_list(out) == out[0]);
        if tail.len() > 0 {
            assert(s[e] == tail[0]);
        }
        lemma_digit_span(s, a, n0.len() as int);
        assert(ws_run(s, e) == 0);
        assert(s.subrange(i, a) =~= lead);
        assert(s.subrange(a, e) =~= n0);
    } else {
        let rest = nums.drop_first();
        assert(comma_list(nums) == n0 + seq![','] + comma_list(rest));
        assert(s[e] == ',');
        lemma_digit_span(s, a, n0.len() as int);
        assert(ws_run(s, e) == 0);
        let pre2 = pre + lead + n0 + seq![','];
        assert(s =~= pre2 + Seq::<char>::empty() + comma_list(rest) + tail);
        assert(all_numerals(rest)) by {
            assert forall|k: int| 0 <= k < rest.len() implies (#[trigger] rest[k]).len() > 0 by {
                assert(rest[k] == nums[k + 1]);
            }
            assert forall|k: int, j: int| 0 <= k < rest.len() && 0 <= j < rest[k].len() implies '0' <= #[trigger] rest[k][j] <= '9' by {
                assert(rest[k] == nums[k + 1]);
            }
        }
        lemma_ref_list_of_comma_list(pre2, Seq::empty(), rest, tail, m);
        assert(pre2.len() == e + 1);
        assert(s.subrange(i, a) =~= lead);
        assert(s.subrange(a, e) =~= n0);
        assert(s.subrange(e, e + 1) =~= seq![',']);
        assert(renumbered_list(rest, m) =~= out.drop_first());
        assert(comma_list(out) == out[0] + seq![','] + comma_list(out.drop_first()));
        assert(Seq::<char>::empty() + comma_list(renumbered_list(rest, m)) =~= comma_list(out.drop_first()));
        assert(lead + out[0] + seq![','] + comma_list(out.drop_first()) =~= lead + comma_list(out));
    }
}

/// A comma list of line numbers after a reference keyword is rewritten
/// number by number: each number whose line is renumbered becomes that
/// line's new number, the others stay, and the list keeps its commas and
/// its length in entries.
pub proof fn every_number_of_a_reference_list_is_renumbered(
    nums: Seq<Seq<char>>,
    tail: Seq<char>,
    m: Seq<(i32, i32)>,
)
    requires
        nums.len() >= 1,
        all_numerals(nums),
        tail.len() == 0 || (!('0' <= tail[0] <= '9') && !is_ws(tail[0]) && tail[0] != ','),
    ensures
        ref_list(comma_list(nums) + tail, 0, m) == (comma_list(renumbered_list(nums, m)), comma_list(nums).len() as int),
        forall|k: int|
            0 <= k < nums.len() && #[trigger] lookup(m, digits_value(nums[k])) is Some && digits_value(nums[k])
                <= i32::MAX ==> renumbered_list(nums, m)[k] == int_decimal(lookup(m, digits_value(nums[k]))->0 as int),
        forall|k: int| 0 <= k < nums.len() && #[trigger] lookup(m, digits_value(nums[k])) is None ==> renumbered_list(nums, m)[k] == nums[k],
{
    lemma_ref_list_of_comma_list(Seq::empty(), Seq::empty(), nums, tail, m);
    assert(Seq::<char>::empty() + Seq::<char>::empty() + comma_list(nums) + tail =~= comma_list(nums) + tail);
    assert(Seq::<char>::empty() + comma_list(renumbered_list(nums, m)) =~= comma_list(renumbered_list(nums, m)));
}

proof fn lemma_ident_span(s: Seq<char>, from: int, len: int)
    requires
        0 <= from,
        0 <= len,
        from + len <= s.len(),
        forall|j: int| from <= j < from + len ==> ident_char(#[trigger] s[j]),
        from + len == s.len() || !ident_char(s[from + len]),
    ensures
        ident_run(s, from) == len,
    decreases len,
{
    if len > 0 {
        lemma_ident_span(s, from + 1, len - 1);
    }
}

/// A reference keyword — `GOTO`, `GOSUB`, `THEN`, `ELSE`, `RESTORE` or
/// `RESUME` — followed by a comma list of line numbers (as in `ON X GOTO
/// 25,35`): renumbering rewrites every number of the list.
pub proof fn reference_lists_are_renumbered(kw: Seq<char>, nums: Seq<Seq<char>>, m: Seq<(i32, i32)>)
    requires
        kw == "GOTO"@ || kw == "GOSUB"@ || kw == "THEN"@ || kw == "ELSE"@ || kw == "RESTORE"@ || kw == "RESUME"@,
        nums.len() >= 1,
        all_numerals(nums),
    ensures
        renum_refs(kw + seq![' '] + comma_list(nums), m) == kw + seq![' '] + comma_list(renumbered_list(nums, m)),
{
    reveal_strlit("GOTO");
    reveal_strlit("GOSUB");
    reveal_strlit("THEN");
    reveal_strlit("ELSE");
    reveal_strlit("RESTORE");
    reveal_strlit("RESUME");
    let s = kw + seq![' '] + comma_list(nums);
    let n = kw.len() as int;
    assert(s =~= kw + seq![' '] + comma_list(nums) + Seq::<char>::empty());
    lemma_ref_list_of_comma_list(kw, seq![' '], nums, Seq::empty(), m);
    assert(forall|j: int| 0 <= j < n ==> 'A' <= #[trigger] kw[j] <= 'Z');
    assert forall|j: int| 1 <= j < n implies ident_char(#[trigger] s[j]) by {
        assert(s[j] == kw[j]);
    }
    assert(s[n] == ' ');
    lemma_ident_span(s, 1, n - 1);
    assert(s[0] == kw[0]);
    assert(ident_start(s[0]));
    assert(s.subrange(0, n) =~= kw);
    assert(upper_seq(kw) =~= kw);
    assert(ref_keyword(kw)) by {
        if kw == "GOTO"@ {
            assert(kw =~= seq!['G', 'O', 'T', 'O']);
        } else if kw == "GOSUB"@ {
            assert(kw =~= seq!['G', 'O', 'S', 'U', 'B']);
        } else if kw == "THEN"@ {
            assert(kw =~= seq!['T', 'H', 'E', 'N']);
        } else if kw == "ELSE"@ {
            assert(kw =~= seq!['E', 'L', 'S', 'E']);
        } else if kw == "RESTORE"@ {
            assert(kw =~= seq!['R', 'E', 'S', 'T', 'O', 'R', 'E']);
        } else {
            assert(kw =~= seq!['R', 'E', 'S', 'U', 'M', 'E']);
        }
    }
    let r = ref_list(s, n, m);
    assert(r.1 == s.len());
    assert(renum_scan(s, r.1, false, m) == Seq::<char>::empty());
    assert(renum_scan(s, 0, false, m) == kw + r.0 + Seq::<char>::empty());
    assert(kw + (seq![' '] + comma_list(renumbered_list(nums, m))) + Seq::<char>::empty() =~= kw + seq![' ']
        + comma_list(renumbered_list(nums, m)));
}

} // verus!
