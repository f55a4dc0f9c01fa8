//! What incrementing does to the value of a digit string, through the
//! value of a concatenation of digit strings.
use vstd::prelude::*;
use crate::numbers::{incremented, next_digit, trailing_nines, zeros};
use crate::text::{all_digits, digits_value, is_digit};

verus! {

/// `10` to the power `n`.
pub open spec fn pow10(n: nat) -> nat
    decreases n,
{
    if n == 0 {
        1
    } else {
        10 * pow10((n - 1) as nat)
    }
}

proof fn lemma_pow10_positive(n: nat)
    ensures
        pow10(n) >= 1,
    decreases n,
{
    if n > 0 {
        lemma_pow10_positive((n - 1) as nat);
    }
}

/// The value of a concatenation of digit strings.
proof fn lemma_digits_value_concat(a: Seq<char>, b: Seq<char>)
    ensures
        digits_value(a + b) == digits_value(a) * pow10(b.len()) + digits_value(b),
    decreases b.len(),
{
    if b.len() == 0 {
        assert(a + b =~= a);
        assert(pow10(0) == 1);
        assert(digits_value(b) == 0);
        assert(digits_value(a) * 1 == digits_value(a));
    } else {
        let b1 = b.drop_last();
        assert((a + b).drop_last() =~= a + b1);
        assert((a + b).last() == b.last());
        lemma_digits_value_concat(a, b1);
        let x = digits_value(a);
        let p1 = pow10(b1.len());
        let y = digits_value(b1);
        let l = b.last() as int - '0' as int;
        assert(pow10(b.len()) == 10 * p1);
        assert(digits_value(a + b) == digits_value(a + b1) * 10 + l);
        assert(digits_value(b) == y * 10 + l);
        assert((x * p1 + y) * 10 == x * (10 * p1) + y * 10) by (nonlinear_arith);
    }
}

proof fn lemma_zeros_value(n: nat)
    ensures
        digits_value(zeros(n)) == 0,
    decreases n,
{
    if n > 0 {
        assert(zeros(n).drop_last() =~= zeros((n - 1) as nat));
        lemma_zeros_value((n - 1) as nat);
    }
}

proof fn lemma_nines_value(d: Seq<char>)
    requires
        forall|j: int| 0 <= j < d.len() ==> d[j] == '9',
    ensures
        digits_value(d) == pow10(d.len()) - 1,
    decreases d.len(),
{
    if d.len() > 0 {
        lemma_nines_value(d.drop_last());
    }
}

proof fn lemma_trailing_nines_are_nines(d: Seq<char>)
    ensures
        trailing_nines(d) <= d.len(),
        forall|j: int| d.len() - trailing_nines(d) <= j < d.len() ==> d[j] == '9',
        trailing_nines(d) < d.len() ==> d[d.len() - trailing_nines(d) - 1] != '9',
    decreases d.len(),
{
    if d.len() > 0 && d.last() == '9' {
        let p = d.drop_last();
        lemma_trailing_nines_are_nines(p);
        assert forall|j: int| d.len() - trailing_nines(d) <= j < d.len() implies d[j] == '9' by {
            if j < d.len() - 1 {
                assert(d[j] == p[j]);
            }
        }
        if trailing_nines(d) < d.len() {
            assert(d[d.len() - trailing_nines(d) - 1] == p[p.len() - trailing_nines(p) - 1]);
        }
    }
}

/// Incrementing a digit string adds one to its value.
pub proof fn incremented_adds_one(d: Seq<char>)
    requires
        all_digits(d),
    ensures
        all_digits(incremented(d)),
        digits_value(incremented(d)) == digits_value(d) + 1,
{
    let t = trailing_nines(d);
    lemma_trailing_nines_are_nines(d);
    let n = d.len() - t;
    let tail = d.subrange(n as int, d.len() as int);
    assert forall|j: int| 0 <= j < tail.len() implies tail[j] == '9' by {}
    lemma_nines_value(tail);
    lemma_zeros_value(t);
    lemma_pow10_positive(t);
    let inc = incremented(d);
    if t == d.len() {
        assert(tail =~= d);
        lemma_digits_value_concat(seq!['1'], zeros(t));
        assert(digits_value(seq!['1']) == 1) by {
            assert(seq!['1'].drop_last() =~= Seq::<char>::empty());
            assert(digits_value(Seq::<char>::empty()) == 0);
        }
        assert forall|j: int| 0 <= j < inc.len() implies is_digit(#[trigger] inc[j]) by {
            if j > 0 {
                assert(inc[j] == zeros(t)[j - 1]);
            }
        }
    } else {
        let k = n - 1;
        let head = d.subrange(0, k);
        let x = d[k];
        let bumped = head.push(next_digit(x));
        assert(d =~= head.push(x) + tail);
        lemma_digits_value_concat(head.push(x), tail);
        lemma_digits_value_concat(bumped, zeros(t));
        assert(head.push(x).drop_last() =~= head);
        assert(bumped.drop_last() =~= head);
        assert(is_digit(x));
        assert(x != '9');
        assert(next_digit(x) as int == x as int + 1);
        let v = digits_value(head.push(x));
        let p = pow10(t);
        assert(digits_value(bumped) == v + 1);
        assert((v + 1) * p == v * p + p) by (nonlinear_arith);
        assert forall|j: int| 0 <= j < inc.len() implies is_digit(#[trigger] inc[j]) by {
            if j < k {
                assert(inc[j] == d[j]);
            } else if j == k {
                assert(inc[j] == next_digit(x));
            } else {
                assert(inc[j] == zeros(t)[j - k - 1]);
            }
        }
    }
}

/// Incrementing keeps the length, or adds a digit when every digit was a 9.
pub proof fn lemma_incremented_len(d: Seq<char>)
    ensures
        incremented(d).len() >= d.len(),
{
    lemma_trailing_nines_are_nines(d);
}

} // verus!
