//! The 17-bit noise generator of the CPC-style synthesiser, and its jump
//! ahead by any number of steps for a renderer that was silent.
use vstd::prelude::*;
use vstd::arithmetic::div_mod::{lemma_div_denominator, lemma_mod_breakdown};

verus! {

/// One step of the linear-feedback shift register.
pub open spec fn register_step(state: u32) -> u32 {
    (state >> 1u32) | (((state ^ (state >> 3u32)) & 1u32) << 16u32)
}

/// The state after `n` steps.
pub open spec fn noise_after(state: u32, n: nat) -> u32
    decreases n,
{
    if n == 0 {
        state
    } else {
        noise_after(register_step(state), (n - 1) as nat)
    }
}

pub open spec fn two_to(n: nat) -> nat
    decreases n,
{
    if n == 0 {
        1
    } else {
        2 * two_to((n - 1) as nat)
    }
}

/// The bits of `state` below bit `b`.
pub open spec fn low_bits(state: u32, b: u32) -> u32 {
    state & (((1u32 << b) - 1u32) as u32)
}

/// The XOR of the columns `t[k]` for the set bits `k < b` of `state`: the
/// linear map `t` applied to those bits.
pub open spec fn xor_apply(t: Seq<u32>, state: u32, b: nat) -> u32
    decreases b,
{
    if b == 0 {
        0
    } else {
        let k = (b - 1) as nat;
        xor_apply(t, state, k) ^ (if state & (1u32 << (k as u32)) != 0 { t[k as int] } else { 0 })
    }
}

/// The state that advancing by `steps` gives: the jump beyond 64 steps
/// reads the seventeen bits of the register alone.
pub open spec fn advanced(state: u32, steps: u64) -> u32 {
    if steps <= 64 {
        noise_after(state, steps as nat)
    } else {
        noise_after(state & 0x1ffff, steps as nat)
    }
}

/// The column of the register's jump by `2^p` steps for bit `b`.
pub open spec fn jump_column(p: nat, b: int) -> u32 {
    noise_after(1u32 << (b as u32), two_to(p))
}

proof fn lemma_step_linear(a: u32, b: u32)
    requires
        a < 0x20000,
        b < 0x20000,
    ensures
        register_step(a ^ b) == register_step(a) ^ register_step(b),
        register_step(a) < 0x20000,
        a ^ b < 0x20000,
        register_step(0) == 0,
{
    assert(((a ^ b) >> 1u32) | ((((a ^ b) ^ ((a ^ b) >> 3u32)) & 1u32) << 16u32) == (((a >> 1u32) | (((a ^ (a >> 3u32)) & 1u32) << 16u32)) ^ ((b >> 1u32) | (((b ^ (b >> 3u32)) & 1u32) << 16u32)))) by (bit_vector)
        requires
            a < 0x20000,
            b < 0x20000,
    ;
    assert(((a >> 1u32) | (((a ^ (a >> 3u32)) & 1u32) << 16u32)) < 0x20000) by (bit_vector)
        requires
            a < 0x20000,
    ;
    assert(a ^ b < 0x20000) by (bit_vector)
        requires
            a < 0x20000,
            b < 0x20000,
    ;
    assert(((0u32 >> 1u32) | (((0u32 ^ (0u32 >> 3u32)) & 1u32) << 16u32)) == 0u32) by (bit_vector);
}

proof fn lemma_after_linear(a: u32, b: u32, n: nat)
    requires
        a < 0x20000,
        b < 0x20000,
    ensures
        noise_after(a ^ b, n) == noise_after(a, n) ^ noise_after(b, n),
        noise_after(a, n) < 0x20000,
        noise_after(0, n) == 0,
    decreases n,
{
    lemma_step_linear(a, b);
    lemma_step_linear(b, a);
    if n > 0 {
        lemma_step_linear(register_step(a), register_step(b));
        lemma_after_linear(register_step(a), register_step(b), (n - 1) as nat);
    }
}

proof fn lemma_after_add(s: u32, a: nat, b: nat)
    ensures
        noise_after(noise_after(s, a), b) == noise_after(s, a + b),
    decreases a,
{
    if a > 0 {
        lemma_after_add(register_step(s), (a - 1) as nat, b);
    }
}

/// Applying the columns of `k` steps to the low bits of a state steps them.
proof fn lemma_xor_apply(t: Seq<u32>, s: u32, k: nat, b: nat)
    requires
        b <= 17,
        t.len() == 17,
        forall|j: int| 0 <= j < 17 ==> #[trigger] t[j] == noise_after(1u32 << (j as u32), k),
    ensures
        xor_apply(t, s, b) == noise_after(low_bits(s, b as u32), k),
        low_bits(s, b as u32) < 0x20000,
    decreases b,
{
    let bb = b as u32;
    assert(low_bits(s, bb) < 0x20000) by (bit_vector)
        requires
            bb <= 17,
    ;
    if b == 0 {
        assert(low_bits(s, 0) == 0) by (bit_vector);
        lemma_after_linear(0, 0, k);
    } else {
        let j = (b - 1) as nat;
        let jj = j as u32;
        lemma_xor_apply(t, s, k, j);
        let low = low_bits(s, jj);
        let bit = if s & (1u32 << jj) != 0 { 1u32 << jj } else { 0 };
        assert(low_bits(s, (jj + 1) as u32) == low ^ bit) by (bit_vector)
            requires
                jj < 17,
                low == s & (((1u32 << jj) - 1u32) as u32),
                bit == (if s & (1u32 << jj) != 0 { 1u32 << jj } else { 0 }),
        ;
        assert(bit < 0x20000) by (bit_vector)
            requires
                jj < 17,
                bit == (if s & (1u32 << jj) != 0 { 1u32 << jj } else { 0 }),
        ;
        lemma_after_linear(low, bit, k);
        lemma_after_linear(0, 0, k);
        assert(t[j as int] == noise_after(1u32 << jj, k));
    }
}

/// One step of the noise register.
pub fn noise_step(state: u32) -> (r: u32)
    ensures
        r == register_step(state),
{
    (state >> 1u32) | (((state ^ (state >> 3u32)) & 1u32) << 16u32)
}

/// The columns `t` applied to the seventeen low bits of `state`.
fn transform_noise(t: &Vec<u32>, state: u32) -> (r: u32)
    requires
        t@.len() == 17,
    ensures
        r == xor_apply(t@, state, 17),
{
    let mut result: u32 = 0;
    let mut bit: u32 = 0;
    while bit < 17
        invariant
            bit <= 17,
            t@.len() == 17,
            result == xor_apply(t@, state, bit as nat),
        decreases 17 - bit,
    {
        proof {
            assert(xor_apply(t@, state, (bit + 1) as nat) == xor_apply(t@, state, bit as nat) ^ (if state & (1u32 << bit) != 0 {
                t@[bit as int]
            } else {
                0
            }));
            assert(result ^ 0u32 == result) by (bit_vector);
        }
        if state & (1u32 << bit) != 0 {
            result = result ^ t[bit as usize];
        }
        bit += 1;
    }
    result
}

/// The columns of the jumps by 1, 2, 4, ... 2^63 steps.
fn noise_transforms() -> (r: Vec<Vec<u32>>)
    ensures
        r@.len() == 64,
        forall|p: int| 0 <= p < 64 ==> (#[trigger] r@[p])@.len() == 17,
        forall|p: int, b: int| 0 <= p < 64 && 0 <= b < 17 ==> #[trigger] r@[p]@[b] == jump_column(p as nat, b),
{
    let mut rows: Vec<Vec<u32>> = Vec::new();
    let mut first: Vec<u32> = Vec::new();
    let mut bit: u32 = 0;
    while bit < 17
        invariant
            bit <= 17,
            first@.len() == bit,
            forall|b: int| 0 <= b < bit ==> #[trigger] first@[b] == jump_column(0, b),
        decreases 17 - bit,
    {
        proof {
            assert(two_to(0) == 1);
            assert(noise_after(register_step(1u32 << bit), 0) == register_step(1u32 << bit));
        }
        first.push(noise_step(1u32 << bit));
        bit += 1;
    }
    rows.push(first);
    let mut power: usize = 1;
    while power < 64
        invariant
            1 <= power <= 64,
            rows@.len() == power,
            forall|p: int| 0 <= p < power ==> (#[trigger] rows@[p])@.len() == 17,
            forall|p: int, b: int| 0 <= p < power && 0 <= b < 17 ==> #[trigger] rows@[p]@[b] == jump_column(p as nat, b),
        decreases 64 - power,
    {
        let mut row: Vec<u32> = Vec::new();
        let mut bit: u32 = 0;
        let ghost q = (power - 1) as nat;
        let ghost prev = rows@[power - 1]@;
        assert forall|j: int| 0 <= j < 17 implies #[trigger] prev[j] == noise_after(1u32 << (j as u32), two_to(q)) by {
            assert(prev[j] == jump_column(q, j));
        }
        while bit < 17
            invariant
                bit <= 17,
                1 <= power < 64,
                rows@.len() == power,
                q == power - 1,
                prev == rows@[power - 1]@,
                prev.len() == 17,
                forall|j: int| 0 <= j < 17 ==> #[trigger] prev[j] == noise_after(1u32 << (j as u32), two_to(q)),
                row@.len() == bit,
                forall|b: int| 0 <= b < bit ==> #[trigger] row@[b] == jump_column(power as nat, b),
            decreases 17 - bit,
        {
            let column = rows[power - 1][bit as usize];
            let v = transform_noise(&rows[power - 1], column);
            proof {
                let one = 1u32 << bit;
                assert(one < 0x20000) by (bit_vector)
                    requires
                        bit < 17,
                        one == 1u32 << bit,
                ;
                lemma_after_linear(one, 0, two_to(q));
                lemma_after_linear(one, one, two_to(q));
                assert(column == noise_after(one, two_to(q)));
                assert(column < 0x20000);
                lemma_xor_apply(prev, column, two_to(q), 17);
                assert(low_bits(column, 17) == column) by (bit_vector)
                    requires
                        column < 0x20000,
                ;
                lemma_after_add(one, two_to(q), two_to(q));
                assert(two_to(power as nat) == two_to(q) + two_to(q));
            }
            row.push(v);
            bit += 1;
        }
        rows.push(row);
        power += 1;
    }
    rows
}

/// The noise state after `steps` steps: stepped one at a time up to 64
/// steps, jumped by powers of two beyond, which reads the seventeen bits of
/// the register alone.
pub fn advance_noise(state: u32, steps: u64) -> (r: u32)
    ensures
        r == advanced(state, steps),
{
    if steps <= 64 {
        let mut s = state;
        let mut i: u64 = 0;
        while i < steps
            invariant
                i <= steps,
                s == noise_after(state, i as nat),
            decreases steps - i,
        {
            proof {
                lemma_after_add(state, i as nat, 1);
                assert(noise_after(s, 1) == noise_after(register_step(s), 0));
            }
            s = noise_step(s);
            i += 1;
        }
        return s;
    }
    let table = noise_transforms();
    let start = state & 0x1ffffu32;
    let mut acc = start;
    let mut rest = steps;
    let mut power: usize = 0;
    assert(start < 0x20000) by (bit_vector)
        requires
            start == state & 0x1ffffu32,
    ;
    assert(steps as int % 1 == 0);
    assert(steps as int / 1 == steps);
    while rest != 0
        invariant
            power <= 64,
            table@.len() == 64,
            forall|p: int| 0 <= p < 64 ==> (#[trigger] table@[p])@.len() == 17,
            forall|p: int, b: int| 0 <= p < 64 && 0 <= b < 17 ==> #[trigger] table@[p]@[b] == jump_column(p as nat, b),
            start < 0x20000,
            rest as int == steps as int / two_to(power as nat) as int,
            acc == noise_after(start, (steps as int % two_to(power as nat) as int) as nat),
            acc < 0x20000,
        decreases 64 - power,
    {
        proof {
            lemma_two_to_bound(power as nat);
            if power == 64 {
                assert(steps as int / two_to(64) as int == 0) by (nonlinear_arith)
                    requires
                        0 <= steps as int,
                        steps as int <= u64::MAX,
                        two_to(64) as int > u64::MAX,
                ;
            }
        }
        let ghost p = power as nat;
        let ghost pw = two_to(p) as int;
        let ghost low = steps as int % pw;
        proof {
            lemma_mod_breakdown(steps as int, pw, 2);
            lemma_div_denominator(steps as int, pw, 2);
            assert(two_to(p + 1) == 2 * two_to(p));
            assert(rest & 1 != 0 <==> rest % 2 == 1) by (bit_vector);
            assert(0 <= low < pw) by (nonlinear_arith)
                requires
                    pw >= 1,
                    low == steps as int % pw,
            ;
        }
        if rest & 1 != 0 {
            let before = acc;
            acc = transform_noise(&table[power], acc);
            proof {
                let cols = table@[power as int]@;
                assert forall|j: int| 0 <= j < 17 implies #[trigger] cols[j] == noise_after(1u32 << (j as u32), two_to(p)) by {
                    assert(cols[j] == jump_column(p, j));
                }
                lemma_xor_apply(cols, before, two_to(p), 17);
                assert(low_bits(before, 17) == before) by (bit_vector)
                    requires
                        before < 0x20000,
                ;
                lemma_after_add(start, low as nat, pw as nat);
                lemma_after_linear(start, start, (low + pw) as nat);
                assert(steps as int % (pw * 2) == low + pw);
            }
        } else {
            assert(rest % 2 == 0);
            assert((steps as int / pw) % 2 == 0);
            assert(pw * ((steps as int / pw) % 2) == 0);
            assert(steps as int % (pw * 2) == low);
        }
        let ghost r0 = rest;
        rest = rest >> 1;
        proof {
            assert(rest == r0 / 2) by (bit_vector)
                requires
                    rest == r0 >> 1,
            ;
        }
        power += 1;
    }
    proof {
        lemma_two_to_bound(power as nat);
        assert(steps as int % two_to(power as nat) as int == steps as int) by (nonlinear_arith)
            requires
                steps as int / two_to(power as nat) as int == 0,
                two_to(power as nat) > 0,
                steps >= 0,
        ;
    }
    acc
}

proof fn lemma_two_to_bound(n: nat)
    ensures
        two_to(n) >= 1,
        n >= 64 ==> two_to(n) > u64::MAX,
    decreases n,
{
    if n > 0 {
        lemma_two_to_bound((n - 1) as nat);
        if n == 64 {
            assert(two_to(64) == 18446744073709551616) by {
                reveal_with_fuel(two_to, 65);
            }
        } else if n > 64 {
            assert(two_to(n) == 2 * two_to((n - 1) as nat));
        }
    }
}

/// Jumping the register ahead gives the state that stepping it one step at
/// a time gives, for any register state and number of steps.
pub proof fn noise_jump_matches_stepping(state: u32, steps: u64)
    requires
        state < 0x20000,
    ensures
        advanced(state, steps) == noise_after(state, steps as nat),
{
    assert(state & 0x1ffff == state) by (bit_vector)
        requires
            state < 0x20000,
    ;
}

} // verus!
