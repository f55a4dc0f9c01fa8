//! The canonical spelling of a decimal literal is stable: spelling it again
//! changes nothing.
use vstd::prelude::*;
use crate::numbers::{
    assembled, canonical_decimal, drop_trailing, incremented, plain_decimal, rounded_parts,
    signed_parts, skip_leading, without_leading_zeros,
};
use crate::text::{all_digits, is_digit};

verus! {

/// A digit string without a superfluous leading zero.
pub open spec fn trimmed_digits(s: Seq<char>) -> bool {
    &&& s.len() > 0
    &&& all_digits(s)
    &&& (s == seq!['0'] || s[0] != '0')
}

proof fn lemma_skip_leading_props(s: Seq<char>, c: char)
    ensures
        skip_leading(s, c).len() > 0 ==> skip_leading(s, c)[0] != c,
        skip_leading(skip_leading(s, c), c) == skip_leading(s, c),
        all_digits(s) ==> all_digits(skip_leading(s, c)),
    decreases s.len(),
{
    if s.len() > 0 && s[0] == c {
        lemma_skip_leading_props(s.drop_first(), c);
        if all_digits(s) {
            assert(all_digits(s.drop_first())) by {
                assert forall|i: int| 0 <= i < s.drop_first().len() implies is_digit(#[trigger] s.drop_first()[i]) by {
                    assert(s.drop_first()[i] == s[i + 1]);
                }
            }
        }
    }
}

proof fn lemma_without_leading_zeros(s: Seq<char>)
    requires
        all_digits(s),
    ensures
        trimmed_digits(without_leading_zeros(s)),
{
    lemma_skip_leading_props(s, '0');
}

proof fn lemma_trimmed_fixed(s: Seq<char>)
    requires
        trimmed_digits(s),
    ensures
        without_leading_zeros(s) == s,
{
    if s == seq!['0'] {
        assert(s.drop_first() =~= Seq::<char>::empty());
        assert(skip_leading(s.drop_first(), '0') == s.drop_first());
    }
}

proof fn lemma_drop_trailing_props(s: Seq<char>, c: char)
    ensures
        drop_trailing(s, c).len() <= s.len(),
        drop_trailing(s, c) == s.subrange(0, drop_trailing(s, c).len() as int),
        drop_trailing(s, c).len() > 0 ==> drop_trailing(s, c).last() != c,
        drop_trailing(drop_trailing(s, c), c) == drop_trailing(s, c),
    decreases s.len(),
{
    if s.len() > 0 && s.last() == c {
        lemma_drop_trailing_props(s.drop_last(), c);
        let r = drop_trailing(s, c);
        assert(s.drop_last().subrange(0, r.len() as int) =~= s.subrange(0, r.len() as int));
    } else {
        assert(s.subrange(0, s.len() as int) =~= s);
    }
}

proof fn lemma_rounded_parts_shape(ip: Seq<char>, frac: Seq<char>)
    requires
        trimmed_digits(ip),
        all_digits(frac),
    ensures
        trimmed_digits(rounded_parts(ip, frac).0),
        all_digits(rounded_parts(ip, frac).1),
        rounded_parts(ip, frac).1.len() <= 14,
{
    if frac.len() > 14 {
        let kept = frac.subrange(0, 14);
        assert(all_digits(kept)) by {
            assert forall|i: int| 0 <= i < kept.len() implies is_digit(#[trigger] kept[i]) by {
                assert(kept[i] == frac[i]);
            }
        }
        let d = ip + kept;
        assert(all_digits(d)) by {
            assert forall|i: int| 0 <= i < d.len() implies is_digit(#[trigger] d[i]) by {
                if i < ip.len() {
                    assert(d[i] == ip[i]);
                } else {
                    assert(d[i] == kept[i - ip.len()]);
                }
            }
        }
        crate::decimal_value::incremented_adds_one(d);
        let inc = incremented(d);
        crate::decimal_value::lemma_incremented_len(d);
        let split = inc.len() - 14;
        let head = inc.subrange(0, split);
        let tail = inc.subrange(split, inc.len() as int);
        assert(all_digits(head)) by {
            assert forall|i: int| 0 <= i < head.len() implies is_digit(#[trigger] head[i]) by {
                assert(head[i] == inc[i]);
            }
        }
        assert(all_digits(tail)) by {
            assert forall|i: int| 0 <= i < tail.len() implies is_digit(#[trigger] tail[i]) by {
                assert(tail[i] == inc[i + split]);
            }
        }
        lemma_without_leading_zeros(head);
    }
}

/// A digit string has no `.`.
proof fn lemma_digits_no_dot(s: Seq<char>)
    requires
        all_digits(s),
    ensures
        forall|j: int| 0 <= j < s.len() ==> s[j] != '.',
{
    assert forall|j: int| 0 <= j < s.len() implies s[j] != '.' by {
        assert(is_digit(s[j]));
    }
}

/// Spelling the literal of `negative`, `ip` and `kept` once more gives it
/// back.
proof fn lemma_assembled_fixed(negative: bool, ip: Seq<char>, kept: Seq<char>)
    requires
        trimmed_digits(ip),
        all_digits(kept),
        kept.len() <= 14,
    ensures
        canonical_decimal(assembled(negative, ip, kept)) == assembled(negative, ip, kept),
{
    let f = drop_trailing(kept, '0');
    lemma_drop_trailing_props(kept, '0');
    assert(all_digits(f)) by {
        assert forall|i: int| 0 <= i < f.len() implies is_digit(#[trigger] f[i]) by {
            assert(f[i] == kept[i]);
        }
    }
    let o = assembled(negative, ip, kept);
    if ip == seq!['0'] && f.len() == 0 {
        assert(o == seq!['0']);
        let z = seq!['0'];
        assert(skip_leading(z, '+') == z);
        assert(forall|j: int| 0 <= j < z.len() ==> z[j] != '.');
        crate::numbers::lemma_first_dot(z, None);
        assert(all_digits(z));
        lemma_trimmed_fixed(z);
        assert(canonical_decimal(o) == assembled(false, z, Seq::<char>::empty()));
        assert(drop_trailing(Seq::<char>::empty(), '0') == Seq::<char>::empty());
    } else {
        let sign = if negative { seq!['-'] } else { Seq::<char>::empty() };
        let dotpart = if f.len() > 0 { seq!['.'] + f } else { Seq::<char>::empty() };
        let unsigned = ip + dotpart;
        assert(o == sign + unsigned);
        assert(o[0] != '+') by {
            if negative {
                assert(o[0] == '-');
            } else {
                assert(o[0] == ip[0]);
                assert(is_digit(ip[0]));
            }
        }
        assert(skip_leading(o, '+') == o);
        assert((o.len() > 0 && o[0] == '-') == negative) by {
            if !negative {
                assert(o[0] == ip[0]);
                assert(is_digit(ip[0]));
            }
        }
        if negative {
            assert(o.drop_first() =~= unsigned);
        } else {
            assert(o =~= unsigned);
        }
        lemma_digits_no_dot(ip);
        if f.len() > 0 {
            assert(unsigned[ip.len() as int] == '.');
            assert forall|j: int| 0 <= j < ip.len() implies unsigned[j] != '.' by {
                assert(unsigned[j] == ip[j]);
            }
            crate::numbers::lemma_first_dot(unsigned, Some(ip.len() as int));
            assert(unsigned.subrange(0, ip.len() as int) =~= ip);
            assert(unsigned.subrange(ip.len() as int + 1, unsigned.len() as int) =~= f);
        } else {
            assert(unsigned =~= ip);
            crate::numbers::lemma_first_dot(unsigned, None);
        }
        let (n2, i2, f2) = signed_parts(o);
        assert(n2 == negative && i2 == ip);
        assert(plain_decimal(i2, f2));
        lemma_trimmed_fixed(ip);
        let frac = match f2 {
            Some(g) => g,
            None => Seq::<char>::empty(),
        };
        assert(frac == f);
        assert(rounded_parts(ip, f) == (ip, f));
        assert(canonical_decimal(o) == assembled(negative, ip, f));
        assert(assembled(negative, ip, f) == o);
    }
}

/// Spelling a literal canonically twice gives what spelling it once gives.
pub proof fn canonical_spelling_is_stable(raw: Seq<char>)
    ensures
        canonical_decimal(canonical_decimal(raw)) == canonical_decimal(raw),
{
    let text = skip_leading(raw, '+');
    lemma_skip_leading_props(raw, '+');
    let (negative, int_raw, frac_raw) = signed_parts(text);
    if !plain_decimal(int_raw, frac_raw) {
        assert(canonical_decimal(raw) == text);
    } else {
        let frac = match frac_raw {
            Some(f) => f,
            None => Seq::<char>::empty(),
        };
        lemma_without_leading_zeros(int_raw);
        lemma_rounded_parts_shape(without_leading_zeros(int_raw), frac);
        let (ip, kept) = rounded_parts(without_leading_zeros(int_raw), frac);
        lemma_assembled_fixed(negative, ip, kept);
    }
}

} // verus!
