use vstd::arithmetic::div_mod::{lemma_div_pos_is_pos, lemma_fundamental_div_mod};
use vstd::prelude::*;

verus! {

/// The decimal digits of `n` in ASCII, most significant first.
pub open spec fn decimal(n: nat) -> Seq<u8>
    decreases n,
{
    if n < 10 {
        seq![(48 + n) as u8]
    } else {
        decimal(n / 10).push((48 + n % 10) as u8)
    }
}

/// Appends the decimal digits of `n` in ASCII to `out`.
pub fn push_decimal(out: &mut Vec<u8>, n: usize)
    ensures
        final(out)@ == old(out)@ + decimal(n as nat),
        digits_value(final(out)@.subrange(old(out)@.len() as int, final(out)@.len() as int)) == n,
    decreases n,
{
    if n >= 10 {
        push_decimal(out, n / 10);
    }
    let digit = (n % 10) as u8;
    out.push(48 + digit);
    proof {
        if n >= 10 {
            assert(decimal(n as nat) == decimal((n / 10) as nat).push((48 + n % 10) as u8));
        }
        lemma_decimal_reads_back(n as nat);
        assert(out@.subrange(old(out)@.len() as int, out@.len() as int) == decimal(n as nat));
    }
}

/// The number written by the ASCII decimal digits `s`, most significant first.
pub open spec fn digits_value(s: Seq<u8>) -> int
    decreases s.len(),
{
    if s.len() == 0 {
        0
    } else {
        digits_value(s.drop_last()) * 10 + (s.last() - 48)
    }
}

/// The digits written for `n` are ASCII decimal digits without a leading zero (unless `n` is
/// zero), and they read back as `n`.
pub proof fn lemma_decimal_reads_back(n: nat)
    ensures
        decimal(n).len() >= 1,
        forall|i: int| 0 <= i < decimal(n).len() ==> 48 <= #[trigger] decimal(n)[i] <= 57,
        n != 0 ==> decimal(n)[0] != 48,
        digits_value(decimal(n)) == n,
    decreases n,
{
    if n >= 10 {
        let q = n / 10;
        lemma_div_pos_is_pos(n as int, 10);
        lemma_decimal_reads_back(q as nat);
        let d = decimal(q as nat);
        let e = decimal(n);
        assert(e == d.push((48 + n % 10) as u8));
        assert(e.drop_last() == d);
        assert forall|i: int| 0 <= i < e.len() implies 48 <= #[trigger] e[i] <= 57 by {
            if i < d.len() {
                assert(e[i] == d[i]);
            }
        }
        assert(q != 0);
        assert(e[0] == d[0]);
        lemma_fundamental_div_mod(n as int, 10);
        assert(0 <= n % 10 < 10);
        assert(((48 + n % 10) as u8) as int == 48 + n % 10);
        assert(digits_value(e) == digits_value(d) * 10 + (e.last() - 48));
    } else {
        let e = decimal(n);
        assert(((48 + n) as u8) as int == 48 + n);
        assert(e.drop_last() == Seq::<u8>::empty());
        assert(digits_value(e) == digits_value(e.drop_last()) * 10 + (e.last() - 48));
    }
}

} // verus!
