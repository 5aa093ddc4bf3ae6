//! Decimal text of integers.
use vstd::prelude::*;

verus! {

/// The decimal digit for `d < 10`.
pub open spec fn spec_decimal_digit(d: nat) -> char {
    (48 + d) as char
}

/// `n` in decimal, without leading zeros.
pub open spec fn spec_decimal(n: nat) -> Seq<char>
    decreases n,
{
    if n < 10 {
        seq![spec_decimal_digit(n)]
    } else {
        spec_decimal(n / 10).push(spec_decimal_digit(n % 10))
    }
}

/// The number that the decimal digits `s` stand for, the most significant
/// first: each character counts for its distance from '0'.
pub open spec fn decimal_value(s: Seq<char>) -> int
    decreases s.len(),
{
    if s.len() == 0 {
        0
    } else {
        decimal_value(s.drop_last()) * 10 + (s.last() as int - '0' as int)
    }
}

/// The decimal text of `n` reads back as `n`: it is a non-empty string of
/// the digits '0' to '9', read in base 10 it gives `n`, and it has no leading
/// zero (unless `n` is 0, which is "0").
pub proof fn lemma_decimal_reads_back(n: nat)
    ensures
        spec_decimal(n).len() >= 1,
        forall|i: int|
            0 <= i < spec_decimal(n).len() ==> '0' as int <= #[trigger] spec_decimal(n)[i] as int
                <= '9' as int,
        decimal_value(spec_decimal(n)) == n,
        n > 0 ==> spec_decimal(n)[0] != '0',
        n == 0 ==> spec_decimal(n) == seq!['0'],
    decreases n,
{
    let s = spec_decimal(n);
    assert('0' as int == 48 && '9' as int == 57);
    if n < 10 {
        assert(s == seq![spec_decimal_digit(n)]);
        assert(s.drop_last() =~= Seq::<char>::empty());
        assert(spec_decimal_digit(n) as int == 48 + n);
        assert(decimal_value(s.drop_last()) == 0);
        assert(decimal_value(s) == decimal_value(s.drop_last()) * 10 + (s.last() as int - '0' as int));
    } else {
        lemma_decimal_reads_back(n / 10);
        let t = spec_decimal(n / 10);
        assert(s == t.push(spec_decimal_digit(n % 10)));
        assert(s.drop_last() =~= t);
        assert(spec_decimal_digit(n % 10) as int == 48 + n % 10);
        assert(s[0] == t[0]);
        assert(decimal_value(s) == decimal_value(t) * 10 + (s.last() as int - '0' as int));
        assert(decimal_value(s) == n);
        assert forall|i: int| 0 <= i < s.len() implies '0' as int <= #[trigger] s[i] as int
            <= '9' as int by {
            if i < t.len() {
                assert(s[i] == t[i]);
            }
        }
    }
}

/// The one-character string of the decimal digit `d < 10`.
fn decimal_digit(d: u64) -> (r: &'static str)
    requires
        d < 10,
    ensures
        r@ == seq![spec_decimal_digit(d as nat)],
{
    match d {
        0 => { proof { reveal_strlit("0"); } "0" },
        1 => { proof { reveal_strlit("1"); } "1" },
        2 => { proof { reveal_strlit("2"); } "2" },
        3 => { proof { reveal_strlit("3"); } "3" },
        4 => { proof { reveal_strlit("4"); } "4" },
        5 => { proof { reveal_strlit("5"); } "5" },
        6 => { proof { reveal_strlit("6"); } "6" },
        7 => { proof { reveal_strlit("7"); } "7" },
        8 => { proof { reveal_strlit("8"); } "8" },
        _ => { proof { reveal_strlit("9"); } "9" },
    }
}

/// Appends `n` in decimal, without leading zeros.
pub fn append_decimal(s: &mut String, n: u64)
    ensures
        final(s)@ == old(s)@ + spec_decimal(n as nat),
    decreases n,
{
    if n >= 10 {
        append_decimal(s, n / 10);
    }
    s.append(decimal_digit(n % 10));
    assert(final(s)@ =~= old(s)@ + spec_decimal(n as nat));
}

} // verus!
