use vstd::prelude::*;

use vstd::arithmetic::div_mod::{lemma_fundamental_div_mod, lemma_mod_bound};
use vstd::arithmetic::mul::lemma_mul_inequality;
use vstd::string::StrSliceExecFns;

verus! {

/// Whether the character is an ASCII decimal digit.
pub open spec fn is_ascii_digit(ch: char) -> bool {
    48 <= ch as int <= 57
}

/// The numeric value of an ASCII decimal digit.
pub open spec fn digit_value(ch: char) -> int {
    ch as int - 48
}

/// Every character of the sequence is an ASCII decimal digit.
pub open spec fn all_digits(s: Seq<char>) -> bool {
    forall|i: int| 0 <= i < s.len() ==> is_ascii_digit(#[trigger] s[i])
}

/// The number a digit string denotes, most significant digit first.
pub open spec fn digits_value(s: Seq<char>) -> int
    decreases s.len(),
{
    if s.len() == 0 {
        0
    } else {
        digits_value(s.drop_last()) * 10 + digit_value(s.last())
    }
}

/// What parsing a string as a usize accepts: an optional leading '+', then
/// one or more ASCII decimal digits whose value fits in usize. Anything else
/// (empty input, other characters, overflow) is rejected.
pub open spec fn spec_parse_usize(s: Seq<char>) -> Option<usize> {
    let ds = if s.len() >= 1 && s[0] == '+' {
        s.subrange(1, s.len() as int)
    } else {
        s
    };
    if ds.len() > 0 && all_digits(ds) && digits_value(ds) <= usize::MAX {
        Some(digits_value(ds) as usize)
    } else {
        None
    }
}

proof fn lemma_digits_value_nonneg(s: Seq<char>)
    requires
        all_digits(s),
    ensures
        digits_value(s) >= 0,
    decreases s.len(),
{
    if s.len() > 0 {
        assert(all_digits(s.drop_last())) by {
            assert(forall|i: int|
                0 <= i < s.len() - 1 ==> #[trigger] s.drop_last()[i] == s[i]);
        }
        lemma_digits_value_nonneg(s.drop_last());
    }
}

proof fn lemma_digits_value_prefix_le(s: Seq<char>, k: int)
    requires
        all_digits(s),
        0 <= k <= s.len(),
    ensures
        digits_value(s.take(k)) <= digits_value(s),
    decreases s.len() - k,
{
    if k == s.len() {
        assert(s.take(k) =~= s);
    } else {
        lemma_digits_value_prefix_le(s, k + 1);
        assert(s.take(k + 1).drop_last() =~= s.take(k));
        assert(s.take(k + 1).last() == s[k]);
        assert(all_digits(s.take(k))) by {
            assert(forall|i: int| 0 <= i < k ==> #[trigger] s.take(k)[i] == s[i]);
        }
        lemma_digits_value_nonneg(s.take(k));
        assert(digits_value(s.take(k + 1)) == digits_value(s.take(k)) * 10 + digit_value(s[k]));
        assert(digits_value(s.take(k)) <= digits_value(s.take(k)) * 10 + digit_value(s[k]));
    }
}

/// Parse a whole string as a usize, as the standard parser does for unsigned
/// integers: an optional leading '+', then one or more decimal digits;
/// `None` on anything else or on overflow.
pub fn parse_usize(s: &str) -> (r: Option<usize>)
    ensures
        r == spec_parse_usize(s@),
{
    let n = s.unicode_len();
    let start: usize = if n >= 1 && s.get_char(0) == '+' {
        1
    } else {
        0
    };
    let ghost ds = if s@.len() >= 1 && s@[0] == '+' {
        s@.subrange(1, s@.len() as int)
    } else {
        s@
    };
    assert(ds.len() == n - start);
    if n == start {
        return None;
    }
    let mut acc: usize = 0;
    let mut i: usize = start;
    while i < n
        invariant
            n == s@.len(),
            start <= i <= n,
            start < n,
            start == 0 || start == 1,
            start == 1 <==> (s@.len() >= 1 && s@[0] == '+'),
            ds == (if s@.len() >= 1 && s@[0] == '+' {
                s@.subrange(1, s@.len() as int)
            } else {
                s@
            }),
            ds.len() == n - start,
            forall|j: int| 0 <= j < ds.len() ==> #[trigger] ds[j] == s@[j + start],
            all_digits(ds.take(i - start)),
            acc == digits_value(ds.take(i - start)),
        decreases n - i,
    {
        let ch = s.get_char(i);
        let cv = ch as u32;
        assert(ch == ds[i - start]);
        if cv < 48 || cv > 57 {
            assert(!is_ascii_digit(ds[i - start]));
            assert(!all_digits(ds));
            return None;
        }
        let d = (cv - 48) as usize;
        assert(d == digit_value(ds[i - start]));
        let ghost k = i - start;
        proof {
            assert(ds.take(k + 1).drop_last() =~= ds.take(k));
            assert(ds.take(k + 1).last() == ds[k]);
            assert(digits_value(ds.take(k + 1)) == acc * 10 + d);
            assert(all_digits(ds.take(k + 1))) by {
                assert(forall|j: int|
                    0 <= j < k + 1 ==> #[trigger] ds.take(k + 1)[j] == ds[j]);
            }
        }
        if acc > (usize::MAX - d) / 10 {
            proof {
                lemma_fundamental_div_mod(usize::MAX - d, 10);
                lemma_mod_bound(usize::MAX - d, 10);
                let q = (usize::MAX - d) / 10;
                assert((q + 1) * 10 == q * 10 + 10) by (nonlinear_arith);
                assert((q + 1) * 10 <= acc * 10) by {
                    lemma_mul_inequality(q + 1, acc as int, 10);
                }
                assert(digits_value(ds.take(k + 1)) > usize::MAX);
                if all_digits(ds) {
                    lemma_digits_value_prefix_le(ds, k + 1);
                    assert(digits_value(ds) > usize::MAX);
                }
            }
            return None;
        }
        acc = acc * 10 + d;
        i += 1;
    }
    proof {
        assert(ds.take(n - start) =~= ds);
    }
    Some(acc)
}

/// The value of positional argument `index`: the argument parsed as a usize,
/// or `default` when the argument is absent or does not parse.
pub open spec fn arg_value(args: Seq<Seq<char>>, index: int, default: usize) -> usize {
    if 0 <= index < args.len() {
        match spec_parse_usize(args[index]) {
            Some(v) => v,
            None => default,
        }
    } else {
        default
    }
}

/// Look up and parse a positional command-line argument, falling back to
/// `default` when it is missing or not a number.
pub fn parse_arg(args: &[String], index: usize, default: usize) -> (r: usize)
    ensures
        r == arg_value(args.deep_view(), index as int, default),
{
    proof {
        assert(args.deep_view().len() == args@.len());
    }
    if index < args.len() {
        let s: &String = &args[index];
        proof {
            assert(args.deep_view()[index as int] == args@[index as int]@);
        }
        match parse_usize(s.as_str()) {
            Some(v) => v,
            None => default,
        }
    } else {
        default
    }
}

} // verus!
