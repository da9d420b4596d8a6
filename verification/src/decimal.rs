//! Port numbers as decimal text: the digits a node writes in front of a
//! broadcast line, and the parser that reads them back as `u16::from_str` does.
use vstd::prelude::*;

verus! {

/// The ASCII code of `'0'`.
pub open spec fn zero_byte() -> int {
    48
}

/// `b` is one of the ASCII digits `'0'..='9'`.
pub open spec fn is_digit(b: u8) -> bool {
    48 <= b <= 57
}

/// Every byte of `s` is an ASCII digit.
pub open spec fn all_digits(s: Seq<u8>) -> bool {
    forall|i: int| 0 <= i < s.len() ==> is_digit(#[trigger] s[i])
}

/// The number that the digit string `s` denotes (leading zeros allowed).
pub open spec fn digits_value(s: Seq<u8>) -> nat
    decreases s.len(),
{
    if s.len() == 0 {
        0
    } else {
        digits_value(s.drop_last()) * 10 + (s.last() - zero_byte()) as nat
    }
}

/// What `u16::from_str` returns on the text `s`: an optional `'+'`, then one
/// or more ASCII digits whose value fits in a `u16`; anything else is an error.
pub open spec fn spec_parse_u16(s: Seq<u8>) -> Option<u16> {
    let digits = if s.len() > 0 && s[0] == 43u8 {
        s.drop_first()
    } else {
        s
    };
    if digits.len() > 0 && all_digits(digits) && digits_value(digits) <= u16::MAX {
        Some(digits_value(digits) as u16)
    } else {
        None
    }
}

/// The shortest decimal text of `n`, as `format!("{}", n)` writes it.
pub open spec fn decimal(n: nat) -> Seq<u8>
    decreases n,
{
    if n < 10 {
        seq![(n + zero_byte()) as u8]
    } else {
        decimal(n / 10).push(((n % 10) + zero_byte()) as u8)
    }
}

/// The decimal text of a number is a nonempty digit string that denotes it.
pub proof fn lemma_decimal(n: nat)
    ensures
        decimal(n).len() > 0,
        all_digits(decimal(n)),
        digits_value(decimal(n)) == n,
    decreases n,
{
    if n < 10 {
        let d = decimal(n);
        assert(d.drop_last() =~= Seq::<u8>::empty());
        assert(d.last() == (n + 48) as u8);
        assert(digits_value(d) == digits_value(d.drop_last()) * 10 + (d.last() - 48) as nat);
    } else {
        lemma_decimal(n / 10);
        let d = decimal(n);
        assert(d.drop_last() =~= decimal(n / 10));
        assert(d.last() == ((n % 10) + 48) as u8);
        assert(digits_value(d) == digits_value(d.drop_last()) * 10 + (d.last() - 48) as nat);
        assert(n == (n / 10) * 10 + n % 10);
        assert forall|i: int| 0 <= i < d.len() implies is_digit(#[trigger] d[i]) by {
            if i < d.len() - 1 {
                assert(d[i] == decimal(n / 10)[i]);
            }
        }
    }
}

/// Reading back the decimal text of a `u16` gives the same number.
pub proof fn lemma_parse_decimal(n: u16)
    ensures
        spec_parse_u16(decimal(n as nat)) == Some(n),
{
    lemma_decimal(n as nat);
    assert(is_digit(decimal(n as nat)[0]));
}

/// The value of a digit string is at least the value of any of its prefixes.
pub proof fn lemma_prefix_value(s: Seq<u8>, k: int)
    requires
        0 <= k <= s.len(),
        all_digits(s),
    ensures
        digits_value(s.subrange(0, k)) <= digits_value(s),
    decreases s.len(),
{
    if k < s.len() {
        let t = s.drop_last();
        assert(all_digits(t)) by {
            assert forall|i: int| 0 <= i < t.len() implies is_digit(#[trigger] t[i]) by {
                assert(t[i] == s[i]);
            }
        }
        lemma_prefix_value(t, k);
        assert(t.subrange(0, k) =~= s.subrange(0, k));
        assert(is_digit(s.last()));
    } else {
        assert(s.subrange(0, k) =~= s);
    }
}

/// Appends the decimal text of `n` to `out`.
pub fn push_decimal(n: u16, out: &mut Vec<u8>)
    ensures
        final(out)@ == old(out)@ + decimal(n as nat),
    decreases n,
{
    if n < 10 {
        out.push(n as u8 + 48);
    } else {
        push_decimal(n / 10, out);
        out.push((n % 10) as u8 + 48);
        proof {
            assert(decimal(n as nat) == decimal((n / 10) as nat).push(((n % 10) + 48) as u8));
        }
    }
}

/// The decimal text of a port number, such as `b"1248"` for 1248.
pub fn format_port(n: u16) -> (text: Vec<u8>)
    ensures
        text@ == decimal(n as nat),
{
    let mut out: Vec<u8> = Vec::new();
    push_decimal(n, &mut out);
    assert(out@ =~= decimal(n as nat));
    out
}

/// Parses a port number as `str::parse::<u16>` does: an optional `'+'`, then
/// ASCII digits whose value is at most 65535. `None` for anything else.
pub fn parse_port(s: &[u8]) -> (port: Option<u16>)
    ensures
        port == spec_parse_u16(s@),
{
    let len = s.len();
    let mut start: usize = 0;
    if len > 0 && s[0] == 43u8 {
        start = 1;
    }
    let ghost digits = if s@.len() > 0 && s@[0] == 43u8 {
        s@.drop_first()
    } else {
        s@
    };
    assert(digits =~= s@.subrange(start as int, len as int));
    if start == len {
        return None;
    }
    let mut value: u32 = 0;
    let mut i: usize = start;
    while i < len
        invariant
            start <= i <= len,
            len == s@.len(),
            start < len,
            digits == s@.subrange(start as int, len as int),
            digits == (if s@.len() > 0 && s@[0] == 43u8 {
                s@.drop_first()
            } else {
                s@
            }),
            all_digits(s@.subrange(start as int, i as int)),
            value as nat == digits_value(s@.subrange(start as int, i as int)),
            value <= 65535,
        decreases len - i,
    {
        let b = s[i];
        let ghost prefix = s@.subrange(start as int, i as int);
        let ghost next = s@.subrange(start as int, i + 1);
        assert(next.drop_last() =~= prefix);
        assert(next.last() == b);
        if b < 48 || b > 57 {
            assert(!all_digits(digits)) by {
                assert(digits[i - start] == b);
            }
            assert(spec_parse_u16(s@) is None);
            return None;
        }
        assert(all_digits(next)) by {
            assert forall|j: int| 0 <= j < next.len() implies is_digit(#[trigger] next[j]) by {
                if j < prefix.len() {
                    assert(next[j] == prefix[j]);
                }
            }
        }
        value = value * 10 + (b - 48) as u32;
        assert(value as nat == digits_value(next));
        if value > 65535 {
            proof {
                if all_digits(digits) {
                    lemma_prefix_value(digits, (i + 1 - start) as int);
                    assert(digits.subrange(0, (i + 1 - start) as int) =~= next);
                }
            }
            assert(spec_parse_u16(s@) is None);
            return None;
        }
        i = i + 1;
    }
    assert(s@.subrange(start as int, len as int) =~= digits);
    Some(value as u16)
}

} // verus!
