//! Decimal vertex tokens: the specification of what a numeric-mode token
//! means, a verified parser, and a verified renderer for display names.

use vstd::prelude::*;

verus! {

use vstd::string::StringSliceAdditionalSpecFns;

/// Error returned when a numeric-mode token is not a valid vertex index:
/// it is empty, holds a byte that is not a decimal digit, or denotes a
/// value too large for `usize`.
#[derive(Clone, Copy, Debug, PartialEq, Eq)]
pub struct ParseError;

/// The byte is an ASCII decimal digit.
pub open spec fn is_digit_byte(b: u8) -> bool {
    0x30 <= b && b <= 0x39
}

/// Every byte of the sequence is an ASCII decimal digit.
pub open spec fn all_digits(s: Seq<u8>) -> bool {
    forall|i: int| 0 <= i < s.len() ==> is_digit_byte(#[trigger] s[i])
}

/// The value denoted by a sequence of ASCII digit bytes, most significant
/// first. (On bytes that are not digits the summands may be negative; the
/// function is only of interest under `all_digits`.)
pub open spec fn digits_value(s: Seq<u8>) -> int
    decreases s.len(),
{
    if s.len() == 0 {
        0
    } else {
        digits_value(s.drop_last()) * 10 + (s.last() - 0x30)
    }
}

/// The digit portion of a token: everything after an optional leading `+`.
pub open spec fn digits_part(s: Seq<u8>) -> Seq<u8> {
    if s.len() > 0 && s[0] == 0x2b {
        s.subrange(1, s.len() as int)
    } else {
        s
    }
}

/// A token (as UTF-8 bytes) is a valid vertex index: an optional `+`
/// followed by one or more decimal digits whose value fits in `usize`.
pub open spec fn valid_index_token(s: Seq<u8>) -> bool {
    let d = digits_part(s);
    d.len() > 0 && all_digits(d) && digits_value(d) <= usize::MAX
}

pub proof fn lemma_digits_value_nonneg(s: Seq<u8>)
    requires
        all_digits(s),
    ensures
        digits_value(s) >= 0,
    decreases s.len(),
{
    if s.len() > 0 {
        assert(all_digits(s.drop_last()));
        lemma_digits_value_nonneg(s.drop_last());
    }
}

/// Appending digits never decreases the denoted value: the value of a
/// prefix of an all-digit sequence is a lower bound for the whole.
pub proof fn lemma_digits_value_prefix(s: Seq<u8>, k: int)
    requires
        all_digits(s),
        0 <= k <= s.len(),
    ensures
        digits_value(s.subrange(0, k)) <= digits_value(s),
    decreases s.len() - k,
{
    if k == s.len() {
        assert(s.subrange(0, k) =~= s);
    } else {
        lemma_digits_value_prefix(s, k + 1);
        let p = s.subrange(0, k + 1);
        assert(p.drop_last() =~= s.subrange(0, k));
        assert(p.last() == s[k]);
        assert(all_digits(s.subrange(0, k)));
        lemma_digits_value_nonneg(s.subrange(0, k));
        assert(digits_value(s.subrange(0, k)) <= digits_value(p));
    }
}

/// The decimal digit bytes of `n`, most significant first, with no sign
/// and no leading zero (a single `0` digit for zero).
pub open spec fn decimal_bytes(n: int) -> Seq<u8>
    recommends
        n >= 0,
    decreases n,
{
    if n < 10 {
        seq![(0x30 + n) as u8]
    } else {
        decimal_bytes(n / 10).push((0x30 + n % 10) as u8)
    }
}

/// The decimal rendering of an index is all digits, nonempty, denotes
/// the index itself, and so is a valid numeric-mode token: rendering and
/// parsing are mutually inverse on vertex indices.
pub proof fn lemma_decimal_round_trip(n: int)
    requires
        0 <= n <= usize::MAX,
    ensures
        all_digits(decimal_bytes(n)),
        decimal_bytes(n).len() > 0,
        digits_value(decimal_bytes(n)) == n,
        valid_index_token(decimal_bytes(n)),
    decreases n,
{
    let s = decimal_bytes(n);
    if n < 10 {
        assert(s == seq![(0x30 + n) as u8]);
        assert(s.len() == 1);
        assert(s[0] == (0x30 + n) as u8);
        assert(s[0] as int == 0x30 + n);
        assert(s.last() == s[0]);
        assert(s.drop_last() =~= Seq::<u8>::empty());
        assert(digits_value(s.drop_last()) == 0);
        assert(digits_value(s) == digits_value(s.drop_last()) * 10 + (s.last() - 0x30));
        assert(digits_value(s) == n);
    } else {
        lemma_decimal_round_trip(n / 10);
        assert(decimal_bytes(n) == decimal_bytes(n / 10).push((0x30 + n % 10) as u8));
        assert(s.drop_last() =~= decimal_bytes(n / 10));
        assert(0 <= n % 10 < 10);
        assert(s.last() == (0x30 + n % 10) as u8);
        assert(s.last() as int == 0x30 + n % 10);
        assert(s.len() > 0);
        assert(digits_value(s) == digits_value(s.drop_last()) * 10 + (s.last() - 0x30));
        assert(digits_value(s.drop_last()) == n / 10);
        vstd::arithmetic::div_mod::lemma_fundamental_div_mod(n, 10);
        assert(digits_value(s) == (n / 10) * 10 + n % 10);
        assert forall|i: int| 0 <= i < s.len() implies is_digit_byte(#[trigger] s[i]) by {
            if i < s.len() - 1 {
                assert(s[i] == decimal_bytes(n / 10)[i]);
            }
        }
    }
    assert(s[0] != 0x2b);
    assert(digits_part(s) == s);
}

/// Relies on String::from_utf8: ASCII bytes are valid UTF-8 and yield
/// the string whose characters are exactly those bytes' code points.
#[verifier::external_body]
fn ascii_to_string(v: Vec<u8>) -> (r: String)
    requires
        forall|i: int| 0 <= i < v@.len() ==> v@[i] < 0x80,
    ensures
        r@.len() == v@.len(),
        forall|i: int| 0 <= i < v@.len() ==> r@[i] as int == v@[i] as int,
{
    String::from_utf8(v).unwrap()
}

/// Renders the decimal digit bytes of `n` onto the end of `out`.
fn push_decimal(n: usize, out: &mut Vec<u8>)
    ensures
        final(out)@ == old(out)@ + decimal_bytes(n as int),
    decreases n,
{
    if n >= 10 {
        push_decimal(n / 10, out);
        let d: u8 = 0x30 + (n % 10) as u8;
        out.push(d);
        proof {
            assert(d == 0x30 + (n as int) % 10);
            assert(out@ =~= old(out)@ + decimal_bytes(n as int));
        }
    } else {
        let d: u8 = 0x30 + n as u8;
        out.push(d);
        proof {
            assert(d == 0x30 + n as int);
            assert(out@ =~= old(out)@ + decimal_bytes(n as int));
        }
    }
}

/// Renders a vertex index as its decimal display name.
pub fn render_index(n: usize) -> (r: String)
    ensures
        r@.len() == decimal_bytes(n as int).len(),
        forall|i: int|
            0 <= i < r@.len() ==> r@[i] as int == decimal_bytes(n as int)[i] as int,
{
    let mut out: Vec<u8> = Vec::new();
    push_decimal(n, &mut out);
    proof {
        lemma_decimal_round_trip(n as int);
        assert(out@ =~= decimal_bytes(n as int));
    }
    ascii_to_string(out)
}

/// Parses a numeric-mode token as a vertex index.
///
/// Succeeds exactly on the tokens `valid_index_token` describes, and then
/// returns the denoted value; anything else is a `ParseError`.
pub fn parse_index(token: &str) -> (r: Result<usize, ParseError>)
    ensures
        r is Ok <==> valid_index_token(token.spec_bytes()),
        r is Ok ==> r->Ok_0 as int == digits_value(digits_part(token.spec_bytes())),
{
    let b: &[u8] = token.as_bytes();
    let ghost s: Seq<u8> = token.spec_bytes();
    let n: usize = b.len();
    let start: usize = if n > 0 && b[0] == 0x2b {
        1
    } else {
        0
    };
    let ghost d: Seq<u8> = digits_part(s);
    proof {
        if start == 1 {
            assert(d =~= s.subrange(1, n as int));
        } else {
            assert(d =~= s.subrange(0, n as int));
        }
    }
    if start >= n {
        return Err(ParseError);
    }
    let mut acc: usize = 0;
    let mut i: usize = start;
    while i < n
        invariant
            s == token.spec_bytes(),
            start <= i <= n,
            n == s.len(),
            b@ == s,
            start <= 1,
            d == digits_part(s),
            d == s.subrange(start as int, n as int),
            d.len() > 0,
            all_digits(s.subrange(start as int, i as int)),
            acc as int == digits_value(s.subrange(start as int, i as int)),
        decreases n - i,
    {
        let c: u8 = b[i];
        if c < 0x30 || c > 0x39 {
            proof {
                assert(d[i - start] == s[i as int]);
                assert(!is_digit_byte(d[i - start]));
            }
            return Err(ParseError);
        }
        let dv: usize = (c - 0x30) as usize;
        let ghost pre = s.subrange(start as int, i as int);
        let ghost ext = s.subrange(start as int, i + 1);
        proof {
            assert(ext.drop_last() =~= pre);
            assert(ext.last() == s[i as int]);
            assert(digits_value(ext) == acc * 10 + dv);
        }
        if acc > (usize::MAX - dv) / 10 {
            proof {
                let m = (usize::MAX - dv) as int;
                vstd::arithmetic::div_mod::lemma_fundamental_div_mod(m, 10);
                assert(acc * 10 > m) by (nonlinear_arith)
                    requires
                        acc as int >= m / 10 + 1,
                        m == (m / 10) * 10 + m % 10,
                        0 <= m % 10 < 10,
                ;
                assert(digits_value(ext) > usize::MAX);
                if all_digits(d) {
                    assert(ext =~= d.subrange(0, i + 1 - start));
                    lemma_digits_value_prefix(d, i + 1 - start);
                    assert(digits_value(d) > usize::MAX);
                }
            }
            return Err(ParseError);
        }
        proof {
            let m = (usize::MAX - dv) as int;
            vstd::arithmetic::div_mod::lemma_fundamental_div_mod(m, 10);
            assert(acc * 10 <= m) by (nonlinear_arith)
                requires
                    acc as int <= m / 10,
                    m == (m / 10) * 10 + m % 10,
                    0 <= m % 10 < 10,
            ;
            assert(forall|j: int|
                0 <= j < ext.len() ==> is_digit_byte(#[trigger] ext[j]));
        }
        acc = acc * 10 + dv;
        i = i + 1;
    }
    proof {
        assert(s.subrange(start as int, i as int) == d);
        assert(all_digits(d));
        assert(acc as int == digits_value(d));
        assert(valid_index_token(s));
    }
    Ok(acc)
}

} // verus!

