//! Verified string helpers: decimal rendering of integers, boolean text,
//! lexicographic comparison and repetition of character sequences.

use vstd::prelude::*;

verus! {

/// The character of one decimal digit.
pub open spec fn digit_char(d: nat) -> char {
    if d == 0 {
        '0'
    } else if d == 1 {
        '1'
    } else if d == 2 {
        '2'
    } else if d == 3 {
        '3'
    } else if d == 4 {
        '4'
    } else if d == 5 {
        '5'
    } else if d == 6 {
        '6'
    } else if d == 7 {
        '7'
    } else if d == 8 {
        '8'
    } else {
        '9'
    }
}

/// The decimal digits of a non-negative integer, most significant first,
/// with no leading zeros.
pub open spec fn dec_digits(n: nat) -> Seq<char>
    decreases n,
{
    if n < 10 {
        seq![digit_char(n)]
    } else {
        dec_digits(n / 10).push(digit_char(n % 10))
    }
}

/// The decimal text of a signed integer: a minus sign when negative,
/// then the digits of the magnitude.
pub open spec fn int_str(i: int) -> Seq<char> {
    if i < 0 {
        seq!['-'] + dec_digits((-i) as nat)
    } else {
        dec_digits(i as nat)
    }
}

/// The character of one decimal digit, executably.
fn digit_char_exec(d: usize) -> (r: char)
    requires
        d < 10,
    ensures
        r == digit_char(d as nat),
{
    if d == 0 {
        '0'
    } else if d == 1 {
        '1'
    } else if d == 2 {
        '2'
    } else if d == 3 {
        '3'
    } else if d == 4 {
        '4'
    } else if d == 5 {
        '5'
    } else if d == 6 {
        '6'
    } else if d == 7 {
        '7'
    } else if d == 8 {
        '8'
    } else {
        '9'
    }
}

/// Renders a signed integer as its decimal text: the digits of the
/// magnitude with no leading zeros, preceded by a minus sign exactly
/// when the value is negative.
#[verifier::loop_isolation(false)]
pub(crate) fn int_to_string(i: isize) -> (r: String)
    ensures
        r@ == int_str(i as int),
{
    let neg = i < 0;
    // the magnitude, stepping through `i + 1` so that the most negative
    // machine integer is representable
    let mag: usize = if i < 0 {
        ((-(i + 1)) as usize) + 1
    } else {
        i as usize
    };
    let mut rev: Vec<char> = Vec::new();
    let mut k: usize = mag;
    if k == 0 {
        rev.push('0');
        proof {
            assert(rev@.reverse() =~= dec_digits(mag as nat));
        }
    } else {
        while k > 0
            invariant
                k > 0 ==> dec_digits(mag as nat) == dec_digits(k as nat) + rev@.reverse(),
                k == 0 ==> dec_digits(mag as nat) == rev@.reverse(),
            decreases k,
        {
            let d = k % 10;
            let ghost rev0 = rev@;
            let ghost k0 = k;
            rev.push(digit_char_exec(d));
            k = k / 10;
            proof {
                assert(rev@.reverse() =~= seq![digit_char(d as nat)] + rev0.reverse());
                if k > 0 {
                    assert(dec_digits(k0 as nat) == dec_digits((k0 as nat) / 10).push(
                        digit_char((k0 as nat) % 10),
                    ));
                    assert(dec_digits((k0 as nat) / 10).push(digit_char((k0 as nat) % 10))
                        + rev0.reverse() =~= dec_digits((k0 as nat) / 10) + (seq![
                        digit_char(d as nat),
                    ] + rev0.reverse()));
                } else {
                    assert(dec_digits(k0 as nat) =~= seq![digit_char(d as nat)]);
                }
            }
        }
    }
    let mut out: Vec<char> = Vec::new();
    if neg {
        out.push('-');
    }
    let ghost head = out@;
    let mut j: usize = rev.len();
    while j > 0
        invariant
            j <= rev@.len(),
            out@ == head + rev@.reverse().take(rev@.len() - j),
        decreases j,
    {
        j = j - 1;
        out.push(rev[j]);
        proof {
            assert(rev@.reverse().take(rev@.len() - j) =~= rev@.reverse().take(
                rev@.len() - j - 1,
            ).push(rev@[j as int]));
        }
    }
    proof {
        assert(rev@.reverse().take(rev@.len() as int) =~= rev@.reverse());
        if neg {
            assert(out@ =~= seq!['-'] + dec_digits((-(i as int)) as nat));
        } else {
            assert(out@ =~= dec_digits(i as int as nat));
        }
    }
    chars_to_string(&out)
}

/// The text of a boolean.
pub open spec fn bool_str(b: bool) -> Seq<char> {
    if b {
        "true"@
    } else {
        "false"@
    }
}

/// Renders a boolean as its keyword.
pub fn bool_to_string(b: bool) -> (r: String)
    ensures
        r@ == bool_str(b),
{
    if b {
        "true".to_owned()
    } else {
        "false".to_owned()
    }
}

/// Strict lexicographic order on character sequences, comparing by
/// unicode scalar value; a proper prefix orders before its extensions.
pub open spec fn str_lt(a: Seq<char>, b: Seq<char>) -> bool
    decreases a.len(),
{
    if b.len() == 0 {
        false
    } else if a.len() == 0 {
        true
    } else if a[0] != b[0] {
        (a[0] as u32) < (b[0] as u32)
    } else {
        str_lt(a.drop_first(), b.drop_first())
    }
}

/// Decides the lexicographic order of two strings.
pub fn str_lt_exec(a: &str, b: &str) -> (r: bool)
    ensures
        r == str_lt(a@, b@),
{
    let alen = a.unicode_len();
    let blen = b.unicode_len();
    let mut i: usize = 0;
    proof {
        assert(a@.skip(0) =~= a@);
        assert(b@.skip(0) =~= b@);
    }
    loop
        invariant
            i <= alen,
            i <= blen,
            alen == a@.len(),
            blen == b@.len(),
            str_lt(a@, b@) == str_lt(a@.skip(i as int), b@.skip(i as int)),
        decreases alen - i,
    {
        if i == blen {
            return false;
        }
        if i == alen {
            return true;
        }
        let ca = a.get_char(i);
        let cb = b.get_char(i);
        if ca != cb {
            return (ca as u32) < (cb as u32);
        }
        proof {
            assert(a@.skip(i as int).drop_first() =~= a@.skip(i as int + 1));
            assert(b@.skip(i as int).drop_first() =~= b@.skip(i as int + 1));
        }
        i = i + 1;
    }
}

/// Decides equality of two strings.
pub fn str_eq_exec(a: &str, b: &str) -> (r: bool)
    ensures
        r == (a@ == b@),
{
    let alen = a.unicode_len();
    let blen = b.unicode_len();
    if alen != blen {
        return false;
    }
    let mut i: usize = 0;
    loop
        invariant
            i <= alen,
            alen == a@.len(),
            blen == b@.len(),
            alen == blen,
            forall|j: int| 0 <= j < i ==> a@[j] == b@[j],
        decreases alen - i,
    {
        if i == alen {
            proof {
                assert(a@ =~= b@);
            }
            return true;
        }
        let ca = a.get_char(i);
        let cb = b.get_char(i);
        if ca != cb {
            proof {
                assert(a@ != b@) by {
                    assert(a@[i as int] != b@[i as int]);
                }
            }
            return false;
        }
        i = i + 1;
    }
}

/// Relies on `String`'s `FromIterator` implementation over `char`:
/// collecting an iterator of characters yields the string of exactly
/// those characters in order.
#[verifier::external_body]
pub(crate) fn chars_to_string(v: &Vec<char>) -> (r: String)
    ensures
        r@ == v@,
{
    v.iter().collect()
}

/// A character sequence with every double quote preceded by a backslash.
pub open spec fn esc_quotes(s: Seq<char>) -> Seq<char>
    decreases s.len(),
{
    if s.len() == 0 {
        Seq::empty()
    } else {
        esc_quotes(s.drop_last()) + (if s.last() == '"' {
            seq!['\\', '"']
        } else {
            seq![s.last()]
        })
    }
}

/// Escapes the double quotes of a string with backslashes.
#[verifier::loop_isolation(false)]
pub fn escape_quotes(s: &str) -> (r: String)
    ensures
        r@ == esc_quotes(s@),
{
    let n = s.unicode_len();
    let mut buf: Vec<char> = Vec::new();
    let mut i: usize = 0;
    proof {
        assert(s@.take(0) =~= Seq::<char>::empty());
        assert(buf@ =~= esc_quotes(s@.take(0)));
    }
    while i < n
        invariant
            i <= n,
            n == s@.len(),
            buf@ == esc_quotes(s@.take(i as int)),
        decreases n - i,
    {
        let c = s.get_char(i);
        proof {
            assert(s@.take(i as int + 1).drop_last() =~= s@.take(i as int));
            assert(s@.take(i as int + 1).last() == s@[i as int]);
        }
        let ghost before = buf@;
        if c == '"' {
            buf.push('\\');
            buf.push('"');
            proof {
                assert(buf@ =~= before + seq!['\\', '"']);
            }
        } else {
            buf.push(c);
            proof {
                assert(buf@ =~= before + seq![c]);
            }
        }
        i = i + 1;
    }
    proof {
        assert(s@.take(n as int) =~= s@);
    }
    chars_to_string(&buf)
}

/// A character sequence repeated a number of times, end to end.
pub open spec fn repeat_seq(s: Seq<char>, n: nat) -> Seq<char>
    decreases n,
{
    if n == 0 {
        Seq::empty()
    } else {
        repeat_seq(s, (n - 1) as nat) + s
    }
}

/// Builds the repetition of a string.
pub fn repeat_str(s: &str, n: usize) -> (r: String)
    ensures
        r@ == repeat_seq(s@, n as nat),
{
    let mut out = String::new();
    let mut j: usize = 0;
    proof {
        assert(out@ =~= repeat_seq(s@, 0));
    }
    while j < n
        invariant
            j <= n,
            out@ == repeat_seq(s@, j as nat),
        decreases n - j,
    {
        out.append(s);
        j = j + 1;
    }
    out
}

} // verus!
