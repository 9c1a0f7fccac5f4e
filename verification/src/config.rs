//! The port argument: the one piece of startup configuration with logic in
//! it. The text must denote an unsigned 16-bit integer; anything else aborts
//! startup before a socket is opened.

use vstd::prelude::*;
use vstd::string::StrSliceExecFns;
use crate::message::dec_chars;
use crate::message::digit_char;

verus! {

/// `c` is a decimal digit.
pub open spec fn is_digit(c: char) -> bool {
    48 <= c as u32 <= 57
}

/// The value of the decimal digit `c`.
pub open spec fn digit_val(c: char) -> nat
    recommends
        is_digit(c),
{
    (c as u32 - 48) as nat
}

/// Every character of `s` is a decimal digit.
pub open spec fn all_digits(s: Seq<char>) -> bool {
    forall|i: int| 0 <= i < s.len() ==> is_digit(#[trigger] s[i])
}

/// The number the digit string `s` denotes, most significant digit first.
pub open spec fn dec_value(s: Seq<char>) -> nat
    recommends
        all_digits(s),
    decreases s.len(),
{
    if s.len() == 0 {
        0
    } else {
        dec_value(s.drop_last()) * 10 + digit_val(s.last())
    }
}

/// The digits of the port text: the whole of it, behind one optional leading
/// plus sign.
pub open spec fn port_digits(s: Seq<char>) -> Seq<char> {
    if s.len() > 0 && s[0] == '+' {
        s.drop_first()
    } else {
        s
    }
}

/// `s` denotes a port: an optional leading plus sign, then at least one
/// decimal digit, together denoting a value of at most 65535.
pub open spec fn valid_port(s: Seq<char>) -> bool {
    &&& port_digits(s).len() > 0
    &&& all_digits(port_digits(s))
    &&& dec_value(port_digits(s)) <= 65535
}

/// A digit string denotes at least what any of its prefixes denotes: digits
/// appended on the right only grow the number.
proof fn lemma_dec_value_prefix(s: Seq<char>, i: int)
    requires
        0 <= i <= s.len(),
        all_digits(s),
    ensures
        dec_value(s.take(i)) <= dec_value(s),
    decreases s.len() - i,
{
    if i == s.len() {
        assert(s.take(i) =~= s);
    } else {
        assert(s.take(i + 1).drop_last() =~= s.take(i));
        assert(dec_value(s.take(i + 1)) == dec_value(s.take(i)) * 10 + digit_val(s[i]));
        lemma_dec_value_prefix(s, i + 1);
    }
}

/// The decimal rendering of a number denotes that number: rendering a
/// session identifier into a message tag and reading the digits back are
/// inverse.
pub proof fn lemma_dec_chars_value(n: nat)
    ensures
        all_digits(dec_chars(n)),
        dec_value(dec_chars(n)) == n,
    decreases n,
{
    if n < 10 {
        assert(dec_chars(n).drop_last() =~= Seq::<char>::empty());
        assert(dec_value(Seq::<char>::empty()) == 0);
        assert(dec_chars(n).last() == digit_char(n));
        assert(digit_val(digit_char(n)) == n);
        assert(dec_value(dec_chars(n)) == n);
    } else {
        lemma_dec_chars_value(n / 10);
        assert(dec_chars(n).drop_last() =~= dec_chars(n / 10));
        assert(digit_val(digit_char(n % 10)) == n % 10);
        assert(dec_value(dec_chars(n)) == n);
    }
}

/// Parses `s` as a port number. Returns the denoted value where `s` is a
/// valid port text, and nothing where it is empty, holds a character that is
/// no decimal digit, or denotes more than 65535.
pub fn parse_port(s: &str) -> (r: Option<u16>)
    ensures
        r is Some <==> valid_port(s@),
        r matches Some(v) ==> v == dec_value(port_digits(s@)),
{
    let n = s.unicode_len();
    let mut i: usize = 0;
    if n > 0 && s.get_char(0) == '+' {
        i = 1;
    }
    let ghost start = i as int;
    let ghost t = port_digits(s@);
    proof {
        assert(t =~= s@.subrange(start, n as int));
    }
    if i == n {
        return None;
    }
    let mut acc: u32 = 0;
    while i < n
        invariant
            0 <= start <= i <= n,
            n == s@.len(),
            t == port_digits(s@),
            t == s@.subrange(start, n as int),
            t.len() == n - start,
            all_digits(t.take(i - start)),
            acc == dec_value(t.take(i - start)),
            acc <= 65535,
        decreases n - i,
    {
        let c = s.get_char(i);
        let v = c as u32;
        proof {
            assert(0 <= i - start < t.len());
            assert(s@.subrange(start, n as int)[i - start] == s@[start + (i - start)]);
            assert(start + (i - start) == i as int);
            assert(t[i - start] == c);
        }
        if v < 48 || v > 57 {
            proof {
                assert(!is_digit(t[i - start]));
            }
            return None;
        }
        let d = v - 48;
        let next = acc * 10 + d;
        proof {
            assert(t.take(i - start + 1).drop_last() =~= t.take(i - start));
            assert(t.take(i - start + 1).last() == t[i - start]);
            assert(dec_value(t.take(i - start + 1)) == acc * 10 + digit_val(t[i - start]));
        }
        if next > 65535 {
            proof {
                if all_digits(t) {
                    lemma_dec_value_prefix(t, i - start + 1);
                }
            }
            return None;
        }
        acc = next;
        i = i + 1;
    }
    proof {
        assert(t.take(n - start) =~= t);
    }
    Some(acc as u16)
}

} // verus!
