//! The broadcast message: the bytes read from one connection, decoded as
//! permissively as possible, behind a visible tag naming the session that
//! sent them.

use vstd::prelude::*;
use vstd::string::StringExecFns;

verus! {

/// The character for the decimal digit `d`.
pub open spec fn digit_char(d: nat) -> char
    recommends
        d < 10,
{
    ((48 + d) as u8) as char
}

/// The decimal rendering of `n`: most significant digit first, no sign, no
/// leading zero (zero itself renders as a single `0`).
pub open spec fn dec_chars(n: nat) -> Seq<char>
    decreases n,
{
    if n < 10 {
        seq![digit_char(n)]
    } else {
        dec_chars(n / 10).push(digit_char(n % 10))
    }
}

/// What decoding `bytes` permissively as UTF-8 yields: every invalid sequence
/// replaced by a placeholder character, never an error.
pub uninterp spec fn lossy_of(bytes: Seq<u8>) -> Seq<char>;

/// Relies on `String::from_utf8_lossy`: decodes the bytes as UTF-8 with every
/// invalid sequence replaced by U+FFFD. The result depends on the bytes
/// alone, and no bytes decode to an empty string.
#[verifier::external_body]
fn lossy_decode(bytes: &[u8]) -> (r: String)
    ensures
        r@ == lossy_of(bytes@),
        bytes@.len() == 0 ==> r@.len() == 0,
{
    String::from_utf8_lossy(bytes).into_owned()
}

/// The single-character string for the decimal digit `d`.
fn digit_str(d: u8) -> (r: &'static str)
    requires
        d < 10,
    ensures
        r@ == seq![digit_char(d as nat)],
{
    let r: &'static str = match d {
        0 => "0",
        1 => "1",
        2 => "2",
        3 => "3",
        4 => "4",
        5 => "5",
        6 => "6",
        7 => "7",
        8 => "8",
        _ => "9",
    };
    proof {
        reveal_strlit("0");
        reveal_strlit("1");
        reveal_strlit("2");
        reveal_strlit("3");
        reveal_strlit("4");
        reveal_strlit("5");
        reveal_strlit("6");
        reveal_strlit("7");
        reveal_strlit("8");
        reveal_strlit("9");
        assert(r@ =~= seq![digit_char(d as nat)]);
    }
    r
}

/// Renders `n` in decimal.
pub fn u32_to_string(n: u32) -> (r: String)
    ensures
        r@ == dec_chars(n as nat),
    decreases n,
{
    if n < 10 {
        let r = digit_str(n as u8).to_owned();
        proof {
            assert(r@ =~= dec_chars(n as nat));
        }
        r
    } else {
        let mut r = u32_to_string(n / 10);
        r.append(digit_str((n % 10) as u8));
        proof {
            assert(r@ =~= dec_chars(n as nat));
        }
        r
    }
}

/// The text broadcast when session `id` sends `bytes`: the literal tag
/// `[<id>] ` followed by the bytes decoded permissively.
pub open spec fn tagged(id: u32, bytes: Seq<u8>) -> Seq<char> {
    seq!['['] + dec_chars(id as nat) + seq![']', ' '] + lossy_of(bytes)
}

/// Builds the broadcast text for `bytes` read from session `id`: the session
/// identifier as a visible tag, then the payload decoded permissively
/// (invalid byte sequences are replaced, never fatal).
pub fn tag_message(id: u32, bytes: &[u8]) -> (r: String)
    ensures
        r@ == tagged(id, bytes@),
{
    let mut r = "[".to_owned();
    let id_text = u32_to_string(id);
    r.append(id_text.as_str());
    r.append("] ");
    let payload = lossy_decode(bytes);
    r.append(payload.as_str());
    proof {
        reveal_strlit("[");
        reveal_strlit("] ");
        assert(r@ =~= tagged(id, bytes@));
    }
    r
}

} // verus!
