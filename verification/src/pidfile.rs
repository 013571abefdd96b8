//! PID rendering and parsing.
//!
//! The intermediate process reports the init PID to the caller as a
//! decimal string, and the caller writes that PID to the pid file.
//! Both directions are pinned down here: rendering yields exactly the
//! canonical decimal digits, and parsing accepts exactly those.

use vstd::prelude::*;
use vstd::arithmetic::div_mod::lemma_fundamental_div_mod;

verus! {

/// True for an ASCII decimal digit byte.
pub open spec fn is_digit(b: u8) -> bool {
    48 <= b <= 57
}

/// The canonical decimal digit bytes of a number: no sign, no leading
/// zeros, at least one digit.
pub open spec fn dec_bytes(n: nat) -> Seq<u8>
    decreases n,
{
    if n < 10 {
        seq![(48 + n) as u8]
    } else {
        dec_bytes(n / 10).push((48 + n % 10) as u8)
    }
}

/// The numeric value of a digit string, most significant digit first.
pub open spec fn dec_val(s: Seq<u8>) -> nat
    decreases s.len(),
{
    if s.len() == 0 {
        0
    } else {
        dec_val(s.drop_last()) * 10 + (s.last() - 48) as nat
    }
}

/// True when every byte of the string is a decimal digit.
pub open spec fn all_digits(s: Seq<u8>) -> bool {
    forall|i: int| 0 <= i < s.len() ==> is_digit(#[trigger] s[i])
}

/// The exact set of byte strings accepted as a PID: non-empty, all
/// digits, no leading zero, and a value that fits in `u64`.
pub open spec fn parse_dec_spec(s: Seq<u8>) -> Option<u64> {
    if s.len() > 0 && all_digits(s) && (s.len() == 1 || s[0] != 48) && dec_val(s) <= u64::MAX {
        Some(dec_val(s) as u64)
    } else {
        None
    }
}

/// Renders a number as its canonical decimal digit bytes.
pub fn render_dec(n: u64) -> (r: Vec<u8>)
    ensures
        r@ == dec_bytes(n as nat),
    decreases n,
{
    if n < 10 {
        let mut v: Vec<u8> = Vec::new();
        v.push(48 + n as u8);
        proof {
            assert(v@ =~= dec_bytes(n as nat));
        }
        v
    } else {
        let mut v = render_dec(n / 10);
        v.push(48 + (n % 10) as u8);
        proof {
            assert(v@ =~= dec_bytes(n as nat));
        }
        v
    }
}

/// Parses a byte string as a PID; accepts exactly the canonical
/// decimal strings whose value fits in `u64`.
pub fn parse_dec(s: &[u8]) -> (r: Option<u64>)
    ensures
        r == parse_dec_spec(s@),
{
    if s.len() == 0 {
        return None;
    }
    if s.len() > 1 && s[0] == 48 {
        return None;
    }
    let mut acc: u64 = 0;
    let mut i: usize = 0;
    while i < s.len()
        invariant
            0 < s.len(),
            i <= s.len(),
            s@.len() == 1 || s@[0] != 48,
            acc == dec_val(s@.take(i as int)),
            all_digits(s@.take(i as int)),
        decreases s.len() - i,
    {
        let b = s[i];
        if b < 48 || b > 57 {
            proof {
                assert(!is_digit(s@[i as int]));
                assert(!all_digits(s@));
            }
            return None;
        }
        let d = (b - 48) as u64;
        if acc > (u64::MAX - d) / 10 {
            proof {
                lemma_fundamental_div_mod((u64::MAX - d) as int, 10);
                assert(s@.take(i + 1 as int).drop_last() =~= s@.take(i as int));
                lemma_dec_val_grows(s@, i + 1 as int);
                assert(dec_val(s@) > u64::MAX);
            }
            return None;
        }
        proof {
            lemma_fundamental_div_mod((u64::MAX - d) as int, 10);
            assert(s@.take(i + 1 as int).drop_last() =~= s@.take(i as int));
            assert(s@.take(i + 1 as int).last() == s@[i as int]);
        }
        acc = acc * 10 + d;
        i = i + 1;
    }
    proof {
        assert(s@.take(s@.len() as int) =~= s@);
    }
    Some(acc)
}

/// A digit string's value only grows as digits are appended: the value
/// of any prefix is at most the value of the whole.
pub proof fn lemma_dec_val_grows(s: Seq<u8>, i: int)
    requires
        0 <= i <= s.len(),
    ensures
        dec_val(s.take(i)) <= dec_val(s),
    decreases s.len() - i,
{
    if i < s.len() {
        assert(s.take(i + 1).drop_last() =~= s.take(i));
        assert(dec_val(s.take(i)) <= dec_val(s.take(i + 1)));
        lemma_dec_val_grows(s, i + 1);
    } else {
        assert(s.take(i) =~= s);
    }
}

/// Every byte of a rendered number is a digit, the first is not `0`
/// unless the number is below ten, and the digits evaluate back to the
/// number.
pub proof fn lemma_dec_bytes_canon(n: nat)
    ensures
        dec_bytes(n).len() >= 1,
        all_digits(dec_bytes(n)),
        dec_val(dec_bytes(n)) == n,
        n >= 1 ==> dec_bytes(n)[0] != 48,
        n >= 10 <==> dec_bytes(n).len() > 1,
    decreases n,
{
    if n < 10 {
        let s = dec_bytes(n);
        assert(s =~= seq![(48 + n) as u8]);
        assert(s.drop_last() =~= Seq::<u8>::empty());
        assert(dec_val(s.drop_last()) == 0);
        assert(s.last() == (48 + n) as u8);
        assert(dec_val(s) == (s.last() - 48) as nat);
        assert(dec_val(dec_bytes(n)) == n);
    } else {
        lemma_dec_bytes_canon(n / 10);
        assert(dec_bytes(n).drop_last() =~= dec_bytes(n / 10));
        lemma_fundamental_div_mod(n as int, 10);
        assert(dec_val(dec_bytes(n)) == (n / 10) * 10 + n % 10);
        assert(dec_bytes(n)[0] == dec_bytes(n / 10)[0]);
    }
}

/// PID round trip: parsing a rendered PID gives back the PID.
pub proof fn lemma_pid_round_trip(n: u64)
    ensures
        parse_dec_spec(dec_bytes(n as nat)) == Some(n),
{
    lemma_dec_bytes_canon(n as nat);
}

/// The bytes the caller writes to the pid file for a received PID
/// datagram: exactly the decimal digits of the reported PID, nothing
/// else, and nothing at all when the datagram is not a canonical
/// decimal PID.
pub fn pid_file_content(msg: &Vec<u8>) -> (r: Option<Vec<u8>>)
    ensures
        (r is Some) == (parse_dec_spec(msg@) is Some),
        r matches Some(v) ==> (parse_dec_spec(msg@) matches Some(n) && v@ == dec_bytes(n as nat)),
{
    match parse_dec(msg.as_slice()) {
        Option::Some(n) => Option::Some(render_dec(n)),
        Option::None => Option::None,
    }
}

/// Pid-file law: for the datagram the intermediate process actually
/// sends (the rendered PID), the file content is exactly the decimal
/// digits of that PID.
pub proof fn lemma_pid_file_law(n: u64, msg: Seq<u8>, content: Seq<u8>)
    requires
        msg == dec_bytes(n as nat),
        parse_dec_spec(msg) matches Some(m) && content == dec_bytes(m as nat),
    ensures
        content == dec_bytes(n as nat),
{
    lemma_pid_round_trip(n);
}

} // verus!
