//! JSON text: a document tree written as a JSON string, and JSON
//! text read back into a document tree.
//!
//! The written form is canonical: no whitespace between tokens,
//! object members in tree order, strings escaped with the
//! two-character escapes where JSON names one and `\u00` escapes for
//! the remaining control characters.  The reader accepts whitespace
//! between tokens and every escape the writer produces; `\u` escapes
//! are limited to values below `0x80`, and a number that is not a
//! plain unsigned integer is kept as the opaque leaf that no
//! configuration field accepts.

use vstd::prelude::*;
use vstd::string::*;
use vstd::assert_seqs_equal;
use crate::json::{json_view, Json, JsonV};
use crate::pidfile::dec_bytes;

verus! {

/// The hexadecimal digit character of a value below sixteen.
pub open spec fn hex_digit(n: u32) -> char {
    if n < 10 {
        ((48 + n) as u8) as char
    } else {
        ((87 + n) as u8) as char
    }
}

/// The JSON escape of one string character.
pub open spec fn esc_char(c: char) -> Seq<char> {
    if c == '"' {
        seq!['\\', '"']
    } else if c == '\\' {
        seq!['\\', '\\']
    } else if c == '\n' {
        seq!['\\', 'n']
    } else if c == '\t' {
        seq!['\\', 't']
    } else if c == '\r' {
        seq!['\\', 'r']
    } else if c as u32 == 8 {
        seq!['\\', 'b']
    } else if c as u32 == 12 {
        seq!['\\', 'f']
    } else if (c as u32) < 32 {
        seq!['\\', 'u', '0', '0', hex_digit((c as u32) / 16), hex_digit((c as u32) % 16)]
    } else {
        seq![c]
    }
}

/// The JSON escape of a whole string, character by character.
pub open spec fn esc_str(s: Seq<char>) -> Seq<char>
    decreases s.len(),
{
    if s.len() == 0 {
        Seq::empty()
    } else {
        esc_str(s.drop_last()) + esc_char(s.last())
    }
}

/// The decimal digit characters of a number.
pub open spec fn dec_chars(n: u64) -> Seq<char> {
    dec_bytes(n as nat).map_values(|b: u8| b as char)
}

/// The JSON text of a document tree.  An `Other` leaf has no text
/// form and contributes nothing; the configuration renderer never
/// produces one.
pub open spec fn ser_json(v: JsonV) -> Seq<char>
    decreases v, 1int,
{
    match v {
        JsonV::Null => seq!['n', 'u', 'l', 'l'],
        JsonV::Bool(b) => if b {
            seq!['t', 'r', 'u', 'e']
        } else {
            seq!['f', 'a', 'l', 's', 'e']
        },
        JsonV::Num(n) => dec_chars(n),
        JsonV::Str(s) => seq!['"'] + esc_str(s) + seq!['"'],
        JsonV::Arr(a) => seq!['['] + ser_elems(a) + seq![']'],
        JsonV::Obj(ms) => seq!['{'] + ser_members(ms) + seq!['}'],
        JsonV::Other => Seq::empty(),
    }
}

/// The comma-separated texts of an array's elements.
pub open spec fn ser_elems(a: Seq<JsonV>) -> Seq<char>
    decreases a, 0int,
{
    if a.len() == 0 {
        Seq::empty()
    } else if a.len() == 1 {
        ser_json(a.last())
    } else {
        ser_elems(a.drop_last()) + seq![','] + ser_json(a.last())
    }
}

/// The text of one object member: quoted key, colon, value.
pub open spec fn ser_member(m: (Seq<char>, JsonV)) -> Seq<char>
    decreases m, 0int,
{
    seq!['"'] + esc_str(m.0) + seq!['"', ':'] + ser_json(m.1)
}

/// The comma-separated texts of an object's members.
pub open spec fn ser_members(ms: Seq<(Seq<char>, JsonV)>) -> Seq<char>
    decreases ms, 0int,
{
    if ms.len() == 0 {
        Seq::empty()
    } else if ms.len() == 1 {
        ser_member(ms.last())
    } else {
        ser_members(ms.drop_last()) + seq![','] + ser_member(ms.last())
    }
}

/// True for the whitespace characters JSON allows between tokens.
pub open spec fn is_ws(c: char) -> bool {
    c == ' ' || c == '\t' || c == '\n' || c == '\r'
}

/// The first position at or after `i` that holds no whitespace.
pub open spec fn skip_ws(s: Seq<char>, i: int) -> int
    decreases s.len() - i,
{
    if 0 <= i < s.len() && is_ws(s[i]) {
        skip_ws(s, i + 1)
    } else {
        i
    }
}

/// True for an ASCII decimal digit character.
pub open spec fn is_digit_ch(c: char) -> bool {
    48 <= c as u32 <= 57
}

/// The numeric value of a hexadecimal digit character, or sixteen
/// when it is none.
pub open spec fn hex_val(c: char) -> u32 {
    if 48 <= c as u32 <= 57 {
        (c as u32 - 48) as u32
    } else if 97 <= c as u32 <= 102 {
        (c as u32 - 87) as u32
    } else if 65 <= c as u32 <= 70 {
        (c as u32 - 55) as u32
    } else {
        16
    }
}

/// The first position at or after `i` that holds no decimal digit.
pub open spec fn digits_end(s: Seq<char>, i: int) -> int
    decreases s.len() - i,
{
    if 0 <= i < s.len() && is_digit_ch(s[i]) {
        digits_end(s, i + 1)
    } else {
        i
    }
}

/// The numeric value of a digit run, most significant digit first.
pub open spec fn digits_val(s: Seq<char>) -> nat
    decreases s.len(),
{
    if s.len() == 0 {
        0
    } else {
        digits_val(s.drop_last()) * 10 + (s.last() as u32 - 48) as nat
    }
}

/// The characters read from one string body starting inside the
/// quotes, and the position after the closing quote.  Escapes are the
/// named two-character ones and `\u` escapes below `0x80`.
pub open spec fn sp_string(s: Seq<char>, i: int) -> Option<(Seq<char>, int)>
    decreases s.len() - i,
{
    if i < 0 || i >= s.len() {
        Option::None
    } else if s[i] == '"' {
        Option::Some((Seq::empty(), i + 1))
    } else if s[i] == '\\' {
        if i + 1 >= s.len() {
            Option::None
        } else if s[i + 1] == 'u' {
            if i + 6 <= s.len() && hex_val(s[i + 2]) < 16 && hex_val(s[i + 3]) < 16 && hex_val(
                s[i + 4],
            ) < 16 && hex_val(s[i + 5]) < 16 {
                let code = ((hex_val(s[i + 2]) * 16 + hex_val(s[i + 3])) * 16 + hex_val(s[i + 4]))
                    * 16 + hex_val(s[i + 5]);
                if code < 128 {
                    match sp_string(s, i + 6) {
                        Option::Some((t, j)) => Option::Some(
                            (seq![(code as u8) as char] + t, j),
                        ),
                        Option::None => Option::None,
                    }
                } else {
                    Option::None
                }
            } else {
                Option::None
            }
        } else {
            let e = s[i + 1];
            let c = if e == '"' {
                '"'
            } else if e == '\\' {
                '\\'
            } else if e == '/' {
                '/'
            } else if e == 'n' {
                '\n'
            } else if e == 't' {
                '\t'
            } else if e == 'r' {
                '\r'
            } else if e == 'b' {
                (8 as u8) as char
            } else if e == 'f' {
                (12 as u8) as char
            } else {
                '?'
            };
            if e == '"' || e == '\\' || e == '/' || e == 'n' || e == 't' || e == 'r' || e == 'b'
                || e == 'f' {
                match sp_string(s, i + 2) {
                    Option::Some((t, j)) => Option::Some((seq![c] + t, j)),
                    Option::None => Option::None,
                }
            } else {
                Option::None
            }
        }
    } else {
        match sp_string(s, i + 1) {
            Option::Some((t, j)) => Option::Some((seq![s[i]] + t, j)),
            Option::None => Option::None,
        }
    }
}

/// One number token starting at `i`: an optional minus, an integer
/// part without a spurious leading zero, and optional fraction and
/// exponent parts.  A plain unsigned integer that fits in sixty-four
/// bits becomes a number; any other lexically valid number is kept as
/// the opaque leaf.
pub open spec fn sp_number(s: Seq<char>, i: int) -> Option<(JsonV, int)> {
    let start = if 0 <= i < s.len() && s[i] == '-' {
        i + 1
    } else {
        i
    };
    let int_end = digits_end(s, start);
    if int_end == start || (s[start] == '0' && int_end > start + 1) {
        Option::None
    } else {
        let frac_end = if int_end < s.len() && s[int_end] == '.' {
            digits_end(s, int_end + 1)
        } else {
            int_end
        };
        if int_end < s.len() && s[int_end] == '.' && frac_end == int_end + 1 {
            Option::None
        } else {
            let exp_end = if frac_end < s.len() && (s[frac_end] == 'e' || s[frac_end] == 'E') {
                let sign_end = if frac_end + 1 < s.len() && (s[frac_end + 1] == '+' || s[frac_end
                    + 1] == '-') {
                    frac_end + 2
                } else {
                    frac_end + 1
                };
                if digits_end(s, sign_end) == sign_end {
                    -1
                } else {
                    digits_end(s, sign_end)
                }
            } else {
                frac_end
            };
            if exp_end < 0 {
                Option::None
            } else if start == i && frac_end == int_end && exp_end == frac_end && digits_val(
                s.subrange(start, int_end),
            ) <= u64::MAX {
                Option::Some((JsonV::Num(digits_val(s.subrange(start, int_end)) as u64), int_end))
            } else {
                Option::Some((JsonV::Other, exp_end))
            }
        }
    }
}

/// One JSON value starting at or after `i`, and the position after
/// it.  The fuel bounds the nesting the parser follows; the top-level
/// entry point supplies more fuel than any input can consume.
pub open spec fn sp_value(s: Seq<char>, i: int, fuel: nat) -> Option<(JsonV, int)>
    decreases fuel,
{
    if fuel == 0 {
        Option::None
    } else {
        let i = skip_ws(s, i);
        if i >= s.len() {
            Option::None
        } else if s[i] == 'n' {
            if i + 4 <= s.len() && s.subrange(i, i + 4) == seq!['n', 'u', 'l', 'l'] {
                Option::Some((JsonV::Null, i + 4))
            } else {
                Option::None
            }
        } else if s[i] == 't' {
            if i + 4 <= s.len() && s.subrange(i, i + 4) == seq!['t', 'r', 'u', 'e'] {
                Option::Some((JsonV::Bool(true), i + 4))
            } else {
                Option::None
            }
        } else if s[i] == 'f' {
            if i + 5 <= s.len() && s.subrange(i, i + 5) == seq!['f', 'a', 'l', 's', 'e'] {
                Option::Some((JsonV::Bool(false), i + 5))
            } else {
                Option::None
            }
        } else if s[i] == '"' {
            match sp_string(s, i + 1) {
                Option::Some((t, j)) => Option::Some((JsonV::Str(t), j)),
                Option::None => Option::None,
            }
        } else if s[i] == '[' {
            let j = skip_ws(s, i + 1);
            if j < s.len() && s[j] == ']' {
                Option::Some((JsonV::Arr(Seq::empty()), j + 1))
            } else {
                match sp_items(s, i + 1, (fuel - 1) as nat) {
                    Option::Some((vs, j)) => Option::Some((JsonV::Arr(vs), j)),
                    Option::None => Option::None,
                }
            }
        } else if s[i] == '{' {
            let j = skip_ws(s, i + 1);
            if j < s.len() && s[j] == '}' {
                Option::Some((JsonV::Obj(Seq::empty()), j + 1))
            } else {
                match sp_mems(s, i + 1, (fuel - 1) as nat) {
                    Option::Some((ms, j)) => Option::Some((JsonV::Obj(ms), j)),
                    Option::None => Option::None,
                }
            }
        } else if s[i] == '-' || is_digit_ch(s[i]) {
            sp_number(s, i)
        } else {
            Option::None
        }
    }
}

/// One or more comma-separated array elements and the closing
/// bracket.
pub open spec fn sp_items(s: Seq<char>, i: int, fuel: nat) -> Option<(Seq<JsonV>, int)>
    decreases fuel,
{
    if fuel == 0 {
        Option::None
    } else {
        match sp_value(s, i, (fuel - 1) as nat) {
            Option::None => Option::None,
            Option::Some((v, j)) => {
                let k = skip_ws(s, j);
                if k < s.len() && s[k] == ',' {
                    match sp_items(s, k + 1, (fuel - 1) as nat) {
                        Option::Some((vs, m)) => Option::Some((seq![v] + vs, m)),
                        Option::None => Option::None,
                    }
                } else if k < s.len() && s[k] == ']' {
                    Option::Some((seq![v], k + 1))
                } else {
                    Option::None
                }
            },
        }
    }
}

/// One or more comma-separated object members and the closing brace.
pub open spec fn sp_mems(s: Seq<char>, i: int, fuel: nat) -> Option<
    (Seq<(Seq<char>, JsonV)>, int),
>
    decreases fuel,
{
    if fuel == 0 {
        Option::None
    } else {
        let i = skip_ws(s, i);
        if i < s.len() && s[i] == '"' {
            match sp_string(s, i + 1) {
                Option::None => Option::None,
                Option::Some((key, j)) => {
                    let j = skip_ws(s, j);
                    if j < s.len() && s[j] == ':' {
                        match sp_value(s, j + 1, (fuel - 1) as nat) {
                            Option::None => Option::None,
                            Option::Some((v, k)) => {
                                let k = skip_ws(s, k);
                                if k < s.len() && s[k] == ',' {
                                    match sp_mems(s, k + 1, (fuel - 1) as nat) {
                                        Option::Some((ms, m)) => Option::Some(
                                            (seq![(key, v)] + ms, m),
                                        ),
                                        Option::None => Option::None,
                                    }
                                } else if k < s.len() && s[k] == '}' {
                                    Option::Some((seq![(key, v)], k + 1))
                                } else {
                                    Option::None
                                }
                            },
                        }
                    } else {
                        Option::None
                    }
                },
            }
        } else {
            Option::None
        }
    }
}

/// A whole JSON document: one value with nothing but whitespace
/// around it.
pub open spec fn sp_document(s: Seq<char>) -> Option<JsonV> {
    match sp_value(s, 0, s.len()) {
        Option::Some((v, j)) => if skip_ws(s, j) == s.len() {
            Option::Some(v)
        } else {
            Option::None
        },
        Option::None => Option::None,
    }
}

/// The escape of a string, unfolded at its first character.
proof fn lemma_esc_str_first(s: Seq<char>)
    requires
        s.len() > 0,
    ensures
        esc_str(s) == esc_char(s[0]) + esc_str(s.drop_first()),
    decreases s.len(),
{
    if s.len() == 1 {
        assert(s.drop_last() =~= Seq::<char>::empty());
        assert(s.drop_first() =~= Seq::<char>::empty());
        assert(esc_str(s) =~= esc_char(s[0]) + esc_str(s.drop_first()));
    } else {
        lemma_esc_str_first(s.drop_last());
        assert(s.drop_last()[0] == s[0]);
        assert(s.drop_last().drop_first() =~= s.drop_first().drop_last());
        assert(s.drop_first().last() == s.last());
        assert(esc_str(s) == esc_str(s.drop_last()) + esc_char(s.last()));
        assert(esc_str(s.drop_first()) == esc_str(s.drop_first().drop_last()) + esc_char(
            s.last(),
        ));
        assert(esc_str(s) =~= esc_char(s[0]) + esc_str(s.drop_first()));
    }
}

/// The text of an element list, unfolded at its first element.
proof fn lemma_ser_elems_first(a: Seq<JsonV>)
    requires
        a.len() > 0,
    ensures
        a.len() == 1 ==> ser_elems(a) == ser_json(a[0]),
        a.len() > 1 ==> ser_elems(a) == ser_json(a[0]) + seq![','] + ser_elems(a.drop_first()),
    decreases a.len(),
{
    if a.len() == 1 {
        assert(a.last() == a[0]);
    } else if a.len() == 2 {
        assert(a.drop_last()[0] == a[0]);
        assert(a.drop_last().len() == 1);
        assert(a.drop_first().len() == 1);
        assert(a.drop_first()[0] == a.last());
        assert(ser_elems(a) == ser_elems(a.drop_last()) + seq![','] + ser_json(a.last()));
        assert(ser_elems(a.drop_last()) == ser_json(a[0]));
        assert(ser_elems(a.drop_first()) == ser_json(a.last()));
        assert(ser_elems(a) =~= ser_json(a[0]) + seq![','] + ser_elems(a.drop_first()));
    } else {
        lemma_ser_elems_first(a.drop_last());
        assert(a.drop_last()[0] == a[0]);
        assert(a.drop_last().drop_first() =~= a.drop_first().drop_last());
        assert(a.drop_first().last() == a.last());
        assert(a.drop_first().len() > 1);
        assert(ser_elems(a) == ser_elems(a.drop_last()) + seq![','] + ser_json(a.last()));
        assert(ser_elems(a.drop_last()) == ser_json(a[0]) + seq![','] + ser_elems(
            a.drop_last().drop_first(),
        ));
        assert(ser_elems(a.drop_first()) == ser_elems(a.drop_first().drop_last()) + seq![',']
            + ser_json(a.drop_first().last()));
        assert(ser_elems(a) =~= ser_json(a[0]) + seq![','] + ser_elems(a.drop_first()));
    }
}

/// The text of a member list, unfolded at its first member.
proof fn lemma_ser_members_first(ms: Seq<(Seq<char>, JsonV)>)
    requires
        ms.len() > 0,
    ensures
        ms.len() == 1 ==> ser_members(ms) == ser_member(ms[0]),
        ms.len() > 1 ==> ser_members(ms) == ser_member(ms[0]) + seq![','] + ser_members(
            ms.drop_first(),
        ),
    decreases ms.len(),
{
    if ms.len() == 1 {
        assert(ms.last() == ms[0]);
    } else if ms.len() == 2 {
        assert(ms.drop_last()[0] == ms[0]);
        assert(ms.drop_last().len() == 1);
        assert(ms.drop_first().len() == 1);
        assert(ms.drop_first()[0] == ms.last());
        assert(ser_members(ms) == ser_members(ms.drop_last()) + seq![','] + ser_member(
            ms.last(),
        ));
        assert(ser_members(ms.drop_last()) == ser_member(ms[0]));
        assert(ser_members(ms.drop_first()) == ser_member(ms.last()));
        assert(ser_members(ms) =~= ser_member(ms[0]) + seq![','] + ser_members(ms.drop_first()));
    } else {
        lemma_ser_members_first(ms.drop_last());
        assert(ms.drop_last()[0] == ms[0]);
        assert(ms.drop_last().drop_first() =~= ms.drop_first().drop_last());
        assert(ms.drop_first().last() == ms.last());
        assert(ms.drop_first().len() > 1);
        assert(ser_members(ms) == ser_members(ms.drop_last()) + seq![','] + ser_member(
            ms.last(),
        ));
        assert(ser_members(ms.drop_last()) == ser_member(ms[0]) + seq![','] + ser_members(
            ms.drop_last().drop_first(),
        ));
        assert(ser_members(ms.drop_first()) == ser_members(ms.drop_first().drop_last()) + seq![
            ',',
        ] + ser_member(ms.drop_first().last()));
        assert(ser_members(ms) =~= ser_member(ms[0]) + seq![','] + ser_members(ms.drop_first()));
    }
}

/// A hexadecimal digit character reads back as its value.
proof fn lemma_hex_round_trip(x: u32)
    requires
        x < 16,
    ensures
        hex_val(hex_digit(x)) == x,
{
}

/// The decimal digit characters of a number are digits, carry its
/// value, and start with no spurious zero.
proof fn lemma_dec_chars_canon(n: u64)
    ensures
        dec_chars(n).len() >= 1,
        forall|i: int| 0 <= i < dec_chars(n).len() ==> is_digit_ch(#[trigger] dec_chars(n)[i]),
        digits_val(dec_chars(n)) == n,
        n >= 1 ==> dec_chars(n)[0] as u32 != 48,
        n >= 10 <==> dec_chars(n).len() > 1,
{
    crate::pidfile::lemma_dec_bytes_canon(n as nat);
    let ds = dec_bytes(n as nat);
    let cs = dec_chars(n);
    assert(cs.len() == ds.len());
    assert(forall|i: int| 0 <= i < cs.len() ==> cs[i] == (#[trigger] ds[i]) as char);
    assert forall|i: int| 0 <= i < cs.len() implies is_digit_ch(#[trigger] cs[i]) by {
        assert(crate::pidfile::is_digit(ds[i]));
    }
    lemma_digits_val_matches(ds);
}

/// Digit characters built from digit bytes carry the same value.
proof fn lemma_digits_val_matches(ds: Seq<u8>)
    requires
        forall|i: int| 0 <= i < ds.len() ==> crate::pidfile::is_digit(#[trigger] ds[i]),
    ensures
        digits_val(ds.map_values(|b: u8| b as char)) == crate::pidfile::dec_val(ds),
    decreases ds.len(),
{
    let cs = ds.map_values(|b: u8| b as char);
    if ds.len() > 0 {
        lemma_digits_val_matches(ds.drop_last());
        assert(cs.drop_last() =~= ds.drop_last().map_values(|b: u8| b as char));
        assert(cs.last() == ds.last() as char);
        assert((cs.last() as u32 - 48) as nat == (ds.last() - 48) as nat);
    }
}

/// No opaque leaf anywhere in a tree: only such trees have a text
/// form that reads back.
pub open spec fn wf_json(v: JsonV) -> bool
    decreases v, 1int,
{
    match v {
        JsonV::Other => false,
        JsonV::Arr(a) => wf_items(a),
        JsonV::Obj(ms) => wf_mems(ms),
        _ => true,
    }
}

/// Well-formedness of every array element.
pub open spec fn wf_items(a: Seq<JsonV>) -> bool
    decreases a, 0int,
{
    if a.len() == 0 {
        true
    } else {
        wf_json(a[0]) && wf_items(a.drop_first())
    }
}

/// Well-formedness of every object member value.
pub open spec fn wf_mems(ms: Seq<(Seq<char>, JsonV)>) -> bool
    decreases ms, 0int,
{
    if ms.len() == 0 {
        true
    } else {
        wf_json(ms[0].1) && wf_mems(ms.drop_first())
    }
}

/// The parsing fuel a tree needs.
pub open spec fn needv(v: JsonV) -> nat
    decreases v, 1int,
{
    match v {
        JsonV::Arr(a) => 1 + needi(a),
        JsonV::Obj(ms) => 1 + needm(ms),
        _ => 1,
    }
}

/// The parsing fuel an element list needs.
pub open spec fn needi(a: Seq<JsonV>) -> nat
    decreases a, 0int,
{
    if a.len() == 0 {
        1
    } else if a.len() == 1 {
        1 + needv(a[0])
    } else {
        1 + needv(a[0]) + needi(a.drop_first())
    }
}

/// The parsing fuel a member list needs.
pub open spec fn needm(ms: Seq<(Seq<char>, JsonV)>) -> nat
    decreases ms, 0int,
{
    if ms.len() == 0 {
        1
    } else if ms.len() == 1 {
        1 + needv(ms[0].1)
    } else {
        1 + needv(ms[0].1) + needm(ms.drop_first())
    }
}

/// A tree's text is at least as long as the fuel it needs.
proof fn lemma_ser_need(v: JsonV)
    requires
        wf_json(v),
    ensures
        ser_json(v).len() >= needv(v),
    decreases v, 1int,
{
    match v {
        JsonV::Num(n) => {
            lemma_dec_chars_canon(n);
        },
        JsonV::Arr(a) => {
            lemma_ser_need_items(a);
            assert(ser_json(v).len() == 2 + ser_elems(a).len());
        },
        JsonV::Obj(ms) => {
            lemma_ser_need_mems(ms);
            assert(ser_json(v).len() == 2 + ser_members(ms).len());
        },
        _ => {},
    }
}

/// An element list's text, with its closing bracket, is at least as
/// long as the fuel it needs.
proof fn lemma_ser_need_items(a: Seq<JsonV>)
    requires
        wf_items(a),
    ensures
        ser_elems(a).len() + 1 >= needi(a),
    decreases a, 0int,
{
    if a.len() == 0 {
    } else if a.len() == 1 {
        lemma_ser_elems_first(a);
        lemma_ser_need(a[0]);
    } else {
        lemma_ser_elems_first(a);
        lemma_ser_need(a[0]);
        lemma_ser_need_items(a.drop_first());
    }
}

/// A member list's text, with its closing brace, is at least as long
/// as the fuel it needs.
proof fn lemma_ser_need_mems(ms: Seq<(Seq<char>, JsonV)>)
    requires
        wf_mems(ms),
    ensures
        ser_members(ms).len() + 1 >= needm(ms),
    decreases ms, 0int,
{
    if ms.len() == 0 {
    } else if ms.len() == 1 {
        lemma_ser_members_first(ms);
        lemma_ser_need(ms[0].1);
    } else {
        lemma_ser_members_first(ms);
        lemma_ser_need(ms[0].1);
        lemma_ser_need_mems(ms.drop_first());
    }
}

/// The first character of a tree's text: never whitespace, never a
/// delimiter.
proof fn lemma_ser_head(v: JsonV)
    requires
        wf_json(v),
    ensures
        ser_json(v).len() > 0,
        !is_ws(ser_json(v)[0]),
        ser_json(v)[0] != ']' && ser_json(v)[0] != '}' && ser_json(v)[0] != ',',
{
    match v {
        JsonV::Num(n) => {
            lemma_dec_chars_canon(n);
            assert(is_digit_ch(dec_chars(n)[0]));
        },
        _ => {},
    }
}

/// Where a run of digits followed by a non-digit ends.
proof fn lemma_digits_end_exact(s: Seq<char>, i: int, e: int)
    requires
        0 <= i <= e <= s.len(),
        forall|j: int| i <= j < e ==> is_digit_ch(#[trigger] s[j]),
        e == s.len() || !is_digit_ch(s[e]),
    ensures
        digits_end(s, i) == e,
    decreases e - i,
{
    if i < e {
        lemma_digits_end_exact(s, i + 1, e);
    }
}

/// A serialized number in context reads back as the number.
proof fn lemma_number_round_trip(n: u64, s: Seq<char>, i: int)
    requires
        0 <= i,
        i + dec_chars(n).len() <= s.len(),
        s.subrange(i, i + dec_chars(n).len()) == dec_chars(n),
        i + dec_chars(n).len() == s.len() || (!is_digit_ch(s[i + dec_chars(n).len()]) && s[i
            + dec_chars(n).len()] != '.' && s[i + dec_chars(n).len()] != 'e' && s[i + dec_chars(
            n,
        ).len()] != 'E' && s[i + dec_chars(n).len()] != '-'),
    ensures
        sp_number(s, i) == Option::Some((JsonV::Num(n), i + dec_chars(n).len())),
{
    lemma_dec_chars_canon(n);
    let d = dec_chars(n);
    let e = i + d.len();
    assert(forall|j: int| i <= j < e ==> s[j] == d[j - i]);
    assert(s[i] == d[0]);
    assert(is_digit_ch(s[i]));
    assert(s[i] != '-');
    assert forall|j: int| i <= j < e implies is_digit_ch(#[trigger] s[j]) by {
        assert(s[j] == d[j - i]);
    }
    lemma_digits_end_exact(s, i, e);
    assert(digits_end(s, i) == e);
    assert(d.len() > 1 ==> s[i] != '0') by {
        if d.len() > 1 {
            assert(n >= 10);
            assert(d[0] as u32 != 48);
        }
    }
    assert(s.subrange(i, e) =~= d);
    lemma_digits_val_subrange(s, i, e, d);
    assert(digits_val(s.subrange(i, e)) == n);
}

/// Equal digit runs have equal values.
proof fn lemma_digits_val_subrange(s: Seq<char>, i: int, e: int, d: Seq<char>)
    requires
        0 <= i <= e <= s.len(),
        s.subrange(i, e) == d,
    ensures
        digits_val(s.subrange(i, e)) == digits_val(d),
{
}

/// A serialized string body in context reads back as the string.
proof fn lemma_string_round_trip(t: Seq<char>, s: Seq<char>, i: int)
    requires
        0 <= i,
        i + esc_str(t).len() + 1 <= s.len(),
        s.subrange(i, i + esc_str(t).len()) == esc_str(t),
        s[i + esc_str(t).len()] == '"',
    ensures
        sp_string(s, i) == Option::Some((t, i + esc_str(t).len() + 1)),
    decreases t.len(),
{
    let et = esc_str(t);
    assert(forall|j: int| 0 <= j < et.len() ==> s[i + j] == et[j]);
    if t.len() == 0 {
        assert(et =~= Seq::<char>::empty());
        assert(s[i] == '"');
    } else {
        lemma_esc_str_first(t);
        let c = t[0];
        let e0 = esc_char(c);
        let t2 = t.drop_first();
        let et2 = esc_str(t2);
        assert(et == e0 + et2);
        assert forall|j: int| 0 <= j < e0.len() implies s[i + j] == e0[j] by {
            assert(et[j] == e0[j]);
            assert(s[i + j] == et[j]);
        }
        let i2 = i + e0.len();
        assert forall|j: int| 0 <= j < et2.len() implies s[i2 + j] == et2[j] by {
            assert(et[e0.len() + j] == et2[j]);
            assert(s[i + (e0.len() + j)] == et[e0.len() + j]);
        }
        assert(s.subrange(i2, i2 + et2.len()) =~= et2);
        assert(s[i2 + et2.len()] == '"');
        lemma_string_round_trip(t2, s, i2);
        assert(seq![c] + t2 =~= t);
        if c == '"' || c == '\\' {
            assert(s[i] == '\\' && s[i + 1] == c);
        } else if c == '\n' {
            assert(s[i] == '\\' && s[i + 1] == 'n');
        } else if c == '\t' {
            assert(s[i] == '\\' && s[i + 1] == 't');
        } else if c == '\r' {
            assert(s[i] == '\\' && s[i + 1] == 'r');
        } else if c as u32 == 8 {
            assert(s[i] == '\\' && s[i + 1] == 'b');
            let d: char = (8 as u8) as char;
            assert(d as u32 == 8);
            vstd::utf8::char_u32_cast(c, 8);
            vstd::utf8::char_u32_cast(d, 8);
            assert(d == c);
        } else if c as u32 == 12 {
            assert(s[i] == '\\' && s[i + 1] == 'f');
            let d: char = (12 as u8) as char;
            assert(d as u32 == 12);
            vstd::utf8::char_u32_cast(c, 12);
            vstd::utf8::char_u32_cast(d, 12);
            assert(d == c);
        } else if (c as u32) < 32 {
            assert(s[i] == '\\' && s[i + 1] == 'u' && s[i + 2] == '0' && s[i + 3] == '0');
            assert(s[i + 4] == hex_digit((c as u32) / 16));
            assert(s[i + 5] == hex_digit((c as u32) % 16));
            assert((c as u32) / 16 < 16 && (c as u32) % 16 < 16);
            lemma_hex_round_trip((c as u32) / 16);
            lemma_hex_round_trip((c as u32) % 16);
            assert(hex_val('0') == 0);
            assert(hex_val(s[i + 2]) == 0 && hex_val(s[i + 3]) == 0);
            assert(hex_val(s[i + 4]) == (c as u32) / 16);
            assert(hex_val(s[i + 5]) == (c as u32) % 16);
            vstd::arithmetic::div_mod::lemma_fundamental_div_mod(c as u32 as int, 16);
            let code = ((hex_val(s[i + 2]) * 16 + hex_val(s[i + 3])) * 16 + hex_val(s[i + 4]))
                * 16 + hex_val(s[i + 5]);
            assert(code == ((c as u32) / 16) * 16 + (c as u32) % 16);
            assert(code == c as u32);
            let u: u32 = c as u32;
            assert(u < 32 ==> ((u as u8) as u32 == u)) by (bit_vector);
            assert((u as u8) as u32 == u);
            let d: char = (u as u8) as char;
            assert(d as u32 == u);
            vstd::utf8::char_u32_cast(c, u);
            vstd::utf8::char_u32_cast(d, u);
            assert(d == c);
            assert((code as u8) as char == c);
        } else {
            assert(s[i] == c);
            assert(c != '"' && c != '\\');
        }
        assert(e0.len() >= 1);
        assert(sp_string(s, i) matches Option::Some((w, q)) && q == i + et.len() + 1);
        assert(sp_string(s, i) matches Option::Some((w, q)) && w == seq![c] + t2);
        assert(sp_string(s, i) == Option::Some((t, i + et.len() + 1)));
    }
}

/// A character that may legally follow a value inside a document:
/// a separator or a closing bracket.
pub open spec fn is_delim(c: char) -> bool {
    c == ',' || c == ']' || c == '}'
}

/// A serialized value in context reads back as the value.
proof fn lemma_value_round_trip(v: JsonV, s: Seq<char>, i: int, fuel: nat)
    requires
        wf_json(v),
        0 <= i,
        i + ser_json(v).len() <= s.len(),
        s.subrange(i, i + ser_json(v).len()) == ser_json(v),
        i + ser_json(v).len() == s.len() || is_delim(s[i + ser_json(v).len()]),
        fuel >= needv(v),
    ensures
        sp_value(s, i, fuel) == Option::Some((v, i + ser_json(v).len())),
    decreases v, 1int,
{
    let w = ser_json(v);
    let l = w.len();
    assert(forall|j: int| 0 <= j < l ==> s[i + j] == w[j]);
    lemma_ser_head(v);
    assert(s[i] == w[0]);
    assert(skip_ws(s, i) == i);
    match v {
        JsonV::Null => {
            assert(s.subrange(i, i + 4) =~= seq!['n', 'u', 'l', 'l']);
        },
        JsonV::Bool(b) => {
            if b {
                assert(s.subrange(i, i + 4) =~= seq!['t', 'r', 'u', 'e']);
            } else {
                assert(s.subrange(i, i + 5) =~= seq!['f', 'a', 'l', 's', 'e']);
                assert(s[i] == 'f');
            }
        },
        JsonV::Num(n) => {
            lemma_dec_chars_canon(n);
            assert(is_digit_ch(s[i]));
            assert(s[i] != 'n' && s[i] != 't' && s[i] != 'f' && s[i] != '"' && s[i] != '['
                && s[i] != '{');
            assert(s.subrange(i, i + dec_chars(n).len()) =~= dec_chars(n));
            lemma_number_round_trip(n, s, i);
        },
        JsonV::Str(t) => {
            assert(s[i] == '"');
            assert forall|j: int| 0 <= j < esc_str(t).len() implies s[i + 1 + j] == esc_str(t)[j]
                by {
                assert(w[1 + j] == esc_str(t)[j]);
            }
            assert(s.subrange(i + 1, i + 1 + esc_str(t).len()) =~= esc_str(t));
            assert(s[i + 1 + esc_str(t).len()] == w[l - 1]);
            assert(w[l - 1] == '"');
            lemma_string_round_trip(t, s, i + 1);
        },
        JsonV::Arr(a) => {
            assert(s[i] == '[');
            assert(s[i + l - 1] == w[l - 1]);
            assert(w[l - 1] == ']');
            if a.len() == 0 {
                assert(ser_elems(a) =~= Seq::<char>::empty());
                assert(l == 2);
                assert(s[i + 1] == ']');
                assert(skip_ws(s, i + 1) == i + 1);
                assert(a =~= Seq::<JsonV>::empty());
            } else {
                lemma_ser_elems_first(a);
                lemma_ser_head(a[0]);
                assert(ser_elems(a)[0] == ser_json(a[0])[0]);
                assert(s[i + 1] == w[1]);
                assert(w[1] == ser_elems(a)[0]);
                assert(!is_ws(s[i + 1]));
                assert(skip_ws(s, i + 1) == i + 1);
                assert(s[i + 1] != ']');
                assert forall|j: int| 0 <= j < ser_elems(a).len() implies s[i + 1 + j]
                    == ser_elems(a)[j] by {
                    assert(w[1 + j] == ser_elems(a)[j]);
                }
                assert(s.subrange(i + 1, i + 1 + ser_elems(a).len()) =~= ser_elems(a));
                lemma_items_round_trip(a, s, i + 1, (fuel - 1) as nat);
            }
        },
        JsonV::Obj(ms) => {
            assert(s[i] == '{');
            assert(s[i + l - 1] == w[l - 1]);
            assert(w[l - 1] == '}');
            if ms.len() == 0 {
                assert(ser_members(ms) =~= Seq::<char>::empty());
                assert(l == 2);
                assert(s[i + 1] == '}');
                assert(skip_ws(s, i + 1) == i + 1);
                assert(ms =~= Seq::<(Seq<char>, JsonV)>::empty());
            } else {
                lemma_ser_members_first(ms);
                assert(ser_member(ms[0])[0] == '"');
                assert(ser_members(ms)[0] == ser_member(ms[0])[0]);
                assert(s[i + 1] == w[1]);
                assert(w[1] == ser_members(ms)[0]);
                assert(s[i + 1] == '"');
                assert(skip_ws(s, i + 1) == i + 1);
                assert(s[i + 1] != '}');
                assert forall|j: int| 0 <= j < ser_members(ms).len() implies s[i + 1 + j]
                    == ser_members(ms)[j] by {
                    assert(w[1 + j] == ser_members(ms)[j]);
                }
                assert(s.subrange(i + 1, i + 1 + ser_members(ms).len()) =~= ser_members(ms));
                lemma_mems_round_trip(ms, s, i + 1, (fuel - 1) as nat);
            }
        },
        JsonV::Other => {
            assert(false);
        },
    }
}

/// A serialized element list in context, followed by its closing
/// bracket, reads back as the list.
proof fn lemma_items_round_trip(a: Seq<JsonV>, s: Seq<char>, i: int, fuel: nat)
    requires
        a.len() > 0,
        wf_items(a),
        0 <= i,
        i + ser_elems(a).len() + 1 <= s.len(),
        s.subrange(i, i + ser_elems(a).len()) == ser_elems(a),
        s[i + ser_elems(a).len()] == ']',
        fuel >= needi(a),
    ensures
        sp_items(s, i, fuel) == Option::Some((a, i + ser_elems(a).len() + 1)),
    decreases a, 0int,
{
    let w = ser_elems(a);
    let l = w.len();
    assert(forall|j: int| 0 <= j < l ==> s[i + j] == w[j]);
    lemma_ser_elems_first(a);
    let v0 = a[0];
    let e0 = ser_json(v0);
    assert forall|j: int| 0 <= j < e0.len() implies s[i + j] == e0[j] by {
        assert(w[j] == e0[j]);
    }
    assert(s.subrange(i, i + e0.len()) =~= e0);
    let after = i + e0.len();
    if a.len() == 1 {
        assert(l == e0.len());
        assert(s[after] == ']');
        lemma_value_round_trip(v0, s, i, (fuel - 1) as nat);
        assert(skip_ws(s, after) == after);
        assert(seq![v0] =~= a);
    } else {
        assert(w == e0 + seq![','] + ser_elems(a.drop_first()));
        assert(s[after] == w[e0.len() as int]);
        assert(w[e0.len() as int] == ',');
        lemma_value_round_trip(v0, s, i, (fuel - 1) as nat);
        assert(skip_ws(s, after) == after);
        let rest = a.drop_first();
        let i2 = after + 1;
        assert forall|j: int| 0 <= j < ser_elems(rest).len() implies s[i2 + j] == ser_elems(
            rest,
        )[j] by {
            assert(w[e0.len() + 1 + j] == ser_elems(rest)[j]);
        }
        assert(s.subrange(i2, i2 + ser_elems(rest).len()) =~= ser_elems(rest));
        assert(i2 + ser_elems(rest).len() == i + l);
        assert(s[i2 + ser_elems(rest).len()] == ']');
        lemma_items_round_trip(rest, s, i2, (fuel - 1) as nat);
        assert(seq![v0] + rest =~= a);
    }
}

/// A serialized member list in context, followed by its closing
/// brace, reads back as the list.
proof fn lemma_mems_round_trip(ms: Seq<(Seq<char>, JsonV)>, s: Seq<char>, i: int, fuel: nat)
    requires
        ms.len() > 0,
        wf_mems(ms),
        0 <= i,
        i + ser_members(ms).len() + 1 <= s.len(),
        s.subrange(i, i + ser_members(ms).len()) == ser_members(ms),
        s[i + ser_members(ms).len()] == '}',
        fuel >= needm(ms),
    ensures
        sp_mems(s, i, fuel) == Option::Some((ms, i + ser_members(ms).len() + 1)),
    decreases ms, 0int,
{
    let w = ser_members(ms);
    let l = w.len();
    assert(forall|j: int| 0 <= j < l ==> s[i + j] == w[j]);
    lemma_ser_members_first(ms);
    let m0 = ms[0];
    let e0 = ser_member(m0);
    assert forall|j: int| 0 <= j < e0.len() implies s[i + j] == e0[j] by {
        assert(w[j] == e0[j]);
    }
    let key = m0.0;
    let ek = esc_str(key);
    assert(e0 == seq!['"'] + ek + seq!['"', ':'] + ser_json(m0.1));
    assert(s[i] == e0[0]);
    assert(e0[0] == '"');
    assert(skip_ws(s, i) == i);
    assert forall|j: int| 0 <= j < ek.len() implies s[i + 1 + j] == ek[j] by {
        assert(e0[1 + j] == ek[j]);
    }
    assert(s.subrange(i + 1, i + 1 + ek.len()) =~= ek);
    assert(s[i + 1 + ek.len()] == e0[(1 + ek.len()) as int]);
    assert(e0[(1 + ek.len()) as int] == '"');
    lemma_string_round_trip(key, s, i + 1);
    let jc = i + 2 + ek.len();
    assert(s[jc] == e0[(2 + ek.len()) as int]);
    assert(e0[(2 + ek.len()) as int] == ':');
    assert(skip_ws(s, jc) == jc);
    let iv = jc + 1;
    let ev = ser_json(m0.1);
    assert forall|j: int| 0 <= j < ev.len() implies s[iv + j] == ev[j] by {
        assert(e0[3 + ek.len() + j] == ev[j]);
    }
    assert(s.subrange(iv, iv + ev.len()) =~= ev);
    let after = iv + ev.len();
    assert(after == i + e0.len());
    if ms.len() == 1 {
        assert(l == e0.len());
        assert(s[after] == '}');
        lemma_value_round_trip(m0.1, s, iv, (fuel - 1) as nat);
        assert(skip_ws(s, after) == after);
        assert(seq![(key, m0.1)] =~= ms);
        assert((key, m0.1) == m0);
    } else {
        assert(w == e0 + seq![','] + ser_members(ms.drop_first()));
        assert(s[after] == w[e0.len() as int]);
        assert(w[e0.len() as int] == ',');
        lemma_value_round_trip(m0.1, s, iv, (fuel - 1) as nat);
        assert(skip_ws(s, after) == after);
        let rest = ms.drop_first();
        let i2 = after + 1;
        assert forall|j: int| 0 <= j < ser_members(rest).len() implies s[i2 + j] == ser_members(
            rest,
        )[j] by {
            assert(w[e0.len() + 1 + j] == ser_members(rest)[j]);
        }
        assert(s.subrange(i2, i2 + ser_members(rest).len()) =~= ser_members(rest));
        assert(i2 + ser_members(rest).len() == i + l);
        assert(s[i2 + ser_members(rest).len()] == '}');
        lemma_mems_round_trip(rest, s, i2, (fuel - 1) as nat);
        assert((key, m0.1) == m0);
        assert(seq![m0] + rest =~= ms);
    }
}

/// Text round trip: the serialized text of a well-formed tree reads
/// back as exactly that tree.
pub proof fn lemma_text_round_trip(v: JsonV)
    requires
        wf_json(v),
    ensures
        sp_document(ser_json(v)) == Option::Some(v),
{
    let s = ser_json(v);
    lemma_ser_need(v);
    assert(s.subrange(0, s.len() as int) =~= s);
    lemma_value_round_trip(v, s, 0, s.len());
    assert(skip_ws(s, s.len() as int) == s.len());
}

/// An optional number renders to a well-formed leaf.
proof fn lemma_wf_opt_num(o: Option<u64>)
    ensures
        wf_json(crate::render::render_opt_num(o)),
{
    match o {
        Option::Some(n) => {
            assert(crate::render::render_opt_num(o) == JsonV::Num(n));
        },
        Option::None => {
            assert(crate::render::render_opt_num(o) == JsonV::Null);
        },
    }
}

/// An optional string renders to a well-formed leaf.
proof fn lemma_wf_opt_str(o: Option<Seq<char>>)
    ensures
        wf_json(crate::render::render_opt_str(o)),
{
    match o {
        Option::Some(s) => {
            assert(crate::render::render_opt_str(o) == JsonV::Str(s));
        },
        Option::None => {
            assert(crate::render::render_opt_str(o) == JsonV::Null);
        },
    }
}

/// A rendered string list is well formed.
proof fn lemma_wf_strs(ss: Seq<Seq<char>>)
    ensures
        wf_items(crate::render::render_strs(ss)),
    decreases ss.len(),
{
    let r = crate::render::render_strs(ss);
    if ss.len() > 0 {
        lemma_wf_strs(ss.drop_first());
        assert(r.drop_first() =~= crate::render::render_strs(ss.drop_first()));
        assert(r[0] == JsonV::Str(ss[0]));
        assert(wf_json(r[0]));
        assert(wf_items(r.drop_first()));
        assert(wf_items(r));
    } else {
        assert(r.len() == 0);
        assert(wf_items(r));
    }
}

/// A rendered number list is well formed.
proof fn lemma_wf_nums(ns: Seq<u64>)
    ensures
        wf_items(crate::render::render_nums(ns)),
    decreases ns.len(),
{
    let r = crate::render::render_nums(ns);
    if ns.len() > 0 {
        lemma_wf_nums(ns.drop_first());
        assert(r.drop_first() =~= crate::render::render_nums(ns.drop_first()));
        assert(r[0] == JsonV::Num(ns[0]));
        assert(wf_json(r[0]));
        assert(wf_items(r.drop_first()));
        assert(wf_items(r));
    } else {
        assert(r.len() == 0);
        assert(wf_items(r));
    }
}

/// Well-formedness of a member list, member by member.
proof fn lemma_wf_mems_cons(ms: Seq<(Seq<char>, JsonV)>)
    requires
        ms.len() > 0,
        wf_json(ms[0].1),
        wf_mems(ms.drop_first()),
    ensures
        wf_mems(ms),
{
}

/// A rendered `user` object is well formed.
proof fn lemma_wf_user(u: crate::config::UserV)
    ensures
        wf_json(crate::render::render_user(u)),
{
    let m1 = ("uid"@, JsonV::Num(u.uid));
    let m2 = ("gid"@, JsonV::Num(u.gid));
    let m3 = ("umask"@, crate::render::render_opt_num(u.umask));
    let m4 = (
        "additionalGids"@,
        match u.additional_gids {
            Option::Some(gs) => JsonV::Arr(crate::render::render_nums(gs)),
            Option::None => JsonV::Null,
        },
    );
    let ms = seq![m1, m2, m3, m4];
    lemma_wf_opt_num(u.umask);
    assert(crate::render::render_user(u) matches JsonV::Obj(s) && s.len() == 4 && s[0] == m1 && s[1] == m2 && s[2] == m3 && s[3] == m4);
    assert(crate::render::render_user(u) matches JsonV::Obj(s) && s =~= ms);
    assert(crate::render::render_user(u) == JsonV::Obj(ms));
    match u.additional_gids {
        Option::Some(gs) => {
            lemma_wf_nums(gs);
        },
        Option::None => {},
    }
    assert(wf_json(m1.1) && wf_json(m2.1) && wf_json(m3.1));
    match u.additional_gids {
        Option::Some(gs) => {
            assert(m4.1 == JsonV::Arr(crate::render::render_nums(gs)));
        },
        Option::None => {
            assert(m4.1 == JsonV::Null);
        },
    }
    assert(wf_json(m4.1));
    assert(seq![m4][0] == m4);
    assert(wf_mems(Seq::<(Seq<char>, JsonV)>::empty()));
    assert(seq![m4].drop_first() =~= Seq::<(Seq<char>, JsonV)>::empty());
    assert(wf_mems(seq![m4]));
    assert(seq![m3, m4][0] == m3);
    assert(seq![m3, m4].drop_first() =~= seq![m4]);
    assert(wf_mems(seq![m3, m4]));
    assert(seq![m2, m3, m4][0] == m2);
    assert(seq![m2, m3, m4].drop_first() =~= seq![m3, m4]);
    assert(wf_mems(seq![m2, m3, m4]));
    assert(ms[0] == m1);
    assert(ms.drop_first() =~= seq![m2, m3, m4]);
    assert(wf_mems(ms));
}

/// A rendered `root` object is well formed.
proof fn lemma_wf_root(r: crate::config::RootFsV)
    ensures
        wf_json(crate::render::render_root(r)),
{
    let m1 = ("path"@, JsonV::Str(r.path));
    let m2 = ("readonly"@, JsonV::Bool(r.readonly));
    let ms = seq![m1, m2];
    assert(crate::render::render_root(r) matches JsonV::Obj(s) && s.len() == 2 && s[0] == m1 && s[1] == m2);
    assert(crate::render::render_root(r) matches JsonV::Obj(s) && s =~= ms);
    assert(crate::render::render_root(r) == JsonV::Obj(ms));
    assert(wf_json(m1.1) && wf_json(m2.1));
    assert(seq![m2][0] == m2);
    assert(wf_mems(Seq::<(Seq<char>, JsonV)>::empty()));
    assert(seq![m2].drop_first() =~= Seq::<(Seq<char>, JsonV)>::empty());
    assert(wf_mems(seq![m2]));
    assert(ms[0] == m1);
    assert(ms.drop_first() =~= seq![m2]);
    assert(wf_mems(ms));
}

/// A rendered `process` object is well formed.
proof fn lemma_wf_process(p: crate::config::ProcessV)
    ensures
        wf_json(crate::render::render_process(p)),
{
    let m1 = ("terminal"@, JsonV::Bool(p.terminal));
    let m2 = ("user"@, crate::render::render_user(p.user));
    let m3 = ("cwd"@, JsonV::Str(p.cwd));
    let m4 = (
        "env"@,
        match p.env {
            Option::Some(es) => JsonV::Arr(crate::render::render_strs(es)),
            Option::None => JsonV::Null,
        },
    );
    let m5 = ("args"@, JsonV::Arr(crate::render::render_strs(p.args)));
    let ms = seq![m1, m2, m3, m4, m5];
    assert(crate::render::render_process(p) matches JsonV::Obj(s) && s.len() == 5 && s[0] == m1 && s[1] == m2 && s[2] == m3 && s[3] == m4 && s[4] == m5);
    assert(crate::render::render_process(p) matches JsonV::Obj(s) && s =~= ms);
    assert(crate::render::render_process(p) == JsonV::Obj(ms));
    lemma_wf_user(p.user);
    match p.env {
        Option::Some(es) => {
            lemma_wf_strs(es);
        },
        Option::None => {},
    }
    lemma_wf_strs(p.args);
    assert(wf_json(m1.1) && wf_json(m2.1) && wf_json(m3.1) && wf_json(m5.1));
    match p.env {
        Option::Some(es) => {
            assert(m4.1 == JsonV::Arr(crate::render::render_strs(es)));
        },
        Option::None => {
            assert(m4.1 == JsonV::Null);
        },
    }
    assert(wf_json(m4.1));
    assert(seq![m5][0] == m5);
    assert(wf_mems(Seq::<(Seq<char>, JsonV)>::empty()));
    assert(seq![m5].drop_first() =~= Seq::<(Seq<char>, JsonV)>::empty());
    assert(wf_mems(seq![m5]));
    assert(seq![m4, m5][0] == m4);
    assert(seq![m4, m5].drop_first() =~= seq![m5]);
    assert(wf_mems(seq![m4, m5]));
    assert(seq![m3, m4, m5][0] == m3);
    assert(seq![m3, m4, m5].drop_first() =~= seq![m4, m5]);
    assert(wf_mems(seq![m3, m4, m5]));
    assert(seq![m2, m3, m4, m5][0] == m2);
    assert(seq![m2, m3, m4, m5].drop_first() =~= seq![m3, m4, m5]);
    assert(wf_mems(seq![m2, m3, m4, m5]));
    assert(ms[0] == m1);
    assert(ms.drop_first() =~= seq![m2, m3, m4, m5]);
    assert(wf_mems(ms));
}

/// A rendered mount entry is well formed.
proof fn lemma_wf_mount(m: crate::config::MountEntryV)
    ensures
        wf_json(crate::render::render_mount(m)),
{
    let m1 = ("destination"@, JsonV::Str(m.destination));
    let m2 = ("source"@, crate::render::render_opt_str(m.source));
    let m3 = (
        "options"@,
        match m.options {
            Option::Some(os) => JsonV::Arr(crate::render::render_strs(os)),
            Option::None => JsonV::Null,
        },
    );
    let ms = seq![m1, m2, m3];
    lemma_wf_opt_str(m.source);
    assert(crate::render::render_mount(m) matches JsonV::Obj(s) && s.len() == 3 && s[0] == m1 && s[1] == m2 && s[2] == m3);
    assert(crate::render::render_mount(m) matches JsonV::Obj(s) && s =~= ms);
    assert(crate::render::render_mount(m) == JsonV::Obj(ms));
    match m.options {
        Option::Some(os) => {
            lemma_wf_strs(os);
        },
        Option::None => {},
    }
    assert(wf_json(m1.1) && wf_json(m2.1));
    match m.options {
        Option::Some(os) => {
            assert(m3.1 == JsonV::Arr(crate::render::render_strs(os)));
        },
        Option::None => {
            assert(m3.1 == JsonV::Null);
        },
    }
    assert(wf_json(m3.1));
    assert(seq![m3][0] == m3);
    assert(wf_mems(Seq::<(Seq<char>, JsonV)>::empty()));
    assert(seq![m3].drop_first() =~= Seq::<(Seq<char>, JsonV)>::empty());
    assert(wf_mems(seq![m3]));
    assert(seq![m2, m3][0] == m2);
    assert(seq![m2, m3].drop_first() =~= seq![m3]);
    assert(wf_mems(seq![m2, m3]));
    assert(ms[0] == m1);
    assert(ms.drop_first() =~= seq![m2, m3]);
    assert(wf_mems(ms));
}

/// A rendered mount list is well formed.
proof fn lemma_wf_mounts(ms: Seq<crate::config::MountEntryV>)
    ensures
        wf_items(crate::render::render_mounts(ms)),
    decreases ms.len(),
{
    let r = crate::render::render_mounts(ms);
    if ms.len() > 0 {
        lemma_wf_mounts(ms.drop_first());
        assert(r.drop_first() =~= crate::render::render_mounts(ms.drop_first()));
        lemma_wf_mount(ms[0]);
        assert(r[0] == crate::render::render_mount(ms[0]));
        assert(wf_json(r[0]));
        assert(wf_items(r));
    }
}

/// A rendered namespace list is well formed.
proof fn lemma_wf_nss(ns: Seq<crate::config::NsEntryV>)
    ensures
        wf_items(crate::render::render_nss(ns)),
    decreases ns.len(),
{
    let r = crate::render::render_nss(ns);
    if ns.len() > 0 {
        lemma_wf_nss(ns.drop_first());
        assert(r.drop_first() =~= crate::render::render_nss(ns.drop_first()));
        let n0 = ns[0];
        let m1 = ("type"@, JsonV::Str(n0.ns_type));
        assert(crate::render::render_ns(n0) matches JsonV::Obj(s) && s.len() == 1 && s[0]
            == m1);
        assert(crate::render::render_ns(n0) matches JsonV::Obj(s) && s =~= seq![m1]);
        assert(crate::render::render_ns(n0) == JsonV::Obj(seq![m1]));
        assert(wf_json(m1.1));
        assert(seq![m1][0] == m1);
        assert(wf_mems(Seq::<(Seq<char>, JsonV)>::empty()));
        assert(wf_mems(Seq::<(Seq<char>, JsonV)>::empty()));
    assert(seq![m1].drop_first() =~= Seq::<(Seq<char>, JsonV)>::empty());
        assert(wf_mems(seq![m1]));
        assert(r[0] == crate::render::render_ns(n0));
        assert(wf_json(r[0]));
        assert(wf_items(r));
    }
}

/// A rendered `linux` object is well formed.
proof fn lemma_wf_linux(l: crate::config::LinuxCfgV)
    ensures
        wf_json(crate::render::render_linux(l)),
{
    let m1 = ("namespaces"@, JsonV::Arr(crate::render::render_nss(l.namespaces)));
    assert(crate::render::render_linux(l) matches JsonV::Obj(s) && s.len() == 1 && s[0] == m1);
    assert(crate::render::render_linux(l) matches JsonV::Obj(s) && s =~= seq![m1]);
    assert(crate::render::render_linux(l) == JsonV::Obj(seq![m1]));
    lemma_wf_nss(l.namespaces);
    assert(wf_json(m1.1));
    assert(seq![m1][0] == m1);
    assert(wf_mems(Seq::<(Seq<char>, JsonV)>::empty()));
    assert(seq![m1].drop_first() =~= Seq::<(Seq<char>, JsonV)>::empty());
    assert(wf_mems(seq![m1]));
}

/// A rendered configuration tree is well formed: it has a text form
/// that reads back.
proof fn lemma_wf_config(c: crate::config::OciSpecV)
    ensures
        wf_json(crate::render::render_config(c)),
{
    let m1 = ("ociVersion"@, JsonV::Str(c.oci_version));
    let m2 = ("root"@, crate::render::render_root(c.root));
    let m3 = ("process"@, crate::render::render_process(c.process));
    let m4 = ("hostname"@, crate::render::render_opt_str(c.hostname));
    let m5 = ("domainname"@, crate::render::render_opt_str(c.domainname));
    let m6 = (
        "mounts"@,
        match c.mounts {
            Option::Some(ms) => JsonV::Arr(crate::render::render_mounts(ms)),
            Option::None => JsonV::Null,
        },
    );
    let m7 = ("linux"@, crate::render::render_opt_linux(c.linux));
    let ms = seq![m1, m2, m3, m4, m5, m6, m7];
    lemma_wf_opt_str(c.hostname);
    lemma_wf_opt_str(c.domainname);
    assert(crate::render::render_config(c) matches JsonV::Obj(s) && s.len() == 7 && s[0] == m1 && s[1] == m2 && s[2] == m3 && s[3] == m4 && s[4] == m5 && s[5] == m6 && s[6] == m7);
    assert(crate::render::render_config(c) matches JsonV::Obj(s) && s =~= ms);
    assert(crate::render::render_config(c) == JsonV::Obj(ms));
    lemma_wf_root(c.root);
    lemma_wf_process(c.process);
    match c.mounts {
        Option::Some(mv) => {
            lemma_wf_mounts(mv);
        },
        Option::None => {},
    }
    match c.linux {
        Option::Some(l) => {
            lemma_wf_linux(l);
        },
        Option::None => {},
    }
    assert(wf_json(m1.1) && wf_json(m2.1) && wf_json(m3.1) && wf_json(m4.1) && wf_json(m5.1));
    match c.mounts {
        Option::Some(mv) => {
            assert(m6.1 == JsonV::Arr(crate::render::render_mounts(mv)));
        },
        Option::None => {
            assert(m6.1 == JsonV::Null);
        },
    }
    assert(wf_json(m6.1));
    match c.linux {
        Option::Some(l) => {
            assert(m7.1 == crate::render::render_linux(l));
        },
        Option::None => {
            assert(m7.1 == JsonV::Null);
        },
    }
    assert(wf_json(m7.1));
    assert(seq![m7][0] == m7);
    assert(wf_mems(Seq::<(Seq<char>, JsonV)>::empty()));
    assert(seq![m7].drop_first() =~= Seq::<(Seq<char>, JsonV)>::empty());
    assert(wf_mems(seq![m7]));
    assert(seq![m6, m7][0] == m6);
    assert(seq![m6, m7].drop_first() =~= seq![m7]);
    assert(wf_mems(seq![m6, m7]));
    assert(seq![m5, m6, m7][0] == m5);
    assert(seq![m5, m6, m7].drop_first() =~= seq![m6, m7]);
    assert(wf_mems(seq![m5, m6, m7]));
    assert(seq![m4, m5, m6, m7][0] == m4);
    assert(seq![m4, m5, m6, m7].drop_first() =~= seq![m5, m6, m7]);
    assert(wf_mems(seq![m4, m5, m6, m7]));
    assert(seq![m3, m4, m5, m6, m7][0] == m3);
    assert(seq![m3, m4, m5, m6, m7].drop_first() =~= seq![m4, m5, m6, m7]);
    assert(wf_mems(seq![m3, m4, m5, m6, m7]));
    assert(seq![m2, m3, m4, m5, m6, m7][0] == m2);
    assert(seq![m2, m3, m4, m5, m6, m7].drop_first() =~= seq![m3, m4, m5, m6, m7]);
    assert(wf_mems(seq![m2, m3, m4, m5, m6, m7]));
    assert(ms[0] == m1);
    assert(ms.drop_first() =~= seq![m2, m3, m4, m5, m6, m7]);
    assert(wf_mems(ms));
}

/// Configuration round trip, down to the wire: the JSON text of a
/// well-formed configuration parses back to the same document tree,
/// and that tree reads back as the same configuration.
pub proof fn lemma_config_text_round_trip(c: crate::config::OciSpecV)
    requires
        crate::config::spec_wf(c),
    ensures
        sp_document(ser_json(crate::render::render_config(c))) == Option::Some(
            crate::render::render_config(c),
        ),
        crate::config::spec_of_json(crate::render::render_config(c)) == Option::Some(c),
{
    lemma_wf_config(c);
    lemma_text_round_trip(crate::render::render_config(c));
    crate::render::lemma_config_round_trip(c);
}

/// Relies on String::push: appends exactly the one character.
#[verifier::external_body]
fn push_char(s: &mut String, c: char)
    ensures
        final (s)@ == old(s)@.push(c),
{
    s.push(c);
}

/// Appends the escape of one character.
fn write_escaped(out: &mut String, c: char)
    ensures
        final (out)@ == old(out)@ + esc_char(c),
{
    if c == '"' {
        out.append("\\\"");
        proof {
            reveal_strlit("\\\"");
            assert(old(out)@ + "\\\""@ =~= old(out)@ + esc_char(c));
        }
    } else if c == '\\' {
        out.append("\\\\");
        proof {
            reveal_strlit("\\\\");
            assert(old(out)@ + "\\\\"@ =~= old(out)@ + esc_char(c));
        }
    } else if c == '\n' {
        out.append("\\n");
        proof {
            reveal_strlit("\\n");
            assert(old(out)@ + "\\n"@ =~= old(out)@ + esc_char(c));
        }
    } else if c == '\t' {
        out.append("\\t");
        proof {
            reveal_strlit("\\t");
            assert(old(out)@ + "\\t"@ =~= old(out)@ + esc_char(c));
        }
    } else if c == '\r' {
        out.append("\\r");
        proof {
            reveal_strlit("\\r");
            assert(old(out)@ + "\\r"@ =~= old(out)@ + esc_char(c));
        }
    } else if c as u32 == 8 {
        out.append("\\b");
        proof {
            reveal_strlit("\\b");
            assert(old(out)@ + "\\b"@ =~= old(out)@ + esc_char(c));
        }
    } else if c as u32 == 12 {
        out.append("\\f");
        proof {
            reveal_strlit("\\f");
            assert(old(out)@ + "\\f"@ =~= old(out)@ + esc_char(c));
        }
    } else if (c as u32) < 32 {
        let code = c as u32;
        out.append("\\u00");
        let hi = code / 16;
        let lo = code % 16;
        let hc: char = if hi < 10 {
            (48 + hi as u8) as char
        } else {
            (87 + hi as u8) as char
        };
        let lc: char = if lo < 10 {
            (48 + lo as u8) as char
        } else {
            (87 + lo as u8) as char
        };
        push_char(out, hc);
        push_char(out, lc);
        proof {
            reveal_strlit("\\u00");
            assert(hc == hex_digit(code / 16));
            assert(lc == hex_digit(code % 16));
            assert(old(out)@ + "\\u00"@ + seq![hc] + seq![lc] =~= old(out)@ + esc_char(c));
            assert(out@ =~= old(out)@ + "\\u00"@ + seq![hc] + seq![lc]);
        }
    } else {
        push_char(out, c);
        proof {
            assert(old(out)@.push(c) =~= old(out)@ + esc_char(c));
        }
    }
}

/// The escape of one character longer a prefix.
proof fn lemma_esc_str_take_step(s: Seq<char>, i: int)
    requires
        0 <= i < s.len(),
    ensures
        esc_str(s.take(i + 1)) == esc_str(s.take(i)) + esc_char(s[i]),
{
    assert(s.take(i + 1).drop_last() =~= s.take(i));
    assert(s.take(i + 1).last() == s[i]);
}

/// Appends a quoted, escaped string.
fn write_string(out: &mut String, s: &str)
    ensures
        final (out)@ == old(out)@ + seq!['"'] + esc_str(s@) + seq!['"'],
{
    push_char(out, '"');
    let n = s.unicode_len();
    let mut i: usize = 0;
    while i < n
        invariant
            i <= n,
            n == s@.len(),
            out@ == old(out)@ + seq!['"'] + esc_str(s@.take(i as int)),
        decreases n - i,
    {
        let c = s.get_char(i);
        proof {
            lemma_esc_str_take_step(s@, i as int);
        }
        write_escaped(out, c);
        i = i + 1;
    }
    proof {
        assert(s@.take(n as int) =~= s@);
    }
    push_char(out, '"');
    proof {
        assert(out@ =~= old(out)@ + seq!['"'] + esc_str(s@) + seq!['"']);
    }
}

/// Appends the decimal digits of a number.
fn write_number(out: &mut String, n: u64)
    ensures
        final (out)@ == old(out)@ + dec_chars(n),
{
    let digits = crate::pidfile::render_dec(n);
    let mut i: usize = 0;
    while i < digits.len()
        invariant
            i <= digits@.len(),
            digits@ == dec_bytes(n as nat),
            out@ == old(out)@ + dec_chars(n).take(i as int),
        decreases digits@.len() - i,
    {
        push_char(out, digits[i] as char);
        proof {
            assert(dec_chars(n).take(i + 1 as int) =~= dec_chars(n).take(i as int).push(
                digits@[i as int] as char,
            ));
        }
        i = i + 1;
    }
    proof {
        assert(dec_chars(n).take(digits@.len() as int) =~= dec_chars(n));
    }
}

/// One element longer a prefix of an array's text.
proof fn lemma_ser_elems_take_step(a: Seq<JsonV>, i: int)
    requires
        0 <= i < a.len(),
    ensures
        i == 0 ==> ser_elems(a.take(1)) == ser_json(a[0]),
        i > 0 ==> ser_elems(a.take(i + 1)) == ser_elems(a.take(i)) + seq![','] + ser_json(a[i]),
{
    assert(a.take(i + 1).drop_last() =~= a.take(i));
    assert(a.take(i + 1).last() == a[i]);
}

/// One member longer a prefix of an object's text.
proof fn lemma_ser_members_take_step(ms: Seq<(Seq<char>, JsonV)>, i: int)
    requires
        0 <= i < ms.len(),
    ensures
        i == 0 ==> ser_members(ms.take(1)) == ser_member(ms[0]),
        i > 0 ==> ser_members(ms.take(i + 1)) == ser_members(ms.take(i)) + seq![','] + ser_member(
            ms[i],
        ),
{
    assert(ms.take(i + 1).drop_last() =~= ms.take(i));
    assert(ms.take(i + 1).last() == ms[i]);
}

/// Appends the JSON text of a document tree.
fn write_json(out: &mut String, j: &Json)
    ensures
        final (out)@ == old(out)@ + ser_json(json_view(*j)),
    decreases *j,
{
    match j {
        Json::Null => {
            out.append("null");
            proof {
                reveal_strlit("null");
                assert(old(out)@ + "null"@ =~= old(out)@ + ser_json(json_view(*j)));
            }
        },
        Json::Bool(b) => {
            if *b {
                out.append("true");
                proof {
                    reveal_strlit("true");
                    assert(old(out)@ + "true"@ =~= old(out)@ + ser_json(json_view(*j)));
                }
            } else {
                out.append("false");
                proof {
                    reveal_strlit("false");
                    assert(old(out)@ + "false"@ =~= old(out)@ + ser_json(json_view(*j)));
                }
            }
        },
        Json::Num(n) => {
            write_number(out, *n);
        },
        Json::Str(s) => {
            write_string(out, s.as_str());
        },
        Json::Arr(a) => {
            push_char(out, '[');
            let ghost base = out@;
            let ghost av = crate::json::arr_view(a@);
            proof {
                crate::json::lemma_arr_view_index(a@);
            }
            let mut i: usize = 0;
            while i < a.len()
                invariant
                    *j == Json::Arr(*a),
                    i <= a@.len(),
                    av == crate::json::arr_view(a@),
                    av.len() == a@.len(),
                    forall|k: int| 0 <= k < a@.len() ==> av[k] == json_view(#[trigger] a@[k]),
                    out@ == base + ser_elems(av.take(i as int)),
                decreases a@.len() - i,
            {
                if i > 0 {
                    push_char(out, ',');
                }
                proof {
                    assert(decreases_to!(*j => j->Arr_0));
                    assert(j->Arr_0 == *a);
                    assert(decreases_to!(*a => a@));
                    assert(decreases_to!(a@ => a@[i as int]));
                    assert(decreases_to!(*j => a@[i as int]));
                }
                write_json(out, &a[i]);
                proof {
                    lemma_ser_elems_take_step(av, i as int);
                    assert(out@ =~= base + ser_elems(av.take(i + 1 as int)));
                }
                i = i + 1;
            }
            push_char(out, ']');
            proof {
                assert(av.take(a@.len() as int) =~= av);
                assert(out@ =~= old(out)@ + ser_json(json_view(*j)));
            }
        },
        Json::Obj(ms) => {
            push_char(out, '{');
            let ghost base = out@;
            let ghost mv = crate::json::members_view(ms@);
            proof {
                crate::json::lemma_members_view_index(ms@);
            }
            let mut i: usize = 0;
            while i < ms.len()
                invariant
                    *j == Json::Obj(*ms),
                    i <= ms@.len(),
                    mv == crate::json::members_view(ms@),
                    mv.len() == ms@.len(),
                    forall|k: int| 0 <= k < ms@.len() ==> mv[k] == ((#[trigger] ms@[k]).key@,
                        json_view(ms@[k].val)),
                    out@ == base + ser_members(mv.take(i as int)),
                decreases ms@.len() - i,
            {
                if i > 0 {
                    push_char(out, ',');
                }
                write_string(out, ms[i].key.as_str());
                push_char(out, ':');
                proof {
                    assert(decreases_to!(*j => j->Obj_0));
                    assert(j->Obj_0 == *ms);
                    assert(decreases_to!(*ms => ms@));
                    assert(decreases_to!(ms@ => ms@[i as int]));
                    assert(decreases_to!(ms@[i as int] => ms@[i as int].val));
                    assert(decreases_to!(*j => ms@[i as int].val));
                }
                write_json(out, &ms[i].val);
                proof {
                    lemma_ser_members_take_step(mv, i as int);
                    assert(out@ =~= base + ser_members(mv.take(i + 1 as int)));
                }
                i = i + 1;
            }
            push_char(out, '}');
            proof {
                assert(mv.take(ms@.len() as int) =~= mv);
                assert(out@ =~= old(out)@ + ser_json(json_view(*j)));
            }
        },
        Json::Other => {
            proof {
                assert(old(out)@ + Seq::<char>::empty() =~= old(out)@);
            }
        },
    }
}

/// How an executable parse result corresponds to a model parse
/// result: same success, same tree, same end position.
pub open spec fn rel_value(r: Option<(Json, usize)>, v: Option<(JsonV, int)>) -> bool {
    match r {
        Option::Some((j, p)) => v matches Option::Some((w, q)) && json_view(j) == w && p as int
            == q,
        Option::None => v is None,
    }
}

/// Correspondence for element lists.
pub open spec fn rel_items(r: Option<(Vec<Json>, usize)>, v: Option<(Seq<JsonV>, int)>) -> bool {
    match r {
        Option::Some((js, p)) => v matches Option::Some((ws, q)) && crate::json::arr_view(js@)
            == ws && p as int == q,
        Option::None => v is None,
    }
}

/// Correspondence for member lists.
pub open spec fn rel_mems(
    r: Option<(Vec<crate::json::JsonMember>, usize)>,
    v: Option<(Seq<(Seq<char>, JsonV)>, int)>,
) -> bool {
    match r {
        Option::Some((js, p)) => v matches Option::Some((ws, q)) && crate::json::members_view(js@)
            == ws && p as int == q,
        Option::None => v is None,
    }
}

/// Whitespace skipping stays inside the text and lands on no
/// whitespace.
proof fn lemma_skip_ws_bounds(s: Seq<char>, i: int)
    requires
        0 <= i <= s.len(),
    ensures
        i <= skip_ws(s, i) <= s.len(),
        skip_ws(s, i) < s.len() ==> !is_ws(s[skip_ws(s, i)]),
    decreases s.len() - i,
{
    if i < s.len() && is_ws(s[i]) {
        lemma_skip_ws_bounds(s, i + 1);
    }
}

/// The digit run ends inside the text, holds digits only, and ends at
/// no digit.
proof fn lemma_digits_end_bounds(s: Seq<char>, i: int)
    requires
        0 <= i <= s.len(),
    ensures
        i <= digits_end(s, i) <= s.len(),
        forall|k: int| i <= k < digits_end(s, i) ==> is_digit_ch(s[k]),
        digits_end(s, i) < s.len() ==> !is_digit_ch(s[digits_end(s, i)]),
    decreases s.len() - i,
{
    if i < s.len() && is_digit_ch(s[i]) {
        lemma_digits_end_bounds(s, i + 1);
    }
}

/// A digit run's value only grows as digits are appended.
proof fn lemma_digits_val_grows(s: Seq<char>, i: int)
    requires
        0 <= i <= s.len(),
    ensures
        digits_val(s.take(i)) <= digits_val(s),
    decreases s.len() - i,
{
    if i < s.len() {
        assert(s.take(i + 1).drop_last() =~= s.take(i));
        lemma_digits_val_grows(s, i + 1);
    } else {
        assert(s.take(i) =~= s);
    }
}

/// Skips whitespace.
fn p_ws(s: &Vec<char>, i: usize) -> (r: usize)
    requires
        i <= s@.len(),
    ensures
        r as int == skip_ws(s@, i as int),
        i <= r <= s@.len(),
{
    proof {
        lemma_skip_ws_bounds(s@, i as int);
    }
    let mut k = i;
    while k < s.len() && (s[k] == ' ' || s[k] == '\t' || s[k] == '\n' || s[k] == '\r')
        invariant
            i <= k <= s@.len(),
            skip_ws(s@, i as int) == skip_ws(s@, k as int),
        decreases s@.len() - k,
    {
        k = k + 1;
    }
    k
}

/// Scans past decimal digits.
fn p_digits_end(s: &Vec<char>, i: usize) -> (r: usize)
    requires
        i <= s@.len(),
    ensures
        r as int == digits_end(s@, i as int),
        i <= r <= s@.len(),
{
    proof {
        lemma_digits_end_bounds(s@, i as int);
    }
    let mut k = i;
    while k < s.len() && (s[k] as u32) >= 48 && (s[k] as u32) <= 57
        invariant
            i <= k <= s@.len(),
            digits_end(s@, i as int) == digits_end(s@, k as int),
        decreases s@.len() - k,
    {
        k = k + 1;
    }
    k
}

/// Reads one string body, from just inside the opening quote to just
/// past the closing one.
fn p_string(s: &Vec<char>, i: usize) -> (r: Option<(String, usize)>)
    requires
        i <= s@.len(),
    ensures
        match r {
            Option::Some((t, p)) => sp_string(s@, i as int) matches Option::Some((w, q)) && t@
                == w && p as int == q,
            Option::None => sp_string(s@, i as int) is None,
        },
        r matches Option::Some((t, p)) ==> p <= s@.len(),
{
    let mut out = String::new();
    let mut k = i;
    loop
        invariant
            i <= k <= s@.len(),
            (match sp_string(s@, i as int) {
                Option::Some((t, e)) => sp_string(s@, k as int) matches Option::Some((t2, e2))
                    && t == out@ + t2 && e == e2,
                Option::None => sp_string(s@, k as int) is None,
            }),
        decreases s@.len() - k,
    {
        if k >= s.len() {
            return Option::None;
        }
        let c = s[k];
        if c == '"' {
            proof {
                assert(sp_string(s@, k as int) matches Option::Some((t2, e2)) && t2
                    =~= Seq::<char>::empty() && e2 == k + 1);
                assert(match sp_string(s@, i as int) {
                    Option::Some((t, e)) => t =~= out@ && e == k + 1,
                    Option::None => false,
                });
            }
            return Option::Some((out, k + 1));
        } else if c == '\\' {
            if k + 1 >= s.len() {
                return Option::None;
            }
            let e = s[k + 1];
            if e == 'u' {
                if s.len() - k < 6 {
                    return Option::None;
                }
                let h2 = hex_of(s[k + 2]);
                let h3 = hex_of(s[k + 3]);
                let h4 = hex_of(s[k + 4]);
                let h5 = hex_of(s[k + 5]);
                if h2 >= 16 || h3 >= 16 || h4 >= 16 || h5 >= 16 {
                    return Option::None;
                }
                let code = ((h2 * 16 + h3) * 16 + h4) * 16 + h5;
                if code >= 128 {
                    return Option::None;
                }
                let ghost prev = out@;
                push_char(&mut out, (code as u8) as char);
                proof {
                    assert(out@ =~= prev.push((code as u8) as char));
                    assert(forall|t2: Seq<char>|
                        prev + (seq![(code as u8) as char] + t2) =~= out@ + t2);
                }
                k = k + 6;
            } else if e == '"' || e == '\\' || e == '/' || e == 'n' || e == 't' || e == 'r' || e
                == 'b' || e == 'f' {
                let c2: char = if e == '"' {
                    '"'
                } else if e == '\\' {
                    '\\'
                } else if e == '/' {
                    '/'
                } else if e == 'n' {
                    '\n'
                } else if e == 't' {
                    '\t'
                } else if e == 'r' {
                    '\r'
                } else if e == 'b' {
                    (8 as u8) as char
                } else {
                    (12 as u8) as char
                };
                let ghost prev = out@;
                push_char(&mut out, c2);
                proof {
                    assert(out@ =~= prev.push(c2));
                    assert(forall|t2: Seq<char>| prev + (seq![c2] + t2) =~= out@ + t2);
                }
                k = k + 2;
            } else {
                return Option::None;
            }
        } else {
            let ghost prev = out@;
            push_char(&mut out, c);
            proof {
                assert(out@ =~= prev.push(c));
                assert(forall|t2: Seq<char>| prev + (seq![c] + t2) =~= out@ + t2);
            }
            k = k + 1;
        }
    }
}

/// The numeric value of a hexadecimal digit character, or sixteen.
fn hex_of(c: char) -> (r: u32)
    ensures
        r == hex_val(c),
{
    let u = c as u32;
    if u >= 48 && u <= 57 {
        u - 48
    } else if u >= 97 && u <= 102 {
        u - 87
    } else if u >= 65 && u <= 70 {
        u - 55
    } else {
        16
    }
}

/// Reads one number token.
fn p_number(s: &Vec<char>, i: usize) -> (r: Option<(Json, usize)>)
    requires
        i < s@.len(),
        s@[i as int] == '-' || is_digit_ch(s@[i as int]),
    ensures
        rel_value(r, sp_number(s@, i as int)),
        r matches Option::Some((j, p)) ==> p <= s@.len(),
{
    let n = s.len();
    let start: usize = if s[i] == '-' {
        i + 1
    } else {
        i
    };
    proof {
        lemma_digits_end_bounds(s@, start as int);
    }
    let int_end = p_digits_end(s, start);
    if int_end == start {
        return Option::None;
    }
    if s[start] == '0' && int_end > start + 1 {
        return Option::None;
    }
    let frac_end: usize = if int_end < s.len() && s[int_end] == '.' {
        proof {
            lemma_digits_end_bounds(s@, int_end + 1 as int);
        }
        let fe = p_digits_end(s, int_end + 1);
        if fe == int_end + 1 {
            return Option::None;
        }
        fe
    } else {
        int_end
    };
    let mut exp_end: usize = frac_end;
    if frac_end < s.len() && (s[frac_end] == 'e' || s[frac_end] == 'E') {
        let sign_end: usize = if frac_end + 1 < s.len() && (s[frac_end + 1] == '+' || s[frac_end
            + 1] == '-') {
            frac_end + 2
        } else {
            frac_end + 1
        };
        proof {
            lemma_digits_end_bounds(s@, sign_end as int);
        }
        let ee = p_digits_end(s, sign_end);
        if ee == sign_end {
            return Option::None;
        }
        exp_end = ee;
    }
    if start == i && frac_end == int_end && exp_end == frac_end {
        let ghost digs = s@.subrange(start as int, int_end as int);
        proof {
            lemma_digits_end_bounds(s@, start as int);
        }
        let mut acc: u64 = 0;
        let mut j = start;
        let mut over = false;
        while j < int_end
            invariant
                start <= j <= int_end,
                int_end as int == digits_end(s@, start as int),
                int_end <= s@.len(),
                digs == s@.subrange(start as int, int_end as int),
                forall|k: int| start <= k < int_end ==> is_digit_ch(s@[k]),
                !over ==> acc == digits_val(digs.take(j - start)),
                over ==> digits_val(digs) > u64::MAX,
            decreases int_end - j,
        {
            proof {
                assert(is_digit_ch(s@[j as int]));
            }
            let d = (s[j] as u32 - 48) as u64;
            proof {
                assert(digs.take(j - start + 1).drop_last() =~= digs.take(j - start));
                assert(digs.take(j - start + 1).last() == s@[j as int]);
            }
            if !over {
                if acc > (u64::MAX - d) / 10 {
                    proof {
                        vstd::arithmetic::div_mod::lemma_fundamental_div_mod(
                            (u64::MAX - d) as int,
                            10,
                        );
                        lemma_digits_val_grows(digs, j - start + 1);
                        assert(digits_val(digs) > u64::MAX);
                    }
                    over = true;
                } else {
                    proof {
                        vstd::arithmetic::div_mod::lemma_fundamental_div_mod(
                            (u64::MAX - d) as int,
                            10,
                        );
                    }
                    acc = acc * 10 + d;
                }
            }
            j = j + 1;
        }
        proof {
            assert(digs.take(int_end - start) =~= digs);
        }
        if over {
            return Option::Some((Json::Other, exp_end));
        }
        return Option::Some((Json::Num(acc), int_end));
    }
    Option::Some((Json::Other, exp_end))
}
/// Reads one JSON value.
fn p_value(s: &Vec<char>, i: usize, fuel: u64) -> (r: Option<(Json, usize)>)
    requires
        i <= s@.len(),
    ensures
        rel_value(r, sp_value(s@, i as int, fuel as nat)),
        r matches Option::Some((j, p)) ==> p <= s@.len(),
    decreases fuel,
{
    if fuel == 0 {
        return Option::None;
    }
    let i = p_ws(s, i);
    let n = s.len();
    if i >= n {
        return Option::None;
    }
    let c = s[i];
    if c == 'n' {
        if n - i >= 4 && s[i + 1] == 'u' && s[i + 2] == 'l' && s[i + 3] == 'l' {
            proof {
                assert(s@.subrange(i as int, i as int + 4) =~= seq!['n', 'u', 'l', 'l']);
            }
            Option::Some((Json::Null, i + 4))
        } else {
            proof {
                if i as int + 4 <= s@.len() {
                    let sub = s@.subrange(i as int, i as int + 4);
                    assert(sub[1] == s@[i as int + 1] && sub[2] == s@[i as int + 2] && sub[3]
                        == s@[i as int + 3]);
                }
            }
            Option::None
        }
    } else if c == 't' {
        if n - i >= 4 && s[i + 1] == 'r' && s[i + 2] == 'u' && s[i + 3] == 'e' {
            proof {
                assert(s@.subrange(i as int, i as int + 4) =~= seq!['t', 'r', 'u', 'e']);
            }
            Option::Some((Json::Bool(true), i + 4))
        } else {
            proof {
                if i as int + 4 <= s@.len() {
                    let sub = s@.subrange(i as int, i as int + 4);
                    assert(sub[1] == s@[i as int + 1] && sub[2] == s@[i as int + 2] && sub[3]
                        == s@[i as int + 3]);
                }
            }
            Option::None
        }
    } else if c == 'f' {
        if n - i >= 5 && s[i + 1] == 'a' && s[i + 2] == 'l' && s[i + 3] == 's' && s[i + 4] == 'e' {
            proof {
                assert(s@.subrange(i as int, i as int + 5) =~= seq!['f', 'a', 'l', 's', 'e']);
            }
            Option::Some((Json::Bool(false), i + 5))
        } else {
            proof {
                if i as int + 5 <= s@.len() {
                    let sub = s@.subrange(i as int, i as int + 5);
                    assert(sub[1] == s@[i as int + 1] && sub[2] == s@[i as int + 2] && sub[3]
                        == s@[i as int + 3] && sub[4] == s@[i as int + 4]);
                }
            }
            Option::None
        }
    } else if c == '"' {
        match p_string(s, i + 1) {
            Option::Some((t, p)) => Option::Some((Json::Str(t), p)),
            Option::None => Option::None,
        }
    } else if c == '[' {
        let j = p_ws(s, i + 1);
        if j < n && s[j] == ']' {
            let vs: Vec<Json> = Vec::new();
            proof {
                assert(crate::json::arr_view(vs@) =~= Seq::<JsonV>::empty());
            }
            Option::Some((Json::Arr(vs), j + 1))
        } else {
            match p_items(s, i + 1, fuel - 1) {
                Option::Some((vs, p)) => Option::Some((Json::Arr(vs), p)),
                Option::None => Option::None,
            }
        }
    } else if c == '{' {
        let j = p_ws(s, i + 1);
        if j < n && s[j] == '}' {
            let ms: Vec<crate::json::JsonMember> = Vec::new();
            proof {
                assert(crate::json::members_view(ms@) =~= Seq::<(Seq<char>, JsonV)>::empty());
            }
            Option::Some((Json::Obj(ms), j + 1))
        } else {
            match p_mems(s, i + 1, fuel - 1) {
                Option::Some((ms, p)) => Option::Some((Json::Obj(ms), p)),
                Option::None => Option::None,
            }
        }
    } else if c == '-' || ((c as u32) >= 48 && (c as u32) <= 57) {
        p_number(s, i)
    } else {
        Option::None
    }
}

/// Reads the elements of a non-empty array, up to and past the
/// closing bracket.
fn p_items(s: &Vec<char>, i: usize, fuel: u64) -> (r: Option<(Vec<Json>, usize)>)
    requires
        i <= s@.len(),
    ensures
        rel_items(r, sp_items(s@, i as int, fuel as nat)),
        r matches Option::Some((j, p)) ==> p <= s@.len(),
    decreases fuel,
{
    if fuel == 0 {
        return Option::None;
    }
    match p_value(s, i, fuel - 1) {
        Option::None => Option::None,
        Option::Some((v, j)) => {
            let k = p_ws(s, j);
            let n = s.len();
            if k < n && s[k] == ',' {
                match p_items(s, k + 1, fuel - 1) {
                    Option::Some((mut vs, m)) => {
                        let ghost old_vs = vs@;
                        let ghost jv = json_view(v);
                        vs.insert(0, v);
                        proof {
                            crate::json::lemma_arr_view_index(old_vs);
                            crate::json::lemma_arr_view_index(vs@);
                            assert(vs@.len() == old_vs.len() + 1);
                            assert_seqs_equal!(crate::json::arr_view(vs@) == seq![jv] + crate::json::arr_view(old_vs), t => {
                                assert(crate::json::arr_view(vs@)[t] == json_view(vs@[t]));
                                if t == 0 {
                                    assert(vs@[0] == v);
                                } else {
                                    assert(vs@[t] == old_vs[t - 1]);
                                    assert(crate::json::arr_view(old_vs)[t - 1] == json_view(old_vs[t - 1]));
                                }
                            });
                        }
                        Option::Some((vs, m))
                    },
                    Option::None => Option::None,
                }
            } else if k < n && s[k] == ']' {
                let ghost jv = json_view(v);
                let mut vs: Vec<Json> = Vec::new();
                vs.push(v);
                proof {
                    assert(vs@.drop_last() =~= Seq::<Json>::empty());
                    assert(crate::json::arr_view(vs@.drop_last()) =~= Seq::<JsonV>::empty());
                    assert(vs@.last() == v);
                    assert(crate::json::arr_view(vs@) =~= seq![jv]);
                }
                Option::Some((vs, k + 1))
            } else {
                Option::None
            }
        },
    }
}

/// Reads the members of a non-empty object, up to and past the
/// closing brace.
fn p_mems(s: &Vec<char>, i: usize, fuel: u64) -> (r: Option<
    (Vec<crate::json::JsonMember>, usize),
>)
    requires
        i <= s@.len(),
    ensures
        rel_mems(r, sp_mems(s@, i as int, fuel as nat)),
        r matches Option::Some((j, p)) ==> p <= s@.len(),
    decreases fuel,
{
    if fuel == 0 {
        return Option::None;
    }
    let i = p_ws(s, i);
    let n = s.len();
    if i < n && s[i] == '"' {
        match p_string(s, i + 1) {
            Option::None => Option::None,
            Option::Some((key, j)) => {
                let j = p_ws(s, j);
                if j < n && s[j] == ':' {
                    match p_value(s, j + 1, fuel - 1) {
                        Option::None => Option::None,
                        Option::Some((v, k)) => {
                            let k = p_ws(s, k);
                            let ghost kv = key@;
                            if k < n && s[k] == ',' {
                                match p_mems(s, k + 1, fuel - 1) {
                                    Option::Some((mut ms, m)) => {
                                        let ghost old_ms = ms@;
                                        let ghost jv = json_view(v);
                                        let m0 = crate::json::JsonMember { key, val: v };
                                        let ghost m0v = m0;
                                        ms.insert(0, m0);
                                        proof {
                                            crate::json::lemma_members_view_index(old_ms);
                                            crate::json::lemma_members_view_index(ms@);
                                            assert(ms@.len() == old_ms.len() + 1);
                                            assert_seqs_equal!(crate::json::members_view(ms@) == seq![(kv, jv)] + crate::json::members_view(old_ms), t => {
                                                assert(crate::json::members_view(ms@)[t] == (ms@[t].key@, json_view(ms@[t].val)));
                                                if t == 0 {
                                                    assert(ms@[0] == m0v);
                                                } else {
                                                    assert(ms@[t] == old_ms[t - 1]);
                                                    assert(crate::json::members_view(old_ms)[t - 1] == (old_ms[t - 1].key@, json_view(old_ms[t - 1].val)));
                                                }
                                            });
                                        }
                                        Option::Some((ms, m))
                                    },
                                    Option::None => Option::None,
                                }
                            } else if k < n && s[k] == '}' {
                                let ghost jv = json_view(v);
                                let mut ms: Vec<crate::json::JsonMember> = Vec::new();
                                let m0 = crate::json::JsonMember { key, val: v };
                                let ghost m0v = m0;
                                ms.push(m0);
                                proof {
                                    assert(ms@.drop_last() =~= Seq::<crate::json::JsonMember>::empty());
                                    assert(crate::json::members_view(ms@.drop_last())
                                        =~= Seq::<(Seq<char>, JsonV)>::empty());
                                    assert(ms@.last() == m0v);
                                    assert(crate::json::members_view(ms@) =~= seq![(kv, jv)]);
                                }
                                Option::Some((ms, k + 1))
                            } else {
                                Option::None
                            }
                        },
                    }
                } else {
                    Option::None
                }
            },
        }
    } else {
        Option::None
    }
}

/// The characters of a text.
fn str_chars(s: &str) -> (r: Vec<char>)
    ensures
        r@ == s@,
{
    let n = s.unicode_len();
    let mut out: Vec<char> = Vec::new();
    let mut i: usize = 0;
    while i < n
        invariant
            i <= n,
            n == s@.len(),
            out@ == s@.take(i as int),
        decreases n - i,
    {
        out.push(s.get_char(i));
        proof {
            assert(out@ =~= s@.take(i + 1 as int));
        }
        i = i + 1;
    }
    proof {
        assert(s@.take(n as int) =~= s@);
    }
    out
}

/// Reads a whole JSON document: accepts exactly the documents the
/// model parser accepts, giving exactly the modelled tree.
pub fn parse_text(s: &str) -> (r: Option<Json>)
    ensures
        match r {
            Option::Some(j) => sp_document(s@) == Option::Some(json_view(j)),
            Option::None => sp_document(s@) is None,
        },
{
    let chars = str_chars(s);
    let n = chars.len();
    match p_value(&chars, 0, n as u64) {
        Option::Some((j, p)) => {
            let e = p_ws(&chars, p);
            if e == n {
                Option::Some(j)
            } else {
                Option::None
            }
        },
        Option::None => Option::None,
    }
}


/// The JSON text of a configuration: its rendered document tree,
/// written out.
pub fn config_text(c: &crate::config::OciSpec) -> (r: String)
    ensures
        r@ == ser_json(crate::render::render_config(c.deep_view())),
{
    let tree = crate::emit::emit_config(c);
    json_text(&tree)
}

/// The JSON text of a document tree.
pub fn json_text(j: &Json) -> (r: String)
    ensures
        r@ == ser_json(json_view(*j)),
{
    let mut out = String::new();
    write_json(&mut out, j);
    proof {
        assert(Seq::<char>::empty() + ser_json(json_view(*j)) =~= ser_json(json_view(*j)));
    }
    out
}

} // verus!
