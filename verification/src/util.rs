//! Reading bytes from hexadecimal text, and writing them as such.

use vstd::prelude::*;
use vstd::string::{StrSliceExecFns, StringExecFns, StringSliceAdditionalSpecFns};

verus! {

/// The value of a hexadecimal digit in ASCII, upper or lower case.
pub open spec fn hex_digit(c: u8) -> Option<int> {
    if 0x30 <= c <= 0x39 {
        Some(c - 0x30)
    } else if 0x61 <= c <= 0x66 {
        Some(c - 0x61 + 10)
    } else if 0x41 <= c <= 0x46 {
        Some(c - 0x41 + 10)
    } else {
        None
    }
}

/// The byte that two characters of hexadecimal text stand for: two digits,
/// or a plus sign and one digit.
pub open spec fn hex_pair(a: u8, b: u8) -> Option<int> {
    match hex_digit(b) {
        Some(low) => if a == 0x2b {
            Some(low)
        } else {
            match hex_digit(a) {
                Some(high) => Some(16 * high + low),
                None => None,
            }
        },
        None => None,
    }
}

/// Whether the text is a sequence of pairs that stand for a byte each.
pub open spec fn is_hex(s: Seq<u8>) -> bool {
    &&& s.len() % 2 == 0
    &&& forall|i: int| 0 <= i < s.len() / 2 ==> (#[trigger] hex_pair(s[2 * i], s[2 * i + 1])).is_some()
}

/// The bytes that hexadecimal text stands for.
pub open spec fn hex_bytes(s: Seq<u8>) -> Seq<u8> {
    Seq::new(s.len() / 2, |i: int| hex_pair(s[2 * i], s[2 * i + 1]).unwrap() as u8)
}

/// The value of the hexadecimal digit `c`, if it is one.
pub fn hex_digit_value(c: u8) -> (v: Option<u8>)
    ensures
        match v {
            Some(d) => hex_digit(c) == Some(d as int) && d < 16,
            None => hex_digit(c).is_none(),
        },
{
    if 0x30 <= c && c <= 0x39 {
        Some(c - 0x30)
    } else if 0x61 <= c && c <= 0x66 {
        Some(c - 0x61 + 10)
    } else if 0x41 <= c && c <= 0x46 {
        Some(c - 0x41 + 10)
    } else {
        None
    }
}

/// The byte that the characters `a` and `b` stand for, if they stand for one.
pub fn hex_pair_value(a: u8, b: u8) -> (v: Option<u8>)
    ensures
        match v {
            Some(d) => hex_pair(a, b) == Some(d as int),
            None => hex_pair(a, b).is_none(),
        },
{
    match hex_digit_value(b) {
        Some(low) => {
            if a == 0x2b {
                Some(low)
            } else {
                match hex_digit_value(a) {
                    Some(high) => Some(16 * high + low),
                    None => None,
                }
            }
        },
        None => None,
    }
}

/// The bytes that the hexadecimal text `s` stands for, two characters a
/// byte.
pub fn hex_string_to_bytes(s: &str) -> (out: Vec<u8>)
    requires
        is_hex(s.spec_bytes()),
    ensures
        out@ == hex_bytes(s.spec_bytes()),
{
    let text = s.as_bytes();
    let mut out: Vec<u8> = Vec::new();
    let mut i: usize = 0;
    while i < text.len() / 2
        invariant
            i <= text@.len() / 2,
            text@ == s.spec_bytes(),
            is_hex(text@),
            out@.len() == i,
            forall|j: int| 0 <= j < i ==> out@[j] == hex_bytes(text@)[j],
        decreases text.len() / 2 - i,
    {
        let v = hex_pair_value(text[2 * i], text[2 * i + 1]);
        assert(hex_pair(text@[2 * i], text@[2 * i + 1]).is_some());
        match v {
            Some(b) => out.push(b),
            None => {},
        }
        i += 1;
    }
    assert(out@ =~= hex_bytes(text@));
    out
}

/// The bytes that the hexadecimal text `s` stands for, where it stands for
/// any: where its length is even and each pair of characters is a byte.
pub fn try_hex_string_to_bytes(s: &str) -> (out: Option<Vec<u8>>)
    ensures
        match out {
            Some(v) => is_hex(s.spec_bytes()) && v@ == hex_bytes(s.spec_bytes()),
            None => !is_hex(s.spec_bytes()),
        },
{
    let text = s.as_bytes();
    if text.len() % 2 != 0 {
        return None;
    }
    let mut out: Vec<u8> = Vec::new();
    let mut i: usize = 0;
    while i < text.len() / 2
        invariant
            i <= text@.len() / 2,
            text@ == s.spec_bytes(),
            text@.len() % 2 == 0,
            out@.len() == i,
            forall|j: int| 0 <= j < i ==> (#[trigger] hex_pair(text@[2 * j], text@[2 * j + 1])).is_some(),
            forall|j: int| 0 <= j < i ==> out@[j] == hex_bytes(text@)[j],
        decreases text.len() / 2 - i,
    {
        match hex_pair_value(text[2 * i], text[2 * i + 1]) {
            Some(b) => out.push(b),
            None => {
                assert(hex_pair(text@[2 * i], text@[2 * i + 1]).is_none());
                return None;
            },
        }
        i += 1;
    }
    assert(out@ =~= hex_bytes(text@));
    Some(out)
}

/// The hexadecimal text of the bytes: two digits a byte, in lower case.
pub open spec fn hex_text(b: Seq<u8>) -> Seq<char> {
    Seq::new(
        2 * b.len(),
        |k: int|
            "0123456789abcdef"@[if k % 2 == 0 {
                b[k / 2] as int / 16
            } else {
                b[k / 2] as int % 16
            }],
    )
}

/// The hexadecimal text of the bytes: two digits a byte, in lower case.
pub fn bytes_to_hex(b: &[u8]) -> (out: String)
    ensures
        out@ == hex_text(b@),
{
    let digits = "0123456789abcdef";
    proof {
        reveal_strlit("0123456789abcdef");
        reveal_strlit("");
    }
    let mut out = String::from_str("");
    let mut i: usize = 0;
    while i < b.len()
        invariant
            i <= b@.len(),
            digits@ == "0123456789abcdef"@,
            digits@.len() == 16,
            digits.is_ascii(),
            out@.len() == 2 * i,
            forall|k: int| 0 <= k < 2 * i ==> out@[k] == hex_text(b@)[k],
        decreases b.len() - i,
    {
        let high = (b[i] / 16) as usize;
        let low = (b[i] % 16) as usize;
        let ghost before = out@;
        out.append(digits.substring_ascii(high, high + 1));
        out.append(digits.substring_ascii(low, low + 1));
        proof {
            assert(out@ =~= before.push(digits@[high as int]).push(digits@[low as int]));
            assert((2 * i) / 2 == i && (2 * i) % 2 == 0);
            assert((2 * i + 1) / 2 == i && (2 * i + 1) % 2 == 1);
        }
        i += 1;
    }
    assert(out@ =~= hex_text(b@));
    out
}

} // verus!
