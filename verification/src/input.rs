//! Parsing a player's target line: two comma-separated decimal numbers,
//! each with optional surrounding whitespace, both below the grid side.

use vstd::prelude::*;
use vstd::string::StrSliceExecFns;

verus! {

/// Whitespace accepted around a coordinate number.
pub open spec fn is_ws_char(c: char) -> bool {
    c == ' ' || c == '\t' || c == '\r' || c == '\n'
}

/// An ASCII decimal digit.
pub open spec fn is_digit_char(c: char) -> bool {
    48 <= c as u32 && c as u32 <= 57
}

/// Numeric value of a decimal digit.
pub open spec fn digit_val(c: char) -> int {
    c as u32 - 48
}

/// First index in [i, end) holding no whitespace, or end.
pub open spec fn skip_ws(s: Seq<char>, i: int, end: int) -> int
    decreases end - i,
{
    if i < end && is_ws_char(s[i]) {
        skip_ws(s, i + 1, end)
    } else {
        i
    }
}

/// First index in [i, end) holding no digit, or end.
pub open spec fn scan_digits(s: Seq<char>, i: int, end: int) -> int
    decreases end - i,
{
    if i < end && is_digit_char(s[i]) {
        scan_digits(s, i + 1, end)
    } else {
        i
    }
}

/// Decimal value denoted by the digits s[i..j).
pub open spec fn digits_value(s: Seq<char>, i: int, j: int) -> int
    decreases j - i,
{
    if i < j {
        digits_value(s, i, j - 1) * 10 + digit_val(s[j - 1])
    } else {
        0
    }
}

/// Index of the first comma at or after i, or the length if there is none.
pub open spec fn comma_pos(s: Seq<char>, i: int) -> int
    decreases s.len() - i,
{
    if 0 <= i < s.len() {
        if s[i] == ',' {
            i
        } else {
            comma_pos(s, i + 1)
        }
    } else {
        s.len() as int
    }
}

/// Value of the field s[from..to): optional whitespace, one or more digits,
/// optional whitespace; None if the field has any other shape.
pub open spec fn field_value(s: Seq<char>, from: int, to: int) -> Option<int> {
    let i = skip_ws(s, from, to);
    let j = scan_digits(s, i, to);
    if i < j && skip_ws(s, j, to) == to {
        Some(digits_value(s, i, j))
    } else {
        None
    }
}

/// A coordinate field: its value if it is well formed and below the side of
/// the standard grid.
pub open spec fn bounded_field(s: Seq<char>, from: int, to: int) -> Option<usize> {
    match field_value(s, from, to) {
        Some(v) => if 0 <= v < crate::BOARD_SIZE as int {
            Some(v as usize)
        } else {
            None
        },
        None => None,
    }
}

/// The coordinates a target line denotes: the part before the first comma
/// and the part after it, both well-formed in-bounds coordinate fields.
pub open spec fn coords_of(s: Seq<char>) -> Option<(usize, usize)> {
    let k = comma_pos(s, 0);
    if k == s.len() {
        None
    } else {
        match (bounded_field(s, 0, k), bounded_field(s, k + 1, s.len() as int)) {
            (Some(r), Some(c)) => Some((r, c)),
            _ => None,
        }
    }
}

proof fn lemma_comma_pos_at(s: Seq<char>, i: int, k: int)
    requires
        0 <= i <= k <= s.len(),
        forall|m: int| i <= m < k ==> s[m] != ',',
        k == s.len() || s[k] == ',',
    ensures
        comma_pos(s, i) == k,
    decreases k - i,
{
    if i < k {
        lemma_comma_pos_at(s, i + 1, k);
    }
}

proof fn lemma_skip_ws_at(s: Seq<char>, i: int, j: int, end: int)
    requires
        0 <= i <= j <= end <= s.len(),
        forall|m: int| i <= m < j ==> is_ws_char(s[m]),
        j == end || !is_ws_char(s[j]),
    ensures
        skip_ws(s, i, end) == j,
    decreases j - i,
{
    if i < j {
        lemma_skip_ws_at(s, i + 1, j, end);
    }
}

proof fn lemma_scan_digits_at(s: Seq<char>, i: int, j: int, end: int)
    requires
        0 <= i <= j <= end <= s.len(),
        forall|m: int| i <= m < j ==> is_digit_char(s[m]),
        j == end || !is_digit_char(s[j]),
    ensures
        scan_digits(s, i, end) == j,
    decreases j - i,
{
    if i < j {
        lemma_scan_digits_at(s, i + 1, j, end);
    }
}

/// Exec test for the whitespace class.
fn ws_char(c: char) -> (r: bool)
    ensures
        r == is_ws_char(c),
{
    c == ' ' || c == '\t' || c == '\r' || c == '\n'
}

/// Exec test for a decimal digit.
fn digit_char(c: char) -> (r: bool)
    ensures
        r == is_digit_char(c),
{
    let u = c as u32;
    48 <= u && u <= 57
}

/// Parse one coordinate field of s[from..to); Some exactly when the field
/// is well formed and its value is below the grid side.
fn parse_field(s: &str, from: usize, to: usize) -> (r: Option<usize>)
    requires
        from <= to <= s@.len(),
    ensures
        r == bounded_field(s@, from as int, to as int),
{
    let mut i: usize = from;
    while i < to && ws_char(s.get_char(i))
        invariant
            from <= i <= to <= s@.len(),
            forall|m: int| from <= m < i ==> is_ws_char(s@[m]),
        decreases to - i,
    {
        i = i + 1;
    }
    proof {
        lemma_skip_ws_at(s@, from as int, i as int, to as int);
    }
    let mut j: usize = i;
    let mut val: usize = 0;
    let mut big: bool = false;
    while j < to && digit_char(s.get_char(j))
        invariant
            i <= j <= to <= s@.len(),
            forall|m: int| i <= m < j ==> is_digit_char(s@[m]),
            !big ==> val as int == digits_value(s@, i as int, j as int) && val
                < crate::BOARD_SIZE,
            big ==> digits_value(s@, i as int, j as int) >= crate::BOARD_SIZE as int,
        decreases to - j,
    {
        let u = s.get_char(j) as u32;
        proof {
            assert(is_digit_char(s@[j as int]));
            assert(48 <= u && u <= 57);
        }
        let d = (u - 48) as usize;
        proof {
            assert(d as int == digit_val(s@[j as int]));
            assert(digits_value(s@, i as int, j as int + 1) == digits_value(
                s@,
                i as int,
                j as int,
            ) * 10 + digit_val(s@[j as int]));
        }
        if big {
            proof {
                let dv = digits_value(s@, i as int, j as int);
                assert(dv * 10 >= dv) by (nonlinear_arith)
                    requires
                        dv >= 0,
                ;
            }
        } else {
            let next = val * 10 + d;
            if next >= crate::BOARD_SIZE {
                big = true;
            } else {
                val = next;
            }
        }
        j = j + 1;
    }
    proof {
        lemma_scan_digits_at(s@, i as int, j as int, to as int);
    }
    let mut m: usize = j;
    while m < to && ws_char(s.get_char(m))
        invariant
            j <= m <= to <= s@.len(),
            forall|q: int| j <= q < m ==> is_ws_char(s@[q]),
        decreases to - m,
    {
        m = m + 1;
    }
    proof {
        lemma_skip_ws_at(s@, j as int, m as int, to as int);
    }
    if i < j && m == to && !big {
        Some(val)
    } else {
        None
    }
}

/// Parse a target line into a coordinate pair; Some exactly when the line
/// is two comma-separated in-bounds coordinate fields.
pub fn parse_coordinates(s: &str) -> (r: Option<(usize, usize)>)
    ensures
        r == coords_of(s@),
{
    let len = s.unicode_len();
    let mut k: usize = 0;
    while k < len && s.get_char(k) != ','
        invariant
            k <= len,
            len == s@.len(),
            forall|m: int| 0 <= m < k ==> s@[m] != ',',
        decreases len - k,
    {
        k = k + 1;
    }
    proof {
        lemma_comma_pos_at(s@, 0, k as int);
    }
    if k == len {
        return None;
    }
    let first = parse_field(s, 0, k);
    let second = parse_field(s, k + 1, len);
    match (first, second) {
        (Some(r0), Some(c0)) => Some((r0, c0)),
        _ => None,
    }
}

} // verus!
