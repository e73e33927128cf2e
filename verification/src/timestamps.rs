//! Broker timestamp normalization: `M/D/Y H:M:S`, with any field widths
//! and an optional trailing timezone word, is rewritten into the sortable
//! form `YYYY-MM-DDTHH:MM:SSZ`.
//!
//! Acceptance is deliberately loose, like a broker-export importer has to
//! be: the input is split on whitespace; the first token must have exactly
//! three `/`-separated fields, the second exactly three `:`-separated
//! fields; every field must be a decimal number (an optional leading `+`
//! allowed) that fits 32 bits. No calendar validation happens: the fields
//! are reformatted zero-padded as they came, so an out-of-range month
//! passes through. Anything after the second token is ignored. No timezone
//! conversion is attempted.

use vstd::prelude::*;
use vstd::string::StrSliceExecFns;
use vstd::string::StringExecFns;

use crate::symbols::digits_in_range;
use crate::symbols::is_ascii_digit_char;
use crate::symbols::is_digit_char;

verus! {

/// The whitespace code points the tokenizer splits on.
pub open spec fn is_space(c: char) -> bool {
    let u = c as u32;
    ||| u == 0x20
    ||| (0x09 <= u && u <= 0x0D)
    ||| u == 0x85
    ||| u == 0xA0
    ||| u == 0x1680
    ||| (0x2000 <= u && u <= 0x200A)
    ||| u == 0x2028
    ||| u == 0x2029
    ||| u == 0x202F
    ||| u == 0x205F
    ||| u == 0x3000
}

/// First index at or after `i` holding a non-whitespace character, or the
/// end.
pub open spec fn skip_spaces(s: Seq<char>, i: int) -> int
    decreases s.len() - i,
{
    if i < 0 || i >= s.len() {
        s.len() as int
    } else if is_space(s[i]) {
        skip_spaces(s, i + 1)
    } else {
        i
    }
}

/// First index at or after `i` holding a whitespace character, or the end.
pub open spec fn skip_token(s: Seq<char>, i: int) -> int
    decreases s.len() - i,
{
    if i < 0 || i >= s.len() {
        s.len() as int
    } else if !is_space(s[i]) {
        skip_token(s, i + 1)
    } else {
        i
    }
}

/// First index of `c` within `[i, end)`, or `-1`.
pub open spec fn find_before(s: Seq<char>, c: char, i: int, end: int) -> int
    decreases end - i,
{
    if i < 0 || i >= end || i >= s.len() {
        -1
    } else if s[i] == c {
        i
    } else {
        find_before(s, c, i + 1, end)
    }
}

/// Decimal value of the digit characters in `[i, j)`.
pub open spec fn digits_val(s: Seq<char>, i: int, j: int) -> int
    decreases j - i,
{
    if j <= i {
        0
    } else {
        digits_val(s, i, j - 1) * 10 + ((s[j - 1] as u32) - 48)
    }
}

/// Start of a field's digits: behind an optional leading `+`.
pub open spec fn field_digits_start(s: Seq<char>, i: int, j: int) -> int {
    if i < j && s[i] == '+' {
        i + 1
    } else {
        i
    }
}

/// A 32-bit decimal field: an optional `+`, then one or more digits whose
/// value fits 32 bits.
pub open spec fn field_ok(s: Seq<char>, i: int, j: int) -> bool {
    let d0 = field_digits_start(s, i, j);
    d0 < j && digits_in_range(s, d0, j) && digits_val(s, d0, j) <= 0xFFFF_FFFF
}

/// The field's value.
pub open spec fn field_val(s: Seq<char>, i: int, j: int) -> int {
    digits_val(s, field_digits_start(s, i, j), j)
}

/// The shape of a broker timestamp: the first two whitespace-separated
/// tokens, the date token's two slashes, and the time token's two colons.
pub struct WebullShape {
    pub a0: int,
    pub b0: int,
    pub a1: int,
    pub b1: int,
    pub p1: int,
    pub p2: int,
    pub q1: int,
    pub q2: int,
}

/// Where the tokens and separators of `s` sit.
pub open spec fn webull_shape(s: Seq<char>) -> WebullShape {
    let a0 = skip_spaces(s, 0);
    let b0 = skip_token(s, a0);
    let a1 = skip_spaces(s, b0);
    let b1 = skip_token(s, a1);
    let p1 = find_before(s, '/', a0, b0);
    let p2 = if p1 >= 0 {
        find_before(s, '/', p1 + 1, b0)
    } else {
        -1
    };
    let q1 = find_before(s, ':', a1, b1);
    let q2 = if q1 >= 0 {
        find_before(s, ':', q1 + 1, b1)
    } else {
        -1
    };
    WebullShape { a0, b0, a1, b1, p1, p2, q1, q2 }
}

/// A well-formed broker timestamp: at least two tokens, the first with
/// exactly three `/`-fields, the second with exactly three `:`-fields, all
/// six fields 32-bit decimal numbers.
pub open spec fn webull_ok(s: Seq<char>) -> bool {
    let w = webull_shape(s);
    &&& w.a1 < s.len()
    &&& w.p1 >= 0 && w.p2 >= 0 && find_before(s, '/', w.p2 + 1, w.b0) == -1
    &&& w.q1 >= 0 && w.q2 >= 0 && find_before(s, ':', w.q2 + 1, w.b1) == -1
    &&& field_ok(s, w.a0, w.p1)
    &&& field_ok(s, w.p1 + 1, w.p2)
    &&& field_ok(s, w.p2 + 1, w.b0)
    &&& field_ok(s, w.a1, w.q1)
    &&& field_ok(s, w.q1 + 1, w.q2)
    &&& field_ok(s, w.q2 + 1, w.b1)
}

/// The decimal digit character for `d`.
pub open spec fn digit_char_of(d: int) -> char {
    "0123456789"@[d]
}

/// The decimal digits of a nonnegative value, most significant first.
pub open spec fn spec_dec(v: int) -> Seq<char>
    decreases v,
{
    if v < 0 {
        Seq::empty()
    } else if v < 10 {
        seq![digit_char_of(v)]
    } else {
        spec_dec(v / 10).push(digit_char_of(v % 10))
    }
}

/// The decimal digits left-padded with zeros to at least `w` characters.
pub open spec fn spec_padded(v: int, w: int) -> Seq<char> {
    if spec_dec(v).len() >= w {
        spec_dec(v)
    } else {
        Seq::new((w - spec_dec(v).len()) as nat, |i: int| '0') + spec_dec(v)
    }
}

/// The normalized form of a well-formed broker timestamp:
/// `YYYY-MM-DDTHH:MM:SSZ`, the six fields reformatted zero-padded (year to
/// four places, the rest to two), with no timezone conversion.
pub open spec fn webull_iso(s: Seq<char>) -> Seq<char> {
    let w = webull_shape(s);
    spec_padded(field_val(s, w.p2 + 1, w.b0), 4) + seq!['-'] + spec_padded(
        field_val(s, w.a0, w.p1),
        2,
    ) + seq!['-'] + spec_padded(field_val(s, w.p1 + 1, w.p2), 2) + seq!['T'] + spec_padded(
        field_val(s, w.a1, w.q1),
        2,
    ) + seq![':'] + spec_padded(field_val(s, w.q1 + 1, w.q2), 2) + seq![':'] + spec_padded(
        field_val(s, w.q2 + 1, w.b1),
        2,
    ) + seq!['Z']
}

/// Whether `c` is one of the tokenizer's whitespace characters.
fn is_space_exec(c: char) -> (r: bool)
    ensures
        r == is_space(c),
{
    let u = c as u32;
    u == 0x20 || (0x09 <= u && u <= 0x0D) || u == 0x85 || u == 0xA0 || u == 0x1680 || (0x2000 <= u
        && u <= 0x200A) || u == 0x2028 || u == 0x2029 || u == 0x202F || u == 0x205F || u == 0x3000
}

/// First non-whitespace index at or after `i`.
fn skip_spaces_exec(s: &str, i: usize, n: usize) -> (r: usize)
    requires
        n == s@.len(),
        i <= n,
    ensures
        r as int == skip_spaces(s@, i as int),
        i <= r <= n,
{
    let mut j = i;
    while j < n
        invariant
            n == s@.len(),
            i <= j <= n,
            skip_spaces(s@, i as int) == skip_spaces(s@, j as int),
        decreases n - j,
    {
        if !is_space_exec(s.get_char(j)) {
            return j;
        }
        j = j + 1;
    }
    j
}

/// First whitespace index at or after `i`.
fn skip_token_exec(s: &str, i: usize, n: usize) -> (r: usize)
    requires
        n == s@.len(),
        i <= n,
    ensures
        r as int == skip_token(s@, i as int),
        i <= r <= n,
{
    let mut j = i;
    while j < n
        invariant
            n == s@.len(),
            i <= j <= n,
            skip_token(s@, i as int) == skip_token(s@, j as int),
        decreases n - j,
    {
        if is_space_exec(s.get_char(j)) {
            return j;
        }
        j = j + 1;
    }
    j
}

/// First index of `c` within `[i, end)`, or `None`.
fn find_before_exec(s: &str, c: char, i: usize, end: usize) -> (r: Option<usize>)
    requires
        end <= s@.len(),
        i <= end,
    ensures
        match r {
            Some(k) => find_before(s@, c, i as int, end as int) == k as int && i <= k < end,
            None => find_before(s@, c, i as int, end as int) == -1,
        },
{
    let mut j = i;
    while j < end
        invariant
            end <= s@.len(),
            i <= j <= end,
            find_before(s@, c, i as int, end as int) == find_before(s@, c, j as int, end as int),
        decreases end - j,
    {
        if s.get_char(j) == c {
            return Some(j);
        }
        j = j + 1;
    }
    None
}

/// Digit values are nonnegative and grow with the digit count.
proof fn lemma_digits_val_monotone(s: Seq<char>, i: int, j: int, j2: int)
    requires
        i <= j <= j2,
        digits_in_range(s, i, j2),
    ensures
        0 <= digits_val(s, i, j),
        digits_val(s, i, j) <= digits_val(s, i, j2),
    decreases j2 - i,
{
    if j2 > i {
        assert(digits_in_range(s, i, j2 - 1));
        if j == j2 {
            lemma_digits_val_monotone(s, i, j - 1, j2 - 1);
            assert(is_ascii_digit_char(s[j2 - 1]));
            assert(digits_val(s, i, j2) == digits_val(s, i, j2 - 1) * 10 + ((s[j2 - 1] as u32)
                - 48));
            assert(digits_val(s, i, j2 - 1) * 10 >= digits_val(s, i, j2 - 1)) by (nonlinear_arith)
                requires
                    digits_val(s, i, j2 - 1) >= 0,
            ;
        } else {
            lemma_digits_val_monotone(s, i, j, j2 - 1);
            assert(is_ascii_digit_char(s[j2 - 1]));
            assert(digits_val(s, i, j2 - 1) * 10 >= digits_val(s, i, j2 - 1)) by (nonlinear_arith)
                requires
                    digits_val(s, i, j2 - 1) >= 0,
            ;
        }
    }
}

/// Parse one `[i, j)` field as a 32-bit decimal number.
fn parse_field(s: &str, i: usize, j: usize) -> (r: Option<u32>)
    requires
        i <= j <= s@.len(),
    ensures
        match r {
            Some(v) => field_ok(s@, i as int, j as int) && v as int == field_val(
                s@,
                i as int,
                j as int,
            ),
            None => !field_ok(s@, i as int, j as int),
        },
{
    let mut k = i;
    if k < j && s.get_char(k) == '+' {
        k = k + 1;
    }
    let d0 = k;
    proof {
        assert(d0 as int == field_digits_start(s@, i as int, j as int));
    }
    if d0 == j {
        return None;
    }
    let mut acc: u64 = 0;
    while k < j
        invariant
            i <= d0 <= k <= j <= s@.len(),
            d0 < j,
            d0 as int == field_digits_start(s@, i as int, j as int),
            digits_in_range(s@, d0 as int, k as int),
            acc as int == digits_val(s@, d0 as int, k as int),
            acc <= 0xFFFF_FFFF,
        decreases j - k,
    {
        let c = s.get_char(k);
        if !is_digit_char(c) {
            proof {
                assert(!digits_in_range(s@, d0 as int, j as int)) by {
                    assert(!is_ascii_digit_char(s@[k as int]));
                }
            }
            return None;
        }
        let d = (c as u32) - 48;
        let next = acc * 10 + (d as u64);
        if next > 0xFFFF_FFFF {
            proof {
                assert(digits_val(s@, d0 as int, k + 1) == next as int);
                if digits_in_range(s@, d0 as int, j as int) {
                    lemma_digits_val_monotone(s@, d0 as int, k + 1, j as int);
                    assert(digits_val(s@, d0 as int, j as int) > 0xFFFF_FFFF);
                }
            }
            return None;
        }
        acc = next;
        k = k + 1;
    }
    Some(acc as u32)
}

/// Append the decimal digit character for `d`.
fn append_digit(out: &mut String, d: u32)
    requires
        d < 10,
    ensures
        final(out)@ == old(out)@ + seq![digit_char_of(d as int)],
{
    proof {
        reveal_strlit("0123456789");
    }
    let ds = "0123456789";
    let piece = ds.substring_char(d as usize, d as usize + 1);
    out.append(piece);
    proof {
        assert(piece@ =~= seq![digit_char_of(d as int)]);
    }
}

/// Append the decimal digits of `v`, most significant first.
fn append_dec(out: &mut String, v: u32)
    ensures
        final(out)@ == old(out)@ + spec_dec(v as int),
    decreases v,
{
    if v < 10 {
        append_digit(out, v);
    } else {
        append_dec(out, v / 10);
        append_digit(out, v % 10);
        proof {
            assert(out@ =~= old(out)@ + spec_dec(v as int));
        }
    }
}

/// Append the decimal digits of `v`, left-padded with zeros to at least
/// `width` characters.
fn append_padded(out: &mut String, v: u32, width: usize)
    requires
        width <= 4,
    ensures
        final(out)@ == old(out)@ + spec_padded(v as int, width as int),
{
    let mut digits = String::new();
    append_dec(&mut digits, v);
    let n = digits.as_str().unicode_len();
    proof {
        assert(digits@ == spec_dec(v as int));
    }
    if n < width {
        let mut z: usize = 0;
        while z < width - n
            invariant
                n < width <= 4,
                z <= width - n,
                n == spec_dec(v as int).len(),
                out@ =~= old(out)@ + Seq::new(z as nat, |i: int| '0'),
            decreases width - n - z,
        {
            proof {
                reveal_strlit("0123456789");
            }
            append_digit(out, 0);
            proof {
                assert(digit_char_of(0) == '0');
                assert(out@ =~= old(out)@ + Seq::new((z + 1) as nat, |i: int| '0'));
            }
            z = z + 1;
        }
        proof {
            assert(out@ =~= old(out)@ + Seq::new((width - n) as nat, |i: int| '0'));
        }
        out.append(digits.as_str());
        proof {
            assert(out@ =~= old(out)@ + Seq::new((width - n) as nat, |i: int| '0') + spec_dec(
                v as int,
            ));
            assert(spec_padded(v as int, width as int) =~= Seq::new(
                (width - n) as nat,
                |i: int| '0',
            ) + spec_dec(v as int));
            assert(out@ =~= old(out)@ + spec_padded(v as int, width as int));
        }
    } else {
        out.append(digits.as_str());
    }
}

/// Normalize a broker export timestamp `M/D/Y H:M:S` (any field widths, an
/// optional trailing timezone word, optional `+` signs) into the sortable
/// form `YYYY-MM-DDTHH:MM:SSZ`: the six fields reformatted zero-padded in
/// year-month-day order, with no timezone conversion and no calendar
/// validation. A string of any other shape — fewer than two tokens, not
/// exactly three `/`-fields and three `:`-fields, or a field that is not a
/// 32-bit decimal number — is rejected.
pub fn parse_webull_timestamp(time_str: &str) -> (r: Result<String, String>)
    ensures
        match r {
            Ok(o) => webull_ok(time_str@) && o@ == webull_iso(time_str@),
            Err(_) => !webull_ok(time_str@),
        },
{
    let n = time_str.unicode_len();
    let a0 = skip_spaces_exec(time_str, 0, n);
    let b0 = skip_token_exec(time_str, a0, n);
    let a1 = skip_spaces_exec(time_str, b0, n);
    let b1 = skip_token_exec(time_str, a1, n);
    if a1 >= n {
        return Err("invalid timestamp format".to_owned());
    }
    let p1 = match find_before_exec(time_str, '/', a0, b0) {
        Some(k) => k,
        None => {
            return Err("invalid date format".to_owned());
        },
    };
    let p2 = match find_before_exec(time_str, '/', p1 + 1, b0) {
        Some(k) => k,
        None => {
            return Err("invalid date format".to_owned());
        },
    };
    if find_before_exec(time_str, '/', p2 + 1, b0).is_some() {
        return Err("invalid date format".to_owned());
    }
    let q1 = match find_before_exec(time_str, ':', a1, b1) {
        Some(k) => k,
        None => {
            return Err("invalid time format".to_owned());
        },
    };
    let q2 = match find_before_exec(time_str, ':', q1 + 1, b1) {
        Some(k) => k,
        None => {
            return Err("invalid time format".to_owned());
        },
    };
    if find_before_exec(time_str, ':', q2 + 1, b1).is_some() {
        return Err("invalid time format".to_owned());
    }
    let month = match parse_field(time_str, a0, p1) {
        Some(v) => v,
        None => {
            return Err("invalid month".to_owned());
        },
    };
    let day = match parse_field(time_str, p1 + 1, p2) {
        Some(v) => v,
        None => {
            return Err("invalid day".to_owned());
        },
    };
    let year = match parse_field(time_str, p2 + 1, b0) {
        Some(v) => v,
        None => {
            return Err("invalid year".to_owned());
        },
    };
    let hour = match parse_field(time_str, a1, q1) {
        Some(v) => v,
        None => {
            return Err("invalid hour".to_owned());
        },
    };
    let minute = match parse_field(time_str, q1 + 1, q2) {
        Some(v) => v,
        None => {
            return Err("invalid minute".to_owned());
        },
    };
    let second = match parse_field(time_str, q2 + 1, b1) {
        Some(v) => v,
        None => {
            return Err("invalid second".to_owned());
        },
    };
    proof {
        reveal_strlit("-");
        reveal_strlit("T");
        reveal_strlit(":");
        reveal_strlit("Z");
    }
    let mut out = String::new();
    append_padded(&mut out, year, 4);
    out.append("-");
    append_padded(&mut out, month, 2);
    out.append("-");
    append_padded(&mut out, day, 2);
    out.append("T");
    append_padded(&mut out, hour, 2);
    out.append(":");
    append_padded(&mut out, minute, 2);
    out.append(":");
    append_padded(&mut out, second, 2);
    out.append("Z");
    proof {
        assert(out@ =~= webull_iso(time_str@));
    }
    Ok(out)
}

} // verus!
