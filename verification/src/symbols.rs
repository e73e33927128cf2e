//! Symbol classification: deciding whether a ticker string denotes an option
//! contract, and extracting the underlying ticker from an option symbol.
//!
//! An option symbol such as `SPY251218C00679000` is built from the underlying
//! ticker, a six-digit date, a `C`/`P` call-put marker and a strike. The
//! classifier is a heuristic over that shape, not a strict grammar.
//!
//! Two conventions exist for extracting the underlying: everything before
//! the first digit, or everything before the six-digit date window that
//! precedes the call-put marker. The two disagree on tickers that contain
//! digits. This module implements the second, OCC-style convention; which
//! one the target broker format wants is an open question for the
//! stakeholders, so the choice is recorded here rather than made silently.

use vstd::prelude::*;
use vstd::string::StrSliceExecFns;

verus! {

/// An ASCII decimal digit `'0'..='9'`.
pub open spec fn is_ascii_digit_char(c: char) -> bool {
    48 <= c as u32 && c as u32 <= 57
}

/// `s` holds the character `c` somewhere.
pub open spec fn seq_contains_char(s: Seq<char>, c: char) -> bool {
    exists|i: int| 0 <= i < s.len() && s[i] == c
}

/// Every character of `s` in the half-open range `[from, to)` is a digit.
pub open spec fn digits_in_range(s: Seq<char>, from: int, to: int) -> bool {
    forall|j: int| from <= j < to ==> is_ascii_digit_char(s[j])
}

/// `s` holds six consecutive ASCII digits somewhere.
pub open spec fn has_six_consecutive_digits(s: Seq<char>) -> bool {
    exists|i: int| 0 <= i && i + 6 <= s.len() && #[trigger] digits_in_range(s, i, i + 6)
}

/// The option-symbol heuristic: at least ten characters, a `C` or `P`
/// marker, and either a six-digit run (the date) or a length over fifteen.
pub open spec fn spec_is_options_symbol(s: Seq<char>) -> bool {
    &&& s.len() >= 10
    &&& (seq_contains_char(s, 'C') || seq_contains_char(s, 'P'))
    &&& (has_six_consecutive_digits(s) || s.len() > 15)
}

/// Index of the first occurrence of `c` in `s` at or after `i`, or `-1`.
pub open spec fn first_occurrence_from(s: Seq<char>, c: char, i: int) -> int
    decreases s.len() - i
{
    if i < 0 || i >= s.len() {
        -1
    } else if s[i] == c {
        i
    } else {
        first_occurrence_from(s, c, i + 1)
    }
}

/// Start of the last six-digit window of `s` that ends at or before `end`,
/// or `-1` when no such window exists.
pub open spec fn last_window_start(s: Seq<char>, end: int) -> int
    decreases end
{
    if end < 6 || end > s.len() {
        -1
    } else if digits_in_range(s, end - 6, end) {
        end - 6
    } else {
        last_window_start(s, end - 1)
    }
}

/// Index of the call-put marker: the first `C` when the symbol has one,
/// otherwise the first `P`, otherwise `-1`.
pub open spec fn call_put_index(s: Seq<char>) -> int {
    if seq_contains_char(s, 'C') {
        first_occurrence_from(s, 'C', 0)
    } else {
        first_occurrence_from(s, 'P', 0)
    }
}

/// The underlying ticker of an option symbol: everything before the last
/// six-digit date window that precedes the call-put marker. A symbol that is
/// not classified as an option, or whose date window cannot be found, is
/// returned unchanged.
pub open spec fn spec_underlying_symbol(s: Seq<char>) -> Seq<char> {
    if !spec_is_options_symbol(s) {
        s
    } else {
        let start = last_window_start(s, call_put_index(s));
        if start >= 0 {
            s.subrange(0, start)
        } else {
            s
        }
    }
}

/// Whether `c` is an ASCII decimal digit.
pub fn is_digit_char(c: char) -> (r: bool)
    ensures
        r == is_ascii_digit_char(c),
{
    let u = c as u32;
    48 <= u && u <= 57
}

/// Whether every character of `symbol` in `[from, to)` is an ASCII digit.
fn digits_between(symbol: &str, from: usize, to: usize) -> (r: bool)
    requires
        from <= to <= symbol@.len(),
    ensures
        r == digits_in_range(symbol@, from as int, to as int),
{
    let mut k = from;
    while k < to
        invariant
            from <= k <= to <= symbol@.len(),
            digits_in_range(symbol@, from as int, k as int),
        decreases to - k,
    {
        if !is_digit_char(symbol.get_char(k)) {
            assert(!digits_in_range(symbol@, from as int, to as int)) by {
                assert(!is_ascii_digit_char(symbol@[k as int]));
            }
            return false;
        }
        k = k + 1;
    }
    true
}

/// Whether `symbol` holds six consecutive ASCII digits.
fn has_digit_window(symbol: &str) -> (r: bool)
    ensures
        r == has_six_consecutive_digits(symbol@),
{
    let n = symbol.unicode_len();
    if n < 6 {
        return false;
    }
    let mut i: usize = 0;
    while i <= n - 6
        invariant
            n == symbol@.len(),
            6 <= n,
            0 <= i <= n,
            forall|j: int| 0 <= j < i ==> !(#[trigger] digits_in_range(symbol@, j, j + 6)),
        decreases n - i,
    {
        if digits_between(symbol, i, i + 6) {
            return true;
        }
        i = i + 1;
    }
    false
}

/// Whether `symbol` is classified as an option contract: at least ten
/// characters, a `C` or `P` marker, and either six consecutive digits or a
/// length over fifteen.
pub fn is_options_symbol(symbol: &str) -> (r: bool)
    ensures
        r == spec_is_options_symbol(symbol@),
{
    let n = symbol.unicode_len();
    if n < 10 {
        return false;
    }
    let mut has_cp = false;
    let mut i: usize = 0;
    while i < n
        invariant
            n == symbol@.len(),
            0 <= i <= n,
            has_cp == exists|j: int| 0 <= j < i && (symbol@[j] == 'C' || symbol@[j] == 'P'),
        decreases n - i,
    {
        let c = symbol.get_char(i);
        if c == 'C' || c == 'P' {
            has_cp = true;
        }
        i = i + 1;
    }
    if !has_cp {
        return false;
    }
    if n > 15 {
        return true;
    }
    has_digit_window(symbol)
}

/// Index of the first occurrence of `c` in `symbol`, or `None`.
fn find_char(symbol: &str, c: char) -> (r: Option<usize>)
    ensures
        match r {
            Some(i) => first_occurrence_from(symbol@, c, 0) == i as int,
            None => first_occurrence_from(symbol@, c, 0) == -1,
        },
{
    let n = symbol.unicode_len();
    let mut i: usize = 0;
    while i < n
        invariant
            n == symbol@.len(),
            0 <= i <= n,
            first_occurrence_from(symbol@, c, 0) == first_occurrence_from(symbol@, c, i as int),
        decreases n - i,
    {
        if symbol.get_char(i) == c {
            return Some(i);
        }
        i = i + 1;
    }
    None
}

/// Start of the last six-digit window ending at or before `end`, or `None`.
fn find_date_start(symbol: &str, end: usize) -> (r: Option<usize>)
    requires
        end <= symbol@.len(),
    ensures
        match r {
            Some(i) => last_window_start(symbol@, end as int) == i as int && i + 6 <= end,
            None => last_window_start(symbol@, end as int) == -1,
        },
{
    let mut e = end;
    while e >= 6
        invariant
            e <= end <= symbol@.len(),
            last_window_start(symbol@, end as int) == last_window_start(symbol@, e as int),
        decreases e,
    {
        if digits_between(symbol, e - 6, e) {
            return Some(e - 6);
        }
        e = e - 1;
    }
    None
}

/// The underlying ticker of `symbol`: for an option symbol, the prefix that
/// precedes the six-digit date window before the call-put marker; any other
/// symbol comes back unchanged.
pub fn get_underlying_symbol(symbol: &str) -> (r: String)
    ensures
        r@ == spec_underlying_symbol(symbol@),
{
    if !is_options_symbol(symbol) {
        return symbol.to_owned();
    }
    let c_pos = find_char(symbol, 'C');
    let cp_pos = match c_pos {
        Some(i) => Some(i),
        None => find_char(symbol, 'P'),
    };
    proof {
        if first_occurrence_from(symbol@, 'C', 0) >= 0 {
            lemma_first_occurrence_bounds(symbol@, 'C', 0);
            lemma_first_occurrence_contains(symbol@, 'C');
        } else {
            lemma_first_occurrence_contains(symbol@, 'C');
        }
        lemma_first_occurrence_contains(symbol@, 'P');
    }
    match cp_pos {
        Some(cp) => {
            proof {
                lemma_first_occurrence_bounds(symbol@, 'C', 0);
                lemma_first_occurrence_bounds(symbol@, 'P', 0);
            }
            match find_date_start(symbol, cp) {
                Some(start) => symbol.substring_char(0, start).to_owned(),
                None => symbol.to_owned(),
            }
        },
        None => symbol.to_owned(),
    }
}

/// A first occurrence found at or after `i >= 0` lies within the string.
proof fn lemma_first_occurrence_bounds(s: Seq<char>, c: char, i: int)
    requires
        0 <= i,
    ensures
        first_occurrence_from(s, c, i) == -1 || i <= first_occurrence_from(s, c, i) < s.len(),
        first_occurrence_from(s, c, i) >= 0 ==> s[first_occurrence_from(s, c, i)] == c,
    decreases s.len() - i,
{
    if i < s.len() && s[i] != c {
        lemma_first_occurrence_bounds(s, c, i + 1);
    }
}

/// A character occurs in `s` exactly when the search from the start finds it.
proof fn lemma_first_occurrence_contains(s: Seq<char>, c: char)
    ensures
        seq_contains_char(s, c) <==> first_occurrence_from(s, c, 0) >= 0,
{
    lemma_first_occurrence_complete(s, c, 0);
    lemma_first_occurrence_bounds(s, c, 0);
    if first_occurrence_from(s, c, 0) >= 0 {
        assert(s[first_occurrence_from(s, c, 0)] == c);
    }
}

/// When the search from `i` fails, no occurrence lies at or after `i`.
proof fn lemma_first_occurrence_complete(s: Seq<char>, c: char, i: int)
    requires
        0 <= i,
    ensures
        first_occurrence_from(s, c, i) == -1 ==> forall|j: int| i <= j < s.len() ==> s[j] != c,
    decreases s.len() - i,
{
    if i < s.len() && s[i] != c {
        lemma_first_occurrence_complete(s, c, i + 1);
    }
}

} // verus!
