//! Interpretation of what the user types: yes/no answers, and selection
//! numbers parsed and validated against the number of listed repositories.
//! Reading from the terminal is the surrounding application's concern.

use vstd::prelude::*;

verus! {

use vstd::string::StrSliceExecFns;
use vstd::string::StringExecFns;
use crate::text::{chars_of, str_eq};

/// `c` is one of the ASCII whitespace characters trimmed from a selection.
pub open spec fn is_space(c: char) -> bool {
    c == ' ' || c == '\t' || c == '\n' || c == '\r' || c == '\u{c}'
}

/// `s` without its leading whitespace.
pub open spec fn trim_front(s: Seq<char>) -> Seq<char>
    decreases s.len(),
{
    if s.len() > 0 && is_space(s[0]) {
        trim_front(s.skip(1))
    } else {
        s
    }
}

/// `s` without its trailing whitespace.
pub open spec fn trim_back(s: Seq<char>) -> Seq<char>
    decreases s.len(),
{
    if s.len() > 0 && is_space(s.last()) {
        trim_back(s.drop_last())
    } else {
        s
    }
}

/// `s` without leading and trailing whitespace.
pub open spec fn trim_spec(s: Seq<char>) -> Seq<char> {
    trim_back(trim_front(s))
}

proof fn lemma_trim_front_skip(s: Seq<char>, lo: int)
    requires
        0 <= lo <= s.len(),
        forall|k: int| 0 <= k < lo ==> is_space(s[k]),
        lo < s.len() ==> !is_space(s[lo]),
    ensures
        trim_front(s) == s.skip(lo),
    decreases lo,
{
    if lo == 0 {
        assert(s.skip(0) =~= s);
    } else {
        assert(is_space(s[0]));
        lemma_trim_front_skip(s.skip(1), lo - 1);
        assert(s.skip(1).skip(lo - 1) =~= s.skip(lo));
    }
}

proof fn lemma_trim_back_take(t: Seq<char>, hi: int)
    requires
        0 <= hi <= t.len(),
        forall|k: int| hi <= k < t.len() ==> is_space(t[k]),
        hi > 0 ==> !is_space(t[hi - 1]),
    ensures
        trim_back(t) == t.take(hi),
    decreases t.len(),
{
    if hi == t.len() {
        assert(t.take(hi) =~= t);
    } else {
        assert(is_space(t.last()));
        lemma_trim_back_take(t.drop_last(), hi);
        assert(t.drop_last().take(hi) =~= t.take(hi));
    }
}

/// Removes leading and trailing whitespace from a string.
pub fn trim(s: &str) -> (r: String)
    ensures
        r@ == trim_spec(s@),
{
    let v: Vec<char> = chars_of(s);
    let n: usize = v.len();
    let mut lo: usize = 0;
    while lo < n && is_space_char(v[lo])
        invariant
            v@ == s@,
            n == s@.len(),
            lo <= n,
            forall|k: int| 0 <= k < lo ==> is_space(s@[k]),
        decreases n - lo,
    {
        lo = lo + 1;
    }
    let mut hi: usize = n;
    while hi > lo && is_space_char(v[hi - 1])
        invariant
            v@ == s@,
            n == s@.len(),
            lo <= hi <= n,
            forall|k: int| hi <= k < n ==> is_space(s@[k]),
        decreases hi,
    {
        hi = hi - 1;
    }
    proof {
        lemma_trim_front_skip(s@, lo as int);
        let t = s@.skip(lo as int);
        lemma_trim_back_take(t, hi - lo);
        assert(t.take(hi - lo) =~= s@.subrange(lo as int, hi as int));
    }
    s.substring_char(lo, hi).to_owned()
}

/// True when `c` is trimmed whitespace.
fn is_space_char(c: char) -> (b: bool)
    ensures
        b == is_space(c),
{
    c == ' ' || c == '\t' || c == '\n' || c == '\r' || c == '\u{c}'
}

/// `c` is an ASCII decimal digit.
pub open spec fn is_digit(c: char) -> bool {
    c == '0' || c == '1' || c == '2' || c == '3' || c == '4' || c == '5' || c == '6' || c == '7'
        || c == '8' || c == '9'
}

/// The numeric value of a digit character.
pub open spec fn digit_val(c: char) -> int {
    if c == '0' {
        0
    } else if c == '1' {
        1
    } else if c == '2' {
        2
    } else if c == '3' {
        3
    } else if c == '4' {
        4
    } else if c == '5' {
        5
    } else if c == '6' {
        6
    } else if c == '7' {
        7
    } else if c == '8' {
        8
    } else {
        9
    }
}

/// The value of one digit character, when it is one.
fn digit_of(c: char) -> (r: Option<u8>)
    ensures
        r matches Some(d) ==> is_digit(c) && d as int == digit_val(c),
        (r is None) == !is_digit(c),
{
    match c {
        '0' => Some(0),
        '1' => Some(1),
        '2' => Some(2),
        '3' => Some(3),
        '4' => Some(4),
        '5' => Some(5),
        '6' => Some(6),
        '7' => Some(7),
        '8' => Some(8),
        '9' => Some(9),
        _ => None,
    }
}

/// Every character of `s` is a digit.
pub open spec fn all_digits(s: Seq<char>) -> bool {
    forall|i: int| 0 <= i < s.len() ==> is_digit(s[i])
}

/// The value of a digit string read in base ten.
pub open spec fn digits_val(s: Seq<char>) -> int
    decreases s.len(),
{
    if s.len() == 0 {
        0
    } else {
        digits_val(s.drop_last()) * 10 + digit_val(s.last())
    }
}

/// `s` is a well-formed decimal integer literal: an optional sign followed
/// by at least one digit.
pub open spec fn is_int_literal(s: Seq<char>) -> bool {
    if s.len() == 0 {
        false
    } else if s[0] == '-' || s[0] == '+' {
        s.len() > 1 && all_digits(s.skip(1))
    } else {
        all_digits(s)
    }
}

/// The mathematical value of a decimal integer literal.
pub open spec fn int_literal_val(s: Seq<char>) -> int {
    if s.len() > 0 && s[0] == '-' {
        -digits_val(s.skip(1))
    } else if s.len() > 0 && s[0] == '+' {
        digits_val(s.skip(1))
    } else {
        digits_val(s)
    }
}

proof fn lemma_digits_val_nonneg(s: Seq<char>)
    requires
        all_digits(s),
    ensures
        digits_val(s) >= 0,
    decreases s.len(),
{
    if s.len() > 0 {
        assert(forall|i: int| 0 <= i < s.drop_last().len() ==> is_digit(s.drop_last()[i]));
        lemma_digits_val_nonneg(s.drop_last());
    }
}

/// Reading more digits can only grow the value.
proof fn lemma_digits_val_prefix(s: Seq<char>, k: int)
    requires
        all_digits(s),
        0 <= k <= s.len(),
    ensures
        digits_val(s) >= digits_val(s.take(k)),
    decreases s.len(),
{
    if k == s.len() {
        assert(s.take(k) =~= s);
    } else {
        assert(forall|i: int| 0 <= i < s.drop_last().len() ==> is_digit(s.drop_last()[i]));
        lemma_digits_val_prefix(s.drop_last(), k);
        assert(s.drop_last().take(k) =~= s.take(k));
        lemma_digits_val_nonneg(s.drop_last());
    }
}

/// Parses a decimal integer the way the standard parser reads one: an
/// optional sign, then one or more digits, with the value within the
/// `isize` range; anything else is rejected.
pub fn parse_isize(s: &str) -> (r: Option<isize>)
    ensures
        (r is Some) <==> (is_int_literal(s@) && isize::MIN as int <= int_literal_val(s@)
            <= isize::MAX as int),
        r matches Some(v) ==> v as int == int_literal_val(s@),
{
    let v: Vec<char> = chars_of(s);
    let n: usize = v.len();
    if n == 0 {
        return None;
    }
    let mut idx: usize = 0;
    let mut neg: bool = false;
    if v[0] == '-' {
        neg = true;
        idx = 1;
    } else if v[0] == '+' {
        idx = 1;
    }
    if idx >= n {
        return None;
    }
    let ghost digits = s@.skip(idx as int);
    let bound: u128 = (isize::MAX as u128) + 1;
    proof {
        assert(bound as int == -(isize::MIN as int));
    }
    let mut acc: u128 = 0;
    let mut i: usize = idx;
    proof {
        assert(s@.subrange(idx as int, idx as int) =~= Seq::<char>::empty());
    }
    while i < n
        invariant
            v@ == s@,
            n == s@.len(),
            idx <= i <= n,
            idx <= 1,
            idx < n,
            (idx == 1) <==> (s@[0] == '-' || s@[0] == '+'),
            neg <==> s@[0] == '-',
            digits == s@.skip(idx as int),
            forall|k: int| idx <= k < i ==> is_digit(s@[k]),
            bound as int == -(isize::MIN as int),
            bound as int == isize::MAX as int + 1,
            acc as int == digits_val(s@.subrange(idx as int, i as int)),
            acc <= bound,
        decreases n - i,
    {
        let c: char = v[i];
        let dopt: Option<u8> = digit_of(c);
        if dopt.is_none() {
            proof {
                assert(!is_digit(s@[i as int]));
                if is_int_literal(s@) {
                    if s@[0] == '-' || s@[0] == '+' {
                        assert(s@.skip(1)[i - 1] == s@[i as int]);
                    }
                    assert(false);
                }
            }
            return None;
        }
        let d: u8 = dopt.unwrap();
        proof {
            assert(is_digit(s@[i as int]));
            assert(s@.subrange(idx as int, i + 1).drop_last() =~= s@.subrange(
                idx as int,
                i as int,
            ));
            assert(s@.subrange(idx as int, i + 1).last() == s@[i as int]);
        }
        acc = acc * 10 + (d as u128);
        i = i + 1;
        if acc > bound {
            proof {
                assert(forall|k: int| 0 <= k < digits.len() && k < i - idx ==> is_digit(
                    digits[k],
                ));
                if is_int_literal(s@) {
                    assert forall|k: int| 0 <= k < digits.len() implies is_digit(digits[k]) by {
                        if s@[0] == '-' || s@[0] == '+' {
                            assert(digits[k] == s@[k + 1]);
                        } else {
                            assert(digits[k] == s@[k]);
                        }
                    }
                    lemma_digits_val_prefix(digits, i - idx);
                    assert(digits.take(i - idx) =~= s@.subrange(idx as int, i as int));
                    assert(digits_val(digits) > bound as int);
                    assert(digits =~= s@.skip(idx as int));
                    if neg {
                        assert(int_literal_val(s@) == -digits_val(digits));
                    } else if s@[0] == '+' {
                        assert(s@.skip(1) =~= digits);
                        assert(int_literal_val(s@) == digits_val(digits));
                    } else {
                        assert(digits =~= s@);
                        assert(int_literal_val(s@) == digits_val(digits));
                    }
                }
            }
            return None;
        }
    }
    proof {
        assert(s@.subrange(idx as int, n as int) =~= digits);
        assert forall|k: int| 0 <= k < digits.len() implies is_digit(digits[k]) by {
            assert(digits[k] == s@[k + idx]);
        }
        assert(is_int_literal(s@)) by {
            if s@[0] == '-' || s@[0] == '+' {
                assert(s@.skip(1) =~= digits);
            } else {
                assert(idx == 0);
                assert(digits =~= s@);
            }
        }
        if neg {
            assert(int_literal_val(s@) == -digits_val(digits));
        } else if s@[0] == '+' {
            assert(s@.skip(1) =~= digits);
            assert(int_literal_val(s@) == digits_val(digits));
        } else {
            assert(digits =~= s@);
            assert(int_literal_val(s@) == digits_val(digits));
        }
    }
    if neg {
        if acc == bound {
            Some(isize::MIN)
        } else {
            proof {
                assert(acc < bound);
            }
            Some(-(acc as isize))
        }
    } else {
        if acc == bound {
            return None;
        }
        Some(acc as isize)
    }
}

/// The outcome of rejecting a selection string.
#[derive(PartialEq, Eq, Structural, Copy, Clone, Debug)]
pub enum NumError {
    NotPositiveOrInRange,
    ParsingError,
}

impl NumError {
    /// The message text of this error.
    pub fn message(&self) -> (r: String)
        ensures
            *self == NumError::NotPositiveOrInRange ==> r@ == "NumNotPositiveOrInRange"@,
            *self == NumError::ParsingError ==> r@ == "NumParsingError"@,
    {
        match self {
            NumError::NotPositiveOrInRange => String::from_str("NumNotPositiveOrInRange"),
            NumError::ParsingError => String::from_str("NumParsingError"),
        }
    }
}

/// Extracts and validates a number as a string: the trimmed string must
/// parse as an integer, and the integer must be a one-based index into a
/// listing of `len_of_vec` entries.
pub fn extract_and_validate_num(num_as_str: &str, len_of_vec: usize) -> (r: Result<
    usize,
    NumError,
>)
    ensures
        ({
            let t = trim_spec(num_as_str@);
            let parsed_ok = is_int_literal(t) && isize::MIN as int <= int_literal_val(t)
                <= isize::MAX as int;
            match r {
                Ok(v) => parsed_ok && 1 <= int_literal_val(t) <= len_of_vec && v as int
                    == int_literal_val(t),
                Err(e) => if !parsed_ok {
                    e == NumError::ParsingError
                } else {
                    e == NumError::NotPositiveOrInRange && (int_literal_val(t) <= 0
                        || int_literal_val(t) > len_of_vec)
                },
            }
        }),
{
    let trimmed: String = trim(num_as_str);
    match parse_isize(trimmed.as_str()) {
        None => Err(NumError::ParsingError),
        Some(v) => {
            if v <= 0 {
                Err(NumError::NotPositiveOrInRange)
            } else if (v as usize) > len_of_vec {
                Err(NumError::NotPositiveOrInRange)
            } else {
                Ok(v as usize)
            }
        },
    }
}

/// The affirmative answers accepted from the user.
pub open spec fn affirmative_spec(s: Seq<char>) -> bool {
    ||| s == "Y"@
    ||| s == "y"@
    ||| s == "j"@
    ||| s == "J"@
    ||| s == "Ja"@
    ||| s == "ja"@
    ||| s == "Yes"@
    ||| s == "yes"@
}

/// Decides whether an answer string counts as yes.
pub fn is_affirmative(answer: &str) -> (r: bool)
    ensures
        r == affirmative_spec(answer@),
{
    str_eq(answer, "Y") || str_eq(answer, "y") || str_eq(answer, "j") || str_eq(answer, "J")
        || str_eq(answer, "Ja") || str_eq(answer, "ja") || str_eq(answer, "Yes") || str_eq(
        answer,
        "yes",
    )
}

} // verus!
