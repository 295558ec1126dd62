use vstd::prelude::*;
use vstd::string::*;
use vstd::slice::slice_subrange;
use crate::cnc::text::{chars_of, is_ascii_digit, is_digit, parse_u32, spec_parse_u32};

verus! {

/// A signed decimal with three fractional digits, as written in a CNC
/// program (`-12.345`): sign, integral part and thousandths.
#[derive(Clone, Copy, Debug, PartialEq, Eq, Structural)]
pub struct Number {
    pub is_negative: bool,
    pub integral_part: u32,
    /// Thousandths.
    pub fractional_part: u32,
}

/// `s[i]` is the first `c` in `s`.
pub open spec fn is_first_index(s: Seq<char>, c: char, i: int) -> bool {
    0 <= i < s.len() && s[i] == c && forall|j: int| 0 <= j < i ==> s[j] != c
}

/// Index of the first occurrence of `c` in `s`, if any.
pub open spec fn first_index_of(s: Seq<char>, c: char) -> Option<int> {
    if exists|i: int| is_first_index(s, c, i) {
        Some(choose|i: int| is_first_index(s, c, i))
    } else {
        None
    }
}

pub proof fn lemma_first_index_unique(s: Seq<char>, c: char, i: int, j: int)
    requires
        is_first_index(s, c, i),
        is_first_index(s, c, j),
    ensures
        i == j,
{
    if i < j {
        assert(s[i] != c);
    } else if j < i {
        assert(s[j] != c);
    }
}

/// The number at the start of `s` and how many characters it takes:
/// text before the first `.` (an optional `-`, then what `str::parse::<u32>`
/// accepts), the `.`, then exactly three digits taken as thousandths.
#[verifier::opaque]
pub open spec fn spec_number_prefix(s: Seq<char>) -> Option<(Number, int)> {
    match first_index_of(s, '.') {
        None => None,
        Some(d) => {
            let before = s.take(d);
            let after = s.skip(d + 1);
            if before.len() == 0 || after.len() < 3 || !is_digit(after[0]) || !is_digit(after[1])
                || !is_digit(after[2]) {
                None
            } else {
                let is_negative = before[0] == '-';
                let integral = spec_parse_u32(if is_negative { before.drop_first() } else { before });
                let fractional = spec_parse_u32(after.take(3));
                match (integral, fractional) {
                    (Some(i), Some(f)) => Some((
                        Number { is_negative, integral_part: i, fractional_part: f },
                        d + 4,
                    )),
                    _ => None,
                }
            }
        },
    }
}

impl Number {
    /// The number at the start of `s`, with the count of characters it takes.
    pub fn parse_prefix_chars(s: &[char]) -> (res: Option<(Number, usize)>)
        ensures
            match res {
                Some((n, k)) => spec_number_prefix(s@) == Some((n, k as int)) && k <= s@.len(),
                None => spec_number_prefix(s@) is None,
            },
    {
        reveal(spec_number_prefix);
        let mut d: usize = 0;
        while d < s.len() && s[d] != '.'
            invariant
                d <= s.len(),
                forall|j: int| 0 <= j < d ==> s@[j] != '.',
            decreases s.len() - d,
        {
            d = d + 1;
        }
        if d == s.len() {
            assert(!(exists|i: int| is_first_index(s@, '.', i)));
            return None;
        }
        proof {
            assert(is_first_index(s@, '.', d as int));
            let w = choose|i: int| is_first_index(s@, '.', i);
            lemma_first_index_unique(s@, '.', w, d as int);
        }
        let ghost before = s@.take(d as int);
        let ghost after = s@.skip(d + 1);
        if d == 0 || s.len() - d - 1 < 3 || !is_ascii_digit(s[d + 1]) || !is_ascii_digit(s[d + 2])
            || !is_ascii_digit(s[d + 3]) {
            assert(before.len() == d);
            return None;
        }
        let is_negative = s[0] == '-';
        let start: usize = if is_negative {
            1
        } else {
            0
        };
        let integral = parse_u32(slice_subrange(s, start, d));
        assert(s@.subrange(start as int, d as int) =~= (if is_negative {
            before.drop_first()
        } else {
            before
        }));
        let fractional = parse_u32(slice_subrange(s, d + 1, d + 4));
        assert(s@.subrange(d + 1, d + 4) =~= after.take(3));
        match (integral, fractional) {
            (Some(i), Some(f)) => Some((
                Number { is_negative, integral_part: i, fractional_part: f },
                d + 4,
            )),
            _ => None,
        }
    }

    /// The number at the start of `string`, and the rest of `string` after it.
    pub fn from_str_prefix(string: &str) -> (res: Option<(Number, &str)>)
        ensures
            match res {
                Some((n, rest)) => spec_number_prefix(string@) matches Some((m, k)) && n == m
                    && 0 <= k <= string@.len() && rest@ == string@.skip(k),
                None => spec_number_prefix(string@) is None,
            },
    {
        let chars = chars_of(string);
        match Self::parse_prefix_chars(chars.as_slice()) {
            None => None,
            Some((n, k)) => {
                let rest = string.substring_char(k, chars.len());
                assert(rest@ =~= string@.skip(k as int));
                Some((n, rest))
            },
        }
    }

    /// A whole string that is exactly one number.
    pub open spec fn spec_parse(s: Seq<char>) -> Option<Number> {
        match spec_number_prefix(s) {
            Some((n, k)) => if k == s.len() {
                Some(n)
            } else {
                None
            },
            None => None,
        }
    }

    /// Reads a string that is exactly one number.
    pub fn parse_str(s: &str) -> (res: Result<Number, ()>)
        ensures
            match res {
                Ok(n) => Self::spec_parse(s@) == Some(n),
                Err(_) => Self::spec_parse(s@) is None,
            },
    {
        match Number::from_str_prefix(s) {
            None => Err(()),
            Some((number, left)) => {
                if left.is_empty() {
                    Ok(number)
                } else {
                    Err(())
                }
            },
        }
    }
}

impl std::str::FromStr for Number {
    type Err = ();

    fn from_str(s: &str) -> (res: Result<Number, ()>)
        ensures
            match res {
                Ok(n) => Number::spec_parse(s@) == Some(n),
                Err(_) => Number::spec_parse(s@) is None,
            },
    {
        Number::parse_str(s)
    }
}

} // verus!
