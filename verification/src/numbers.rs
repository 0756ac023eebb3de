//! Decimal digit strings and chapter numbers.
//!
//! Cross-reference ids and `Retry-After` hints are unsigned decimal
//! integers; chapter numbers are decimals that may carry a fractional
//! part (a "12.5" release is valid). Chapter numbers are kept exactly,
//! as a whole part and the sequence of digits after the point, so that
//! the comparison against recorded progress is exact.

use vstd::prelude::*;

verus! {

/// `c` is one of the ten decimal digit characters.
pub open spec fn is_digit(c: char) -> bool {
    48 <= c as int <= 57
}

/// The numeric value of a digit character.
pub open spec fn digit_val(c: char) -> nat {
    (c as int - 48) as nat
}

/// Every character of `s` is a decimal digit.
pub open spec fn all_digits(s: Seq<char>) -> bool {
    forall|i: int| 0 <= i < s.len() ==> is_digit(s[i])
}

/// The value of a digit string read in base ten.
pub open spec fn digits_value(s: Seq<char>) -> nat
    decreases s.len(),
{
    if s.len() == 0 {
        0
    } else {
        digits_value(s.drop_last()) * 10 + digit_val(s.last())
    }
}

/// `s` is a digit string that a `u64` can hold.
pub open spec fn valid_u64_digits(s: Seq<char>) -> bool {
    &&& s.len() > 0
    &&& all_digits(s)
    &&& digits_value(s) <= u64::MAX
}

/// A prefix of a digit string never exceeds the whole string's value.
proof fn lemma_digits_value_prefix_le(s: Seq<char>, j: int)
    requires
        0 <= j <= s.len(),
    ensures
        digits_value(s.subrange(0, j)) <= digits_value(s),
    decreases s.len(),
{
    if j < s.len() {
        assert(s.drop_last().subrange(0, j) =~= s.subrange(0, j));
        lemma_digits_value_prefix_le(s.drop_last(), j);
        assert(digits_value(s.drop_last()) * 10 >= digits_value(s.drop_last()));
    } else {
        assert(s.subrange(0, j) =~= s);
    }
}

/// Reads an unsigned decimal integer, as the services write them in
/// cross-reference links and rate-limit hints. Returns `None` exactly
/// when `s` is empty, holds a non-digit, or does not fit in a `u64`.
pub fn parse_u64_digits(s: &str) -> (r: Option<u64>)
    ensures
        match r {
            Some(v) => valid_u64_digits(s@) && v == digits_value(s@),
            None => !valid_u64_digits(s@),
        },
{
    let len = s.unicode_len();
    if len == 0 {
        return None;
    }
    let mut value: u64 = 0;
    let mut i: usize = 0;
    while i < len
        invariant
            0 <= i <= len,
            len == s@.len(),
            all_digits(s@.subrange(0, i as int)),
            value == digits_value(s@.subrange(0, i as int)),
        decreases len - i,
    {
        let c = s.get_char(i);
        let code: u32 = c as u32;
        if code < 48 || code > 57 {
            assert(!is_digit(s@[i as int]));
            return None;
        }
        let d: u64 = (code - 48) as u64;
        if value > (u64::MAX - d) / 10 {
            proof {
                vstd::arithmetic::div_mod::lemma_fundamental_div_mod((u64::MAX - d) as int, 10);
                assert(value * 10 + d > u64::MAX);
                assert(s@.subrange(0, i + 1).drop_last() =~= s@.subrange(0, i as int));
                assert(s@.subrange(0, i + 1).last() == s@[i as int]);
                assert(digits_value(s@.subrange(0, i + 1)) > u64::MAX);
                lemma_digits_value_prefix_le(s@, i + 1);
            }
            return None;
        }
        proof {
            vstd::arithmetic::div_mod::lemma_fundamental_div_mod((u64::MAX - d) as int, 10);
            assert(value * 10 + d <= u64::MAX);
            assert(s@.subrange(0, i + 1).drop_last() =~= s@.subrange(0, i as int));
            assert(s@.subrange(0, i + 1).last() == s@[i as int]);
        }
        value = value * 10 + d;
        i = i + 1;
    }
    proof {
        assert(s@.subrange(0, len as int) =~= s@);
    }
    Some(value)
}

/// The latest published unit of a work, as an exact decimal: the whole
/// part and the digits after the decimal point (empty when the number
/// was written without one).
pub struct UnitNumber {
    pub whole: u64,
    pub frac: Vec<u8>,
}

impl UnitNumber {
    /// Every stored fractional digit is a decimal digit value.
    pub open spec fn wf(self) -> bool {
        forall|i: int| 0 <= i < self.frac@.len() ==> self.frac@[i] <= 9
    }

    /// Some digit after the decimal point is non-zero.
    pub open spec fn frac_positive(self) -> bool {
        exists|i: int| 0 <= i < self.frac@.len() && self.frac@[i] > 0
    }

    /// The recorded progress `progress` lies strictly below this unit
    /// number: below its whole part, or equal to it with a non-zero
    /// fractional part still ahead.
    pub open spec fn exceeds(self, progress: u16) -> bool {
        progress < self.whole || (progress == self.whole && self.frac_positive())
    }

    /// The sentinel for a single-unit work whose feed item carries no
    /// unit-number field: exactly one.
    pub fn single_unit() -> (r: UnitNumber)
        ensures
            r.whole == 1,
            r.frac@ == Seq::<u8>::empty(),
            r.wf(),
    {
        let r = UnitNumber { whole: 1, frac: Vec::new() };
        proof {
            assert(r.frac@ =~= Seq::<u8>::empty());
        }
        r
    }

    /// Decides `progress < latest` exactly, including fractional
    /// releases: progress 7 is behind chapter "7.5" but not "7.0".
    pub fn exceeds_progress(&self, progress: u16) -> (r: bool)
        ensures
            r == self.exceeds(progress),
    {
        if (progress as u64) < self.whole {
            return true;
        }
        if (progress as u64) > self.whole {
            return false;
        }
        let mut i: usize = 0;
        while i < self.frac.len()
            invariant
                0 <= i <= self.frac@.len(),
                progress as u64 == self.whole,
                forall|j: int| 0 <= j < i ==> self.frac@[j] == 0,
            decreases self.frac@.len() - i,
        {
            if self.frac[i] > 0 {
                return true;
            }
            i = i + 1;
        }
        false
    }

    /// An exact copy, field for field.
    pub fn duplicate(&self) -> (r: UnitNumber)
        ensures
            r.whole == self.whole,
            r.frac@ == self.frac@,
    {
        let mut frac: Vec<u8> = Vec::new();
        let mut i: usize = 0;
        while i < self.frac.len()
            invariant
                0 <= i <= self.frac@.len(),
                frac@ == self.frac@.subrange(0, i as int),
            decreases self.frac@.len() - i,
        {
            frac.push(self.frac[i]);
            proof {
                assert(frac@ =~= self.frac@.subrange(0, i + 1));
            }
            i = i + 1;
        }
        proof {
            assert(self.frac@.subrange(0, self.frac@.len() as int) =~= self.frac@);
        }
        UnitNumber { whole: self.whole, frac }
    }

    /// How this unit number is written: the whole part in decimal and,
    /// when there are fractional digits, a point and those digits.
    pub open spec fn display_seq(self) -> Seq<char> {
        if self.frac@.len() == 0 {
            decimal_seq(self.whole as nat)
        } else {
            decimal_seq(self.whole as nat) + seq!['.'] + self.frac@.map_values(
                |d: u8| digit_char(d as nat),
            )
        }
    }

    /// Writes this unit number the way it is read.
    pub fn to_decimal_string(&self) -> (r: String)
        requires
            self.wf(),
        ensures
            r@ == self.display_seq(),
    {
        let mut out = u64_to_decimal(self.whole);
        if self.frac.len() == 0 {
            return out;
        }
        proof {
            reveal_strlit(".");
            assert("."@ =~= seq!['.']);
        }
        out.append(".");
        let mut i: usize = 0;
        while i < self.frac.len()
            invariant
                0 <= i <= self.frac@.len(),
                self.wf(),
                out@ == decimal_seq(self.whole as nat) + seq!['.'] + self.frac@.subrange(
                    0,
                    i as int,
                ).map_values(|d: u8| digit_char(d as nat)),
            decreases self.frac@.len() - i,
        {
            out.append(digit_str(self.frac[i] as u64));
            proof {
                assert(self.frac@.subrange(0, i + 1).map_values(|d: u8| digit_char(d as nat))
                    =~= self.frac@.subrange(0, i as int).map_values(
                    |d: u8| digit_char(d as nat),
                ).push(digit_char(self.frac@[i as int] as nat)));
            }
            i = i + 1;
        }
        proof {
            assert(self.frac@.subrange(0, self.frac@.len() as int) =~= self.frac@);
        }
        out
    }
}

/// The character for a digit value.
pub open spec fn digit_char(d: nat) -> char {
    if d == 0 {
        '0'
    } else if d == 1 {
        '1'
    } else if d == 2 {
        '2'
    } else if d == 3 {
        '3'
    } else if d == 4 {
        '4'
    } else if d == 5 {
        '5'
    } else if d == 6 {
        '6'
    } else if d == 7 {
        '7'
    } else if d == 8 {
        '8'
    } else {
        '9'
    }
}

/// The decimal writing of `n`: most significant digit first, no
/// leading zeros (a lone zero for zero itself).
pub open spec fn decimal_seq(n: nat) -> Seq<char>
    decreases n,
{
    if n < 10 {
        seq![digit_char(n)]
    } else {
        decimal_seq(n / 10) + seq![digit_char(n % 10)]
    }
}

/// The one-character string for a digit value.
fn digit_str(d: u64) -> (r: &'static str)
    requires
        d <= 9,
    ensures
        r@ == seq![digit_char(d as nat)],
{
    if d == 0 {
        proof {
            reveal_strlit("0");
            assert("0"@ =~= seq![digit_char(0)]);
        }
        "0"
    } else if d == 1 {
        proof {
            reveal_strlit("1");
            assert("1"@ =~= seq![digit_char(1)]);
        }
        "1"
    } else if d == 2 {
        proof {
            reveal_strlit("2");
            assert("2"@ =~= seq![digit_char(2)]);
        }
        "2"
    } else if d == 3 {
        proof {
            reveal_strlit("3");
            assert("3"@ =~= seq![digit_char(3)]);
        }
        "3"
    } else if d == 4 {
        proof {
            reveal_strlit("4");
            assert("4"@ =~= seq![digit_char(4)]);
        }
        "4"
    } else if d == 5 {
        proof {
            reveal_strlit("5");
            assert("5"@ =~= seq![digit_char(5)]);
        }
        "5"
    } else if d == 6 {
        proof {
            reveal_strlit("6");
            assert("6"@ =~= seq![digit_char(6)]);
        }
        "6"
    } else if d == 7 {
        proof {
            reveal_strlit("7");
            assert("7"@ =~= seq![digit_char(7)]);
        }
        "7"
    } else if d == 8 {
        proof {
            reveal_strlit("8");
            assert("8"@ =~= seq![digit_char(8)]);
        }
        "8"
    } else {
        proof {
            reveal_strlit("9");
            assert("9"@ =~= seq![digit_char(9)]);
        }
        "9"
    }
}

/// Writes `n` in decimal.
pub fn u64_to_decimal(n: u64) -> (r: String)
    ensures
        r@ == decimal_seq(n as nat),
    decreases n,
{
    if n < 10 {
        String::from_str(digit_str(n))
    } else {
        proof {
            assert(n as nat / 10 < n as nat) by (nonlinear_arith)
                requires
                    n >= 10,
            ;
        }
        let front = u64_to_decimal(n / 10);
        front.concat(digit_str(n % 10))
    }
}

/// `i` marks the split of a unit-number string: everything before `i`
/// is free of decimal points, and `i` is either the first point or the
/// end of the string.
pub open spec fn split_at_dot(s: Seq<char>, i: int) -> bool {
    &&& 0 <= i <= s.len()
    &&& forall|j: int| 0 <= j < i ==> s[j] != '.'
    &&& (i == s.len() || s[i] == '.')
}

/// The split position of a string is unique.
proof fn lemma_split_at_dot_unique(s: Seq<char>, i: int, j: int)
    requires
        split_at_dot(s, i),
        split_at_dot(s, j),
    ensures
        i == j,
{
    if i < j {
        assert(s[i] != '.');
    }
    if j < i {
        assert(s[j] != '.');
    }
}

/// The position of the first decimal point of `s`, or its length when
/// it has none.
pub open spec fn sep_of(s: Seq<char>) -> int {
    choose|i: int| split_at_dot(s, i)
}

/// The digits before the first decimal point.
pub open spec fn whole_part(s: Seq<char>) -> Seq<char> {
    s.subrange(0, sep_of(s))
}

/// The digits after the first decimal point; empty when there is none.
pub open spec fn frac_part(s: Seq<char>) -> Seq<char> {
    if sep_of(s) == s.len() {
        Seq::empty()
    } else {
        s.subrange(sep_of(s) + 1, s.len() as int)
    }
}

/// `s` is a well-formed unit number: one or more digits, optionally
/// followed by a decimal point and one or more digits, with a whole
/// part that a `u64` can hold.
pub open spec fn valid_unit_seq(s: Seq<char>) -> bool {
    &&& split_at_dot(s, sep_of(s))
    &&& whole_part(s).len() > 0
    &&& all_digits(whole_part(s))
    &&& digits_value(whole_part(s)) <= u64::MAX
    &&& (sep_of(s) < s.len() ==> frac_part(s).len() > 0 && all_digits(frac_part(s)))
}

/// The digit values of a digit string, one byte per digit.
pub open spec fn digit_bytes(s: Seq<char>) -> Seq<u8> {
    s.map_values(|c: char| digit_val(c) as u8)
}

/// Reads a unit-number string as the catalog feed writes it: decimal
/// digits with at most one decimal point, fractional releases allowed.
/// Returns `None` exactly when the string violates that grammar (or
/// its whole part does not fit in a `u64`) — the malformed case that
/// the pipeline treats as a schema violation.
pub fn parse_unit_number(s: &str) -> (r: Option<UnitNumber>)
    ensures
        match r {
            Some(u) => {
                &&& valid_unit_seq(s@)
                &&& u.whole == digits_value(whole_part(s@))
                &&& u.frac@ == digit_bytes(frac_part(s@))
                &&& u.wf()
            },
            None => !valid_unit_seq(s@),
        },
{
    let len = s.unicode_len();
    let mut sep: usize = 0;
    while sep < len && s.get_char(sep) != '.'
        invariant
            0 <= sep <= len,
            len == s@.len(),
            forall|j: int| 0 <= j < sep ==> s@[j] != '.',
        decreases len - sep,
    {
        sep = sep + 1;
    }
    proof {
        assert(split_at_dot(s@, sep as int));
        assert(exists|i: int| split_at_dot(s@, i));
        lemma_split_at_dot_unique(s@, sep as int, sep_of(s@));
        assert(sep as int == sep_of(s@));
    }
    let whole_str = s.substring_char(0, sep);
    let whole = match parse_u64_digits(whole_str) {
        None => {
            return None;
        },
        Some(v) => v,
    };
    if sep == len {
        proof {
            assert(frac_part(s@) =~= Seq::<char>::empty());
            assert(digit_bytes(frac_part(s@)) =~= Seq::<u8>::empty());
        }
        return Some(UnitNumber { whole, frac: Vec::new() });
    }
    if sep + 1 == len {
        // A trailing decimal point with nothing after it.
        assert(frac_part(s@).len() == 0);
        return None;
    }
    let mut frac: Vec<u8> = Vec::new();
    let mut k: usize = sep + 1;
    while k < len
        invariant
            sep + 1 <= k <= len,
            len == s@.len(),
            sep < s@.len(),
            split_at_dot(s@, sep as int),
            sep as int == sep_of(s@),
            valid_u64_digits(whole_part(s@)),
            all_digits(s@.subrange(sep + 1, k as int)),
            frac@ == digit_bytes(s@.subrange(sep + 1, k as int)),
        decreases len - k,
    {
        let c = s.get_char(k);
        let code = c as u32;
        if code < 48 || code > 57 {
            proof {
                assert(frac_part(s@)[k - sep - 1] == s@[k as int]);
                assert(!is_digit(frac_part(s@)[k - sep - 1]));
            }
            return None;
        }
        frac.push((code - 48) as u8);
        proof {
            assert(digit_bytes(s@.subrange(sep + 1, k + 1)) =~= digit_bytes(
                s@.subrange(sep + 1, k as int),
            ).push(digit_val(s@[k as int]) as u8));
        }
        k = k + 1;
    }
    proof {
        assert(s@.subrange(sep + 1, len as int) =~= frac_part(s@));
    }
    Some(UnitNumber { whole, frac })
}

} // verus!
