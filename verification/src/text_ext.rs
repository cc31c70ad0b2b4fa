//! Extension traits for strings and characters: clipped substrings,
//! indexed character access, whitespace normalization, and identifier
//! character tests.

use vstd::prelude::*;
use vstd::string::StrSliceExecFns;
use vstd::string::StringExecFns;

verus! {

/// A character trimmed from the ends of a string: the Unicode White_Space
/// set, as `char::is_whitespace` has it.
pub open spec fn is_trim_char(c: char) -> bool {
    c == ' ' || c == '\t' || c == '\n' || c == '\r' || c == '\u{b}' || c == '\u{c}' || c == '\u{85}'
        || c == '\u{a0}' || c == '\u{1680}' || (('\u{2000}' as u32) <= (c as u32) && (c as u32) <= (
    '\u{200a}' as u32)) || c == '\u{2028}' || c == '\u{2029}' || c == '\u{202f}' || c == '\u{205f}'
        || c == '\u{3000}'
}

/// `s` without its leading whitespace.
pub open spec fn trim_front(s: Seq<char>) -> Seq<char>
    decreases s.len(),
{
    if s.len() > 0 && is_trim_char(s[0]) {
        trim_front(s.skip(1))
    } else {
        s
    }
}

/// `s` without its trailing whitespace.
pub open spec fn trim_back(s: Seq<char>) -> Seq<char>
    decreases s.len(),
{
    if s.len() > 0 && is_trim_char(s.last()) {
        trim_back(s.drop_last())
    } else {
        s
    }
}

/// `s` without leading and trailing whitespace.
pub open spec fn trimmed(s: Seq<char>) -> Seq<char> {
    trim_back(trim_front(s))
}

/// `s` with every run of spaces shortened to a single space: of two
/// adjacent spaces, the first is dropped.
pub open spec fn collapse_spaces(s: Seq<char>) -> Seq<char>
    decreases s.len(),
{
    if s.len() == 0 {
        Seq::empty()
    } else if s[0] == ' ' && s.len() >= 2 && s[1] == ' ' {
        collapse_spaces(s.skip(1))
    } else {
        seq![s[0]] + collapse_spaces(s.skip(1))
    }
}

/// An ASCII letter or an underscore.
pub open spec fn alpha_char(c: char) -> bool {
    (('a' as u32) <= (c as u32) && (c as u32) <= ('z' as u32)) || (('A' as u32) <= (c as u32) && (c
        as u32) <= ('Z' as u32)) || c == '_'
}

/// An ASCII decimal digit.
pub open spec fn digit_char(c: char) -> bool {
    ('0' as u32) <= (c as u32) && (c as u32) <= ('9' as u32)
}

pub trait StringExt: View<V = Seq<char>> {
    /// The characters from `start` up to `end`, both clipped to the
    /// string's length.
    fn substring(&self, start: usize, end: usize) -> (r: String)
        requires
            start <= end,
        ensures
            r@ == self@.subrange(
                if start <= self@.len() {
                    start as int
                } else {
                    self@.len() as int
                },
                if end <= self@.len() {
                    end as int
                } else {
                    self@.len() as int
                },
            ),
    ;

    /// The character at `index`, or NUL when the index is past the end.
    fn char_at(&self, index: usize) -> (r: char)
        ensures
            r == if index < self@.len() {
                self@[index as int]
            } else {
                '\0'
            },
    ;

    /// Trims whitespace at both ends and shortens every run of spaces to a
    /// single space.
    fn remove_double_spaces(&self) -> (r: String)
        ensures
            r@ == collapse_spaces(trimmed(self@)),
    ;
}

fn is_trim(c: char) -> (b: bool)
    ensures
        b == is_trim_char(c),
{
    let u = c as u32;
    c == ' ' || c == '\t' || c == '\n' || c == '\r' || c == '\u{b}' || c == '\u{c}' || c == '\u{85}'
        || c == '\u{a0}' || c == '\u{1680}' || (('\u{2000}' as u32) <= u && u <= ('\u{200a}' as u32))
        || c == '\u{2028}' || c == '\u{2029}' || c == '\u{202f}' || c == '\u{205f}' || c == '\u{3000}'
}

impl StringExt for String {
    fn substring(&self, start: usize, end: usize) -> (r: String) {
        let n = self.as_str().unicode_len();
        let lo = if start <= n {
            start
        } else {
            n
        };
        let hi = if end <= n {
            end
        } else {
            n
        };
        let sub = self.as_str().substring_char(lo, hi);
        String::from_str(sub)
    }

    fn char_at(&self, index: usize) -> (r: char) {
        let n = self.as_str().unicode_len();
        if index < n {
            self.as_str().get_char(index)
        } else {
            '\0'
        }
    }

    fn remove_double_spaces(&self) -> (r: String) {
        let n = self.as_str().unicode_len();
        let mut a: usize = 0;
        proof {
            assert(self@.skip(0) =~= self@);
        }
        while a < n && is_trim(self.as_str().get_char(a))
            invariant
                n == self@.len(),
                a <= n,
                trim_front(self@) == trim_front(self@.skip(a as int)),
            decreases n - a,
        {
            proof {
                assert(self@.skip(a as int)[0] == self@[a as int]);
                assert(self@.skip(a as int).skip(1) =~= self@.skip(a as int + 1));
            }
            a = a + 1;
        }
        proof {
            if a == n {
                assert(self@.skip(a as int) =~= Seq::<char>::empty());
            }
            assert(trim_front(self@) == self@.skip(a as int));
            assert(self@.subrange(a as int, n as int) =~= self@.skip(a as int));
        }
        let mut b: usize = n;
        while b > a && is_trim(self.as_str().get_char(b - 1))
            invariant
                n == self@.len(),
                a <= b <= n,
                trim_front(self@) == self@.skip(a as int),
                trim_back(self@.skip(a as int)) == trim_back(
                    self@.subrange(a as int, b as int),
                ),
            decreases b,
        {
            proof {
                let t = self@.subrange(a as int, b as int);
                assert(t.last() == self@[b as int - 1]);
                assert(t.drop_last() =~= self@.subrange(a as int, b as int - 1));
            }
            b = b - 1;
        }
        proof {
            if b == a {
                assert(self@.subrange(a as int, b as int) =~= Seq::<char>::empty());
            }
            assert(trimmed(self@) == self@.subrange(a as int, b as int));
        }
        let mut r = String::new();
        let mut i: usize = a;
        while i < b
            invariant
                n == self@.len(),
                a <= i <= b <= n,
                trimmed(self@) == self@.subrange(a as int, b as int),
                r@ + collapse_spaces(self@.subrange(i as int, b as int)) == collapse_spaces(
                    self@.subrange(a as int, b as int),
                ),
            decreases b - i,
        {
            let c = self.as_str().get_char(i);
            let ghost u = self@.subrange(i as int, b as int);
            let ghost prev = r@;
            proof {
                assert(u[0] == self@[i as int]);
                assert(u.skip(1) =~= self@.subrange(i as int + 1, b as int));
            }
            if c == ' ' && i + 1 < b && self.as_str().get_char(i + 1) == ' ' {
                proof {
                    assert(u[1] == self@[i as int + 1]);
                }
            } else {
                r.push(c);
                proof {
                    if u.len() >= 2 {
                        assert(u[1] == self@[i as int + 1]);
                    }
                    assert((prev + (seq![c] + collapse_spaces(u.skip(1)))) =~= (prev.push(c)
                        + collapse_spaces(u.skip(1))));
                }
            }
            i = i + 1;
        }
        proof {
            assert(self@.subrange(b as int, b as int) =~= Seq::<char>::empty());
            assert(r@ + Seq::<char>::empty() =~= r@);
        }
        r
    }
}

pub trait CharExt {
    /// What counts as a letter for this type.
    spec fn alpha_spec(&self) -> bool;

    /// What counts as a letter or digit for this type.
    spec fn alpha_numeric_spec(&self) -> bool;

    fn is_alpha(&self) -> (b: bool)
        ensures
            b == self.alpha_spec(),
    ;

    fn is_alpha_numeric(&self) -> (b: bool)
        ensures
            b == self.alpha_numeric_spec(),
    ;
}

impl CharExt for char {
    open spec fn alpha_spec(&self) -> bool {
        alpha_char(*self)
    }

    open spec fn alpha_numeric_spec(&self) -> bool {
        digit_char(*self) || alpha_char(*self)
    }

    fn is_alpha(&self) -> (b: bool) {
        let u = *self as u32;
        (('a' as u32) <= u && u <= ('z' as u32)) || (('A' as u32) <= u && u <= ('Z' as u32)) || *self
            == '_'
    }

    fn is_alpha_numeric(&self) -> (b: bool) {
        let u = *self as u32;
        (('0' as u32) <= u && u <= ('9' as u32)) || self.is_alpha()
    }
}

pub open spec fn decimal_digit(d: nat) -> char {
    if d == 0 {
        '0'
    } else if d == 1 {
        '1'
    } else if d == 2 {
        '2'
    } else if d == 3 {
        '3'
    } else if d == 4 {
        '4'
    } else if d == 5 {
        '5'
    } else if d == 6 {
        '6'
    } else if d == 7 {
        '7'
    } else if d == 8 {
        '8'
    } else {
        '9'
    }
}

/// The decimal digits of `n`, most significant first.
pub open spec fn decimal_seq(n: nat) -> Seq<char>
    decreases n,
{
    if n < 10 {
        seq![decimal_digit(n)]
    } else {
        decimal_seq(n / 10) + seq![decimal_digit(n % 10)]
    }
}

fn decimal_digit_char(d: usize) -> (c: char)
    requires
        d < 10,
    ensures
        c == decimal_digit(d as nat),
{
    if d == 0 {
        '0'
    } else if d == 1 {
        '1'
    } else if d == 2 {
        '2'
    } else if d == 3 {
        '3'
    } else if d == 4 {
        '4'
    } else if d == 5 {
        '5'
    } else if d == 6 {
        '6'
    } else if d == 7 {
        '7'
    } else if d == 8 {
        '8'
    } else {
        '9'
    }
}

/// Renders `n` in decimal.
pub fn decimal_string(n: usize) -> (r: String)
    ensures
        r@ == decimal_seq(n as nat),
    decreases n,
{
    if n < 10 {
        let mut r = String::new();
        r.push(decimal_digit_char(n));
        proof {
            assert(r@ =~= seq![decimal_digit(n as nat)]);
        }
        r
    } else {
        let mut r = decimal_string(n / 10);
        r.push(decimal_digit_char(n % 10));
        proof {
            assert(r@ =~= decimal_seq((n / 10) as nat) + seq![decimal_digit((n % 10) as nat)]);
        }
        r
    }
}

/// The numeric value of a digit character.
pub open spec fn digit_val(c: char) -> int {
    (c as u32) - ('0' as u32)
}

pub open spec fn all_digits(s: Seq<char>) -> bool {
    forall|k: int| 0 <= k < s.len() ==> digit_char(#[trigger] s[k])
}

/// The value of a digit string, most significant digit first.
pub open spec fn digits_val(s: Seq<char>) -> int
    decreases s.len(),
{
    if s.len() == 0 {
        0
    } else {
        digits_val(s.drop_last()) * 10 + digit_val(s.last())
    }
}

proof fn lemma_digits_val_nonneg(s: Seq<char>)
    requires
        all_digits(s),
    ensures
        digits_val(s) >= 0,
    decreases s.len(),
{
    if s.len() > 0 {
        assert(all_digits(s.drop_last())) by {
            assert forall|k: int| 0 <= k < s.drop_last().len() implies digit_char(
                #[trigger] s.drop_last()[k],
            ) by {
                assert(s.drop_last()[k] == s[k]);
            }
        }
        lemma_digits_val_nonneg(s.drop_last());
        assert(digit_char(s.last()));
    }
}

/// A digit string is worth at least any of its prefixes.
proof fn lemma_digits_val_take(s: Seq<char>, k: int)
    requires
        all_digits(s),
        0 <= k <= s.len(),
    ensures
        digits_val(s.take(k)) <= digits_val(s),
    decreases s.len() - k,
{
    if k == s.len() {
        assert(s.take(k) =~= s);
    } else {
        assert(s.take(k + 1).drop_last() =~= s.take(k));
        assert(s.take(k + 1).last() == s[k]);
        assert(all_digits(s.take(k))) by {
            assert forall|t: int| 0 <= t < s.take(k).len() implies digit_char(
                #[trigger] s.take(k)[t],
            ) by {
                assert(s.take(k)[t] == s[t]);
            }
        }
        lemma_digits_val_nonneg(s.take(k));
        assert(digit_char(s[k]));
        assert(digits_val(s.take(k + 1)) == digits_val(s.take(k)) * 10 + digit_val(s[k]));
        lemma_digits_val_take(s, k + 1);
    }
}

/// The length of the sign prefix that a decimal integer may carry.
pub open spec fn sign_len(s: Seq<char>) -> int {
    if s.len() > 0 && (s[0] == '+' || s[0] == '-') {
        1
    } else {
        0
    }
}

pub open spec fn is_negative(s: Seq<char>) -> bool {
    s.len() > 0 && s[0] == '-'
}

/// What `str::parse::<i32>` yields: an optional sign followed by at least
/// one decimal digit, and a value within the type's range; anything else
/// is `None`.
pub open spec fn parse_i32_spec(s: Seq<char>) -> Option<i32> {
    let digits = s.skip(sign_len(s));
    if digits.len() == 0 || !all_digits(digits) {
        Option::None
    } else {
        let v = if is_negative(s) {
            -digits_val(digits)
        } else {
            digits_val(digits)
        };
        if -2147483648 <= v && v <= 2147483647 {
            Option::Some(v as i32)
        } else {
            Option::None
        }
    }
}

/// Reads an optionally signed decimal integer, as `str::parse::<i32>`
/// does.
pub fn parse_i32(s: &str) -> (r: Option<i32>)
    ensures
        r == parse_i32_spec(s@),
{
    let n = s.unicode_len();
    let mut start: usize = 0;
    let mut negative = false;
    if n > 0 {
        let c0 = s.get_char(0);
        if c0 == '+' {
            start = 1;
        } else if c0 == '-' {
            start = 1;
            negative = true;
        }
    }
    proof {
        assert(start == sign_len(s@));
        assert(negative == is_negative(s@));
    }
    if start == n {
        proof {
            assert(s@.skip(start as int).len() == 0);
        }
        return None;
    }
    let mut acc: u64 = 0;
    let mut j: usize = start;
    proof {
        assert(s@.subrange(start as int, start as int) =~= Seq::<char>::empty());
    }
    while j < n
        invariant
            n == s@.len(),
            start <= j <= n,
            start < n,
            start == sign_len(s@),
            negative == is_negative(s@),
            forall|t: int| start <= t < j ==> digit_char(#[trigger] s@[t]),
            acc as int == digits_val(s@.subrange(start as int, j as int)),
            acc <= 2147483648,
        decreases n - j,
    {
        let c = s.get_char(j);
        let u = c as u32;
        if !(('0' as u32) <= u && u <= ('9' as u32)) {
            proof {
                assert(s@.skip(start as int)[j as int - start as int] == s@[j as int]);
                assert(!all_digits(s@.skip(start as int)));
            }
            return None;
        }
        let d = (u - ('0' as u32)) as u64;
        let next = acc * 10 + d;
        proof {
            assert(s@.subrange(start as int, j as int + 1).drop_last() =~= s@.subrange(
                start as int,
                j as int,
            ));
            assert(s@.subrange(start as int, j as int + 1).last() == s@[j as int]);
            assert(next as int == digits_val(s@.subrange(start as int, j as int + 1)));
        }
        if next > 2147483648 {
            proof {
                let full = s@.skip(start as int);
                assert(full =~= s@.subrange(start as int, n as int));
                if all_digits(full) {
                    lemma_digits_val_take(full, j as int + 1 - start as int);
                    assert(full.take(j as int + 1 - start as int) =~= s@.subrange(
                        start as int,
                        j as int + 1,
                    ));
                }
            }
            return None;
        }
        acc = next;
        j = j + 1;
    }
    proof {
        assert(s@.skip(start as int) =~= s@.subrange(start as int, n as int));
        assert(all_digits(s@.skip(start as int)));
    }
    if negative {
        if acc == 2147483648 {
            Some(i32::MIN)
        } else {
            Some(-(acc as i32))
        }
    } else {
        if acc > 2147483647 {
            None
        } else {
            Some(acc as i32)
        }
    }
}

} // verus!
