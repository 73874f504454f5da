//! Digit strings: the spec-level grammar and value of positional notation.
//!
//! These functions give exact meaning to the digit strings that the
//! arbitrary-precision types parse and print: which characters are digits in
//! a given base, what value a digit string denotes, and the canonical
//! (lowercase, no leading zero) rendering of a value.

use vstd::prelude::*;
use vstd::string::StrSliceExecFns;

verus! {

/// The numeric value of a digit character when letter case is
/// insignificant, as in bases up to 36: `'0'`-`'9'` are 0-9 and both
/// `'a'`-`'z'` and `'A'`-`'Z'` are 10-35. Other characters get an
/// out-of-range value.
pub open spec fn digit_val_ci(c: char) -> nat {
    let v = c as u32;
    if 48 <= v <= 57 {
        (v - 48) as nat
    } else if 97 <= v <= 122 {
        (v - 87) as nat
    } else if 65 <= v <= 90 {
        (v - 55) as nat
    } else {
        62
    }
}

/// The numeric value of a digit character in bases 37 through 62, where the
/// cases are distinct digits: `'A'`-`'Z'` are 10-35 and `'a'`-`'z'` are
/// 36-61.
pub open spec fn digit_val_large(c: char) -> nat {
    let v = c as u32;
    if 48 <= v <= 57 {
        (v - 48) as nat
    } else if 65 <= v <= 90 {
        (v - 55) as nat
    } else if 97 <= v <= 122 {
        (v - 61) as nat
    } else {
        62
    }
}

/// The value of a digit character in the given base.
pub open spec fn base_digit_val(c: char, base: nat) -> nat {
    if base <= 36 {
        digit_val_ci(c)
    } else {
        digit_val_large(c)
    }
}

/// Whether a character is a digit of the given base.
pub open spec fn is_base_digit(c: char, base: nat) -> bool {
    base_digit_val(c, base) < base
}

/// Whether every character of a string is a digit of the given base.
pub open spec fn all_digits(s: Seq<char>, base: nat) -> bool {
    forall|i: int| 0 <= i < s.len() ==> is_base_digit(#[trigger] s[i], base)
}

/// The value denoted by a digit string read positionally, most significant
/// digit first.
pub open spec fn digits_val(s: Seq<char>, base: nat) -> nat
    decreases s.len(),
{
    if s.len() == 0 {
        0
    } else {
        digits_val(s.drop_last(), base) * base + base_digit_val(s.last(), base)
    }
}

/// The lowercase digit character of a value below 36.
pub open spec fn digit_char(d: nat) -> char {
    if d < 18 {
        if d < 9 {
            if d == 0 {
                '0'
            } else if d == 1 {
                '1'
            } else if d == 2 {
                '2'
            } else if d == 3 {
                '3'
            } else if d == 4 {
                '4'
            } else if d == 5 {
                '5'
            } else if d == 6 {
                '6'
            } else if d == 7 {
                '7'
            } else {
                '8'
            }
        } else {
            if d == 9 {
                '9'
            } else if d == 10 {
                'a'
            } else if d == 11 {
                'b'
            } else if d == 12 {
                'c'
            } else if d == 13 {
                'd'
            } else if d == 14 {
                'e'
            } else if d == 15 {
                'f'
            } else if d == 16 {
                'g'
            } else {
                'h'
            }
        }
    } else {
        if d < 27 {
            if d == 18 {
                'i'
            } else if d == 19 {
                'j'
            } else if d == 20 {
                'k'
            } else if d == 21 {
                'l'
            } else if d == 22 {
                'm'
            } else if d == 23 {
                'n'
            } else if d == 24 {
                'o'
            } else if d == 25 {
                'p'
            } else {
                'q'
            }
        } else {
            if d == 27 {
                'r'
            } else if d == 28 {
                's'
            } else if d == 29 {
                't'
            } else if d == 30 {
                'u'
            } else if d == 31 {
                'v'
            } else if d == 32 {
                'w'
            } else if d == 33 {
                'x'
            } else if d == 34 {
                'y'
            } else {
                'z'
            }
        }
    }
}

/// The canonical rendering of a value in the given base: lowercase digits
/// and no leading zero (zero itself is the single digit `'0'`).
pub open spec fn str_of_base(n: nat, base: nat) -> Seq<char>
    recommends
        2 <= base,
    decreases n,
    when base >= 2
{
    if n < base {
        seq![digit_char(n)]
    } else {
        proof {
            vstd::arithmetic::div_mod::lemma_div_is_strictly_smaller(n as int, base as int);
        }
        str_of_base(n / base, base).push(digit_char(n % base))
    }
}


/// Whether a string is `"inf"` in any letter case.
pub open spec fn is_ci_inf(s: Seq<char>) -> bool {
    s.len() == 3 && (s[0] == 'i' || s[0] == 'I') && (s[1] == 'n' || s[1] == 'N') && (s[2] == 'f'
        || s[2] == 'F')
}

/// Whether a string is `"nan"` in any letter case.
pub open spec fn is_ci_nan(s: Seq<char>) -> bool {
    s.len() == 3 && (s[0] == 'n' || s[0] == 'N') && (s[1] == 'a' || s[1] == 'A') && (s[2] == 'n'
        || s[2] == 'N')
}

/// Decides whether a string is `"inf"` in any letter case.
pub fn check_ci_inf(s: &str) -> (r: bool)
    ensures
        r == is_ci_inf(s@),
{
    if s.unicode_len() != 3 {
        return false;
    }
    let c0 = s.get_char(0);
    let c1 = s.get_char(1);
    let c2 = s.get_char(2);
    (c0 == 'i' || c0 == 'I') && (c1 == 'n' || c1 == 'N') && (c2 == 'f' || c2 == 'F')
}

/// Decides whether a string is `"nan"` in any letter case.
pub fn check_ci_nan(s: &str) -> (r: bool)
    ensures
        r == is_ci_nan(s@),
{
    if s.unicode_len() != 3 {
        return false;
    }
    let c0 = s.get_char(0);
    let c1 = s.get_char(1);
    let c2 = s.get_char(2);
    (c0 == 'n' || c0 == 'N') && (c1 == 'a' || c1 == 'A') && (c2 == 'n' || c2 == 'N')
}

/// Decides whether two strings hold the same characters.
pub fn str_eq_chars(s: &str, t: &str) -> (r: bool)
    ensures
        r == (s@ == t@),
{
    let n = s.unicode_len();
    if n != t.unicode_len() {
        return false;
    }
    for i in 0..n
        invariant
            n == s@.len(),
            n == t@.len(),
            forall|j: int| 0 <= j < i ==> s@[j] == t@[j],
    {
        if s.get_char(i) != t.get_char(i) {
            return false;
        }
    }
    proof {
        assert(s@ =~= t@);
    }
    true
}

/// The value an unsigned numeral denotes, if it is valid: an optional
/// single leading `'+'` followed by a nonempty run of digits of the base.
pub open spec fn nat_str_val(s: Seq<char>, base: nat) -> Option<nat> {
    let t = if s.len() > 0 && s[0] == '+' {
        s.skip(1)
    } else {
        s
    };
    if t.len() >= 1 && all_digits(t, base) {
        Some(digits_val(t, base))
    } else {
        None
    }
}

/// The value a signed numeral denotes, if it is valid: an optional single
/// leading `'-'` or `'+'` followed by a nonempty run of digits of the base.
pub open spec fn int_str_val(s: Seq<char>, base: nat) -> Option<int> {
    if s.len() > 0 && s[0] == '-' {
        let t = s.skip(1);
        if t.len() >= 1 && all_digits(t, base) {
            Some(-(digits_val(t, base) as int))
        } else {
            None
        }
    } else {
        match nat_str_val(s, base) {
            Some(v) => Some(v as int),
            None => None,
        }
    }
}

/// The first index holding either of two characters.
pub open spec fn find2(s: Seq<char>, a: char, b: char) -> Option<int>
    decreases s.len(),
{
    if s.len() == 0 {
        None
    } else if s[0] == a || s[0] == b {
        Some(0)
    } else {
        match find2(s.skip(1), a, b) {
            Some(i) => Some(i + 1),
            None => None,
        }
    }
}

/// The last index holding a character.
pub open spec fn rfind1(s: Seq<char>, a: char) -> Option<int>
    decreases s.len(),
{
    if s.len() == 0 {
        None
    } else if s.last() == a {
        Some(s.len() - 1)
    } else {
        rfind1(s.drop_last(), a)
    }
}

/// `find2` names the first index holding either character, if any.
pub proof fn lemma_find2(s: Seq<char>, a: char, b: char)
    ensures
        match find2(s, a, b) {
            Some(i) => 0 <= i < s.len() && (s[i] == a || s[i] == b) && forall|j: int|
                0 <= j < i ==> s[j] != a && s[j] != b,
            None => forall|j: int| 0 <= j < s.len() ==> s[j] != a && s[j] != b,
        },
    decreases s.len(),
{
    if s.len() > 0 && !(s[0] == a || s[0] == b) {
        lemma_find2(s.skip(1), a, b);
        assert forall|j: int| 1 <= j < s.len() implies s.skip(1)[j - 1] == s[j] by {}
    }
}

/// `rfind1` names the last index holding the character, if any.
pub proof fn lemma_rfind1(s: Seq<char>, a: char)
    ensures
        match rfind1(s, a) {
            Some(i) => 0 <= i < s.len() && s[i] == a && forall|j: int|
                i < j < s.len() ==> s[j] != a,
            None => forall|j: int| 0 <= j < s.len() ==> s[j] != a,
        },
    decreases s.len(),
{
    if s.len() > 0 && s.last() != a {
        lemma_rfind1(s.drop_last(), a);
        assert forall|j: int| 0 <= j < s.len() - 1 implies s.drop_last()[j] == s[j] by {}
    }
}

/// A position matching either character, with none before it, is where
/// `find2` points.
pub proof fn lemma_find2_at(s: Seq<char>, a: char, b: char, k: int)
    requires
        0 <= k < s.len(),
        s[k] == a || s[k] == b,
        forall|j: int| 0 <= j < k ==> s[j] != a && s[j] != b,
    ensures
        find2(s, a, b) == Some(k),
{
    lemma_find2(s, a, b);
    match find2(s, a, b) {
        Some(i) => {
            if i < k {
                assert(s[i] != a && s[i] != b);
            } else if k < i {
                assert(s[k] != a && s[k] != b);
            }
        },
        None => {
            assert(s[k] != a && s[k] != b);
        },
    }
}

/// A string without either character has no `find2` position.
pub proof fn lemma_find2_absent(s: Seq<char>, a: char, b: char)
    requires
        forall|j: int| 0 <= j < s.len() ==> s[j] != a && s[j] != b,
    ensures
        find2(s, a, b) is None,
{
    lemma_find2(s, a, b);
    match find2(s, a, b) {
        Some(i) => {
            assert(s[i] != a && s[i] != b);
        },
        None => {},
    }
}

/// A string without the character has no `rfind1` position.
pub proof fn lemma_rfind1_absent(s: Seq<char>, a: char)
    requires
        forall|j: int| 0 <= j < s.len() ==> s[j] != a,
    ensures
        rfind1(s, a) is None,
{
    lemma_rfind1(s, a);
    match rfind1(s, a) {
        Some(i) => {
            assert(s[i] != a);
        },
        None => {},
    }
}

/// Finds the first occurrence of either of two characters.
pub fn find2_str(s: &str, a: char, b: char) -> (r: Option<usize>)
    ensures
        match (r, find2(s@, a, b)) {
            (Some(u), Some(i)) => u == i && u < s@.len(),
            (None, None) => true,
            _ => false,
        },
{
    proof {
        lemma_find2(s@, a, b);
    }
    let n = s.unicode_len();
    for i in 0..n
        invariant
            n == s@.len(),
            forall|j: int| 0 <= j < i ==> s@[j] != a && s@[j] != b,
    {
        let c = s.get_char(i);
        if c == a || c == b {
            proof {
                lemma_find2(s@, a, b);
                match find2(s@, a, b) {
                    Some(fi) => {
                        if fi < i {
                            assert(s@[fi] != a && s@[fi] != b);
                        } else if i < fi {
                            assert(s@[i as int] != a && s@[i as int] != b);
                        }
                    },
                    None => {
                        assert(s@[i as int] != a && s@[i as int] != b);
                    },
                }
            }
            return Some(i);
        }
    }
    None
}

/// Finds the last occurrence of a character.
pub fn rfind1_str(s: &str, a: char) -> (r: Option<usize>)
    ensures
        match (r, rfind1(s@, a)) {
            (Some(u), Some(i)) => u == i && u < s@.len(),
            (None, None) => true,
            _ => false,
        },
{
    proof {
        lemma_rfind1(s@, a);
    }
    let n = s.unicode_len();
    let mut i = n;
    while i > 0
        invariant
            n == s@.len(),
            i <= n,
            forall|j: int| i <= j < n ==> s@[j] != a,
        decreases i,
    {
        i = i - 1;
        let c = s.get_char(i);
        if c == a {
            proof {
                lemma_rfind1(s@, a);
                match rfind1(s@, a) {
                    Some(fi) => {
                        if i < fi {
                            assert(s@[fi] != a);
                        } else if fi < i {
                            assert(s@[i as int] != a);
                        }
                    },
                    None => {
                        assert(s@[i as int] != a);
                    },
                }
            }
            return Some(i);
        }
    }
    None
}

/// Decides whether every character of a string is a decimal digit.
pub fn all_digits10_str(s: &str) -> (r: bool)
    ensures
        r == all_digits(s@, 10),
{
    let n = s.unicode_len();
    for i in 0..n
        invariant
            n == s@.len(),
            forall|j: int| 0 <= j < i ==> is_base_digit(#[trigger] s@[j], 10),
    {
        let c = s.get_char(i);
        let v = c as u32;
        if !(48 <= v && v <= 57) {
            return false;
        }
    }
    true
}

/// A lowercase digit character is a digit of every base above its value,
/// and reading it back yields the value it was made from.
pub proof fn lemma_digit_char(d: nat, base: nat)
    requires
        d < base,
        2 <= base <= 36,
    ensures
        is_base_digit(digit_char(d), base),
        base_digit_val(digit_char(d), base) == d,
{
    assert(base_digit_val(digit_char(d), base) == d);
}

/// The canonical rendering of a value is a nonempty digit string denoting
/// that value.
pub proof fn lemma_str_of_base(n: nat, base: nat)
    requires
        2 <= base <= 36,
    ensures
        all_digits(str_of_base(n, base), base),
        str_of_base(n, base).len() >= 1,
        digits_val(str_of_base(n, base), base) == n,
    decreases n,
{
    let s = str_of_base(n, base);
    if n < base {
        lemma_digit_char(n, base);
        assert(s.len() == 1);
        assert(s.drop_last() =~= Seq::<char>::empty());
        assert(digits_val(Seq::<char>::empty(), base) == 0);
        assert(s.last() == digit_char(n));
        assert(digits_val(s, base) == digits_val(s.drop_last(), base) * base + base_digit_val(
            s.last(),
            base,
        ));
        assert(digits_val(s, base) == 0 * base + n);
    } else {
        let p = str_of_base(n / base, base);
        lemma_str_of_base(n / base, base);
        lemma_digit_char(n % base, base);
        assert(s == p.push(digit_char(n % base)));
        assert(s.drop_last() =~= p);
        assert(s.last() == digit_char(n % base));
        assert(digits_val(s, base) == (n / base) * base + n % base);
        assert((n / base) * base + n % base == n) by (nonlinear_arith)
            requires
                base >= 2,
                n >= 0,
        ;
        assert forall|i: int| 0 <= i < s.len() implies is_base_digit(#[trigger] s[i], base) by {
            if i < p.len() {
                assert(s[i] == p[i]);
            }
        }
    }
}

} // verus!
