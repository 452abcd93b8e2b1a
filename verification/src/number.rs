//! Numbers in OBJ text: unsigned decimal integers (`str::parse` for
//! `usize` and `u32`), the syntax of floating-point literals that
//! `str::parse` accepts for `f32` and `f64`, and decimal formatting.
use vstd::prelude::*;

verus! {

/// An ASCII decimal digit.
pub open spec fn is_digit(c: char) -> bool {
    '0' <= c && c <= '9'
}

/// Every character of `s` is an ASCII decimal digit.
pub open spec fn all_digits(s: Seq<char>) -> bool {
    forall|i: int| 0 <= i < s.len() ==> is_digit(#[trigger] s[i])
}

/// The value of a decimal digit.
pub open spec fn digit_value(c: char) -> nat {
    (c as int - '0' as int) as nat
}

/// The value of a string of decimal digits.
pub open spec fn digits_value(s: Seq<char>) -> nat
    decreases s.len(),
{
    if s.len() == 0 {
        0
    } else {
        digits_value(s.drop_last()) * 10 + digit_value(s.last())
    }
}

/// `s` without a leading `+`.
pub open spec fn strip_plus(s: Seq<char>) -> Seq<char> {
    if s.len() > 0 && s[0] == '+' {
        s.drop_first()
    } else {
        s
    }
}

/// `s` without a leading `+` or `-`.
pub open spec fn strip_sign(s: Seq<char>) -> Seq<char> {
    if s.len() > 0 && (s[0] == '+' || s[0] == '-') {
        s.drop_first()
    } else {
        s
    }
}

/// What `str::parse` gives for an unsigned integer type whose largest value
/// is `max`: an optional `+`, then one or more ASCII digits, of value at most `max`.
pub open spec fn parse_unsigned(s: Seq<char>, max: nat) -> Option<nat> {
    let d = strip_plus(s);
    if d.len() > 0 && all_digits(d) && digits_value(d) <= max {
        Some(digits_value(d))
    } else {
        None
    }
}

/// The first index at which `s` holds `a` or `b`.
pub open spec fn first_match(s: Seq<char>, a: char, b: char) -> Option<int>
    decreases s.len(),
{
    if s.len() == 0 {
        None
    } else {
        match first_match(s.drop_last(), a, b) {
            Some(i) => Some(i),
            None => if s.last() == a || s.last() == b {
                Some(s.len() - 1)
            } else {
                None
            },
        }
    }
}

/// How many times `c` occurs in `s`.
pub open spec fn count_char(s: Seq<char>, c: char) -> nat
    decreases s.len(),
{
    if s.len() == 0 {
        0
    } else {
        count_char(s.drop_last(), c) + if s.last() == c {
            1nat
        } else {
            0nat
        }
    }
}

/// How many ASCII digits `s` holds.
pub open spec fn count_digits(s: Seq<char>) -> nat
    decreases s.len(),
{
    if s.len() == 0 {
        0
    } else {
        count_digits(s.drop_last()) + if is_digit(s.last()) {
            1nat
        } else {
            0nat
        }
    }
}

/// `s` equals the lower-case ASCII word `w` when ASCII case is ignored
/// (`str::eq_ignore_ascii_case` against a lower-case word).
pub open spec fn eq_ignore_case(s: Seq<char>, w: Seq<char>) -> bool {
    &&& s.len() == w.len()
    &&& forall|i: int|
        0 <= i < s.len() ==> (#[trigger] s[i] == w[i] || s[i] as int + 32 == w[i] as int)
}

/// Lower-case ASCII letters only.
pub open spec fn lower_word(w: Seq<char>) -> bool {
    forall|i: int| 0 <= i < w.len() ==> 'a' <= #[trigger] w[i] && w[i] <= 'z'
}

/// Digits with at most one `.` among them, and at least one digit.
pub open spec fn is_mantissa(m: Seq<char>) -> bool {
    &&& forall|i: int| 0 <= i < m.len() ==> (is_digit(#[trigger] m[i]) || m[i] == '.')
    &&& count_char(m, '.') <= 1
    &&& count_digits(m) >= 1
}

/// An optional sign, then one or more digits.
pub open spec fn is_exponent(x: Seq<char>) -> bool {
    let d = strip_sign(x);
    d.len() > 0 && all_digits(d)
}

/// A mantissa, then optionally `e` or `E` and an exponent.
pub open spec fn is_decimal_float(b: Seq<char>) -> bool {
    match first_match(b, 'e', 'E') {
        None => is_mantissa(b),
        Some(p) => is_mantissa(b.take(p)) && is_exponent(b.skip(p + 1)),
    }
}

/// The strings that `str::parse::<f64>()` (and `::<f32>()`) accept, as its
/// documentation gives their grammar: an optional sign, then `inf`,
/// `infinity` or `nan` in any ASCII case, or a decimal number with an
/// optional exponent.
///
/// This is the grammar of `f32` and `f64` only. [`parse_line`] and
/// [`ObjLineReader::read_line`] check numbers by it; a float type whose
/// parser accepts other texts is read with [`parse_line_with`] and
/// [`ObjLineReader::read_line_with`], which take what that parser accepted.
///
/// [`parse_line`]: crate::parse::parse_line
/// [`parse_line_with`]: crate::parse::parse_line_with
/// [`ObjLineReader::read_line`]: crate::parse::ObjLineReader::read_line
/// [`ObjLineReader::read_line_with`]: crate::parse::ObjLineReader::read_line_with
pub open spec fn is_float_text(s: Seq<char>) -> bool {
    let b = strip_sign(s);
    ||| eq_ignore_case(b, seq!['i', 'n', 'f'])
    ||| eq_ignore_case(b, seq!['i', 'n', 'f', 'i', 'n', 'i', 't', 'y'])
    ||| eq_ignore_case(b, seq!['n', 'a', 'n'])
    ||| is_decimal_float(b)
}

/// The character of the decimal digit `d`.
pub open spec fn digit_char(d: nat) -> char {
    if d == 0 {
        '0'
    } else if d == 1 {
        '1'
    } else if d == 2 {
        '2'
    } else if d == 3 {
        '3'
    } else if d == 4 {
        '4'
    } else if d == 5 {
        '5'
    } else if d == 6 {
        '6'
    } else if d == 7 {
        '7'
    } else if d == 8 {
        '8'
    } else {
        '9'
    }
}

/// The decimal digits of `n`, without sign or leading zeros.
pub open spec fn decimal(n: nat) -> Seq<char>
    decreases n,
{
    if n < 10 {
        seq![digit_char(n)]
    } else {
        decimal(n / 10).push(digit_char(n % 10))
    }
}

/// `first_match` is the first position that holds either character.
pub proof fn lemma_first_match(s: Seq<char>, a: char, b: char)
    ensures
        match first_match(s, a, b) {
            Some(i) => {
                &&& 0 <= i < s.len()
                &&& (s[i] == a || s[i] == b)
                &&& forall|j: int| 0 <= j < i ==> #[trigger] s[j] != a && s[j] != b
            },
            None => forall|j: int| 0 <= j < s.len() ==> #[trigger] s[j] != a && s[j] != b,
        },
    decreases s.len(),
{
    if s.len() > 0 {
        let p = s.drop_last();
        lemma_first_match(p, a, b);
        match first_match(p, a, b) {
            Some(i) => {
                assert forall|j: int| 0 <= j < i implies #[trigger] s[j] != a && s[j] != b by {
                    assert(s[j] == p[j]);
                }
            },
            None => {
                assert forall|j: int| 0 <= j < s.len() - 1 implies #[trigger] s[j] != a && s[j]
                    != b by {
                    assert(s[j] == p[j]);
                }
            },
        }
    }
}

/// The first match in `x + y`, where `x` holds no match, lies in `y`.
pub proof fn lemma_first_match_after(x: Seq<char>, y: Seq<char>, a: char, b: char)
    requires
        forall|j: int| 0 <= j < x.len() ==> #[trigger] x[j] != a && x[j] != b,
    ensures
        first_match(x + y, a, b) == match first_match(y, a, b) {
            Some(i) => Some(i + x.len()),
            None => None,
        },
    decreases y.len(),
{
    if y.len() == 0 {
        assert(x + y =~= x);
        lemma_first_match(x, a, b);
        if first_match(x, a, b) is Some {
            let i = first_match(x, a, b)->0;
            assert(x[i] != a && x[i] != b);
        }
    } else {
        let y1 = y.drop_last();
        lemma_first_match_after(x, y1, a, b);
        assert((x + y).drop_last() =~= x + y1);
        assert((x + y).last() == y.last());
    }
}

/// A match in a prefix stays the first match of the whole.
pub proof fn lemma_first_match_prefix(x: Seq<char>, y: Seq<char>, a: char, b: char)
    requires
        first_match(x, a, b) is Some,
    ensures
        first_match(x + y, a, b) == first_match(x, a, b),
    decreases y.len(),
{
    if y.len() == 0 {
        assert(x + y =~= x);
    } else {
        lemma_first_match_prefix(x, y.drop_last(), a, b);
        assert((x + y).drop_last() =~= x + y.drop_last());
    }
}

/// A prefix of a string of digits has no greater value.
pub proof fn lemma_digits_value_take(s: Seq<char>, k: int)
    requires
        0 <= k <= s.len(),
    ensures
        digits_value(s.take(k)) <= digits_value(s),
    decreases s.len(),
{
    if k < s.len() {
        let p = s.drop_last();
        lemma_digits_value_take(p, k);
        assert(p.take(k) =~= s.take(k));
    } else {
        assert(s.take(k) =~= s);
    }
}

/// `digit_char` gives the digit of each value below ten.
pub proof fn lemma_digit_char(d: nat)
    requires
        d < 10,
    ensures
        is_digit(digit_char(d)),
        digit_value(digit_char(d)) == d,
{
}

/// A decimal is one or more digits whose value is the number.
pub proof fn lemma_decimal(n: nat)
    ensures
        decimal(n).len() > 0,
        all_digits(decimal(n)),
        digits_value(decimal(n)) == n,
    decreases n,
{
    lemma_digit_char(n % 10);
    if n >= 10 {
        lemma_decimal(n / 10);
        let p = decimal(n / 10);
        let d = decimal(n);
        assert(d.drop_last() =~= p);
        assert forall|i: int| 0 <= i < d.len() implies is_digit(#[trigger] d[i]) by {
            if i < p.len() {
                assert(d[i] == p[i]);
            }
        }
        assert(d.last() == digit_char(n % 10));
        assert(digits_value(d) == digits_value(p) * 10 + digit_value(d.last()));
        assert(n == (n / 10) * 10 + n % 10);
    } else {
        let d = decimal(n);
        assert(d.drop_last() =~= Seq::<char>::empty());
        assert(digits_value(d) == digits_value(d.drop_last()) * 10 + digit_value(d.last()));
    }
}

/// The digits of a decimal have no `a`/`b` among them, where neither is a digit.
pub proof fn lemma_digits_no_match(s: Seq<char>, a: char, b: char)
    requires
        all_digits(s),
        !is_digit(a),
        !is_digit(b),
    ensures
        first_match(s, a, b) is None,
        forall|j: int| 0 <= j < s.len() ==> #[trigger] s[j] != a && s[j] != b,
{
    lemma_first_match(s, a, b);
    if first_match(s, a, b) is Some {
        let i = first_match(s, a, b)->0;
        assert(is_digit(s[i]));
    }
    assert forall|j: int| 0 <= j < s.len() implies #[trigger] s[j] != a && s[j] != b by {
        assert(is_digit(s[j]));
    }
}

/// A decimal reads back as the number it was written from.
pub proof fn lemma_parse_decimal(n: nat, max: nat)
    requires
        n <= max,
    ensures
        parse_unsigned(decimal(n), max) == Some(n),
{
    lemma_decimal(n);
    let d = decimal(n);
    assert(is_digit(d[0]));
    assert(strip_plus(d) == d);
}

/// `str::parse` for an unsigned integer type whose largest value is `max`,
/// applied to the characters `a..b` of `chars`.
pub fn parse_unsigned_span(chars: &Vec<char>, a: usize, b: usize, max: u64) -> (r: Option<u64>)
    requires
        a <= b <= chars.len(),
    ensures
        r == match parse_unsigned(chars@.subrange(a as int, b as int), max as nat) {
            Some(v) => Some(v as u64),
            None => None,
        },
{
    let ghost s = chars@.subrange(a as int, b as int);
    let mut i = a;
    if i < b && chars[i] == '+' {
        i = i + 1;
    }
    let start = i;
    let ghost d = chars@.subrange(start as int, b as int);
    assert(strip_plus(s) =~= d);
    if i == b {
        return None;
    }
    let mut v: u64 = 0;
    assert(d.take(0) =~= Seq::<char>::empty());
    while i < b
        invariant
            a <= start <= i <= b <= chars.len(),
            start < b,
            d == chars@.subrange(start as int, b as int),
            strip_plus(chars@.subrange(a as int, b as int)) == d,
            all_digits(d.take(i - start)),
            v as nat == digits_value(d.take(i - start)),
            v <= max,
        decreases b - i,
    {
        let c = chars[i];
        let ghost k = i - start;
        assert(d[k] == c);
        if !('0' <= c && c <= '9') {
            return None;
        }
        let ghost t1 = d.take(k + 1);
        assert(t1.drop_last() =~= d.take(k));
        assert(t1.last() == c);
        assert(all_digits(t1)) by {
            assert forall|j: int| 0 <= j < t1.len() implies is_digit(#[trigger] t1[j]) by {
                if j < k {
                    assert(t1[j] == d.take(k)[j]);
                }
            }
        }
        let dv = (c as u32 - '0' as u32) as u64;
        assert(dv == digit_value(c));
        let next = match v.checked_mul(10) {
            Some(m) => m.checked_add(dv),
            None => None,
        };
        match next {
            Some(nv) if nv <= max => {
                v = nv;
            },
            _ => {
                proof {
                    assert(digits_value(t1) > max);
                    if all_digits(d) {
                        lemma_digits_value_take(d, k + 1);
                    }
                }
                return None;
            },
        }
        i = i + 1;
    }
    assert(d.take(i - start) =~= d);
    Some(v)
}

/// Whether the characters `a..b` of `chars` equal the lower-case ASCII
/// word `w`, ignoring ASCII case.
pub fn span_eq_ignore_case(chars: &Vec<char>, a: usize, b: usize, w: &[char]) -> (r: bool)
    requires
        a <= b <= chars.len(),
        lower_word(w@),
    ensures
        r == eq_ignore_case(chars@.subrange(a as int, b as int), w@),
{
    let ghost s = chars@.subrange(a as int, b as int);
    if b - a != w.len() {
        return false;
    }
    let mut i: usize = 0;
    while i < w.len()
        invariant
            b - a == w.len(),
            a <= b <= chars.len(),
            s == chars@.subrange(a as int, b as int),
            lower_word(w@),
            0 <= i <= w.len(),
            forall|j: int| 0 <= j < i ==> (#[trigger] s[j] == w@[j] || s[j] as int + 32 == w@[j] as int),
        decreases w.len() - i,
    {
        let c = chars[a + i];
        let t = w[i];
        assert(s[i as int] == c);
        assert('a' <= t && t <= 'z');
        let same = c == t || ('A' <= c && c <= 'Z' && (c as u32) + 32 == t as u32);
        if !same {
            proof {
                if s[i as int] as int + 32 == w@[i as int] as int {
                    assert('A' <= c && c <= 'Z');
                }
            }
            return false;
        }
        i = i + 1;
    }
    true
}

/// Whether the characters `a..b` of `chars` hold `c`, and the first index
/// (counted from `a`) at which they do.
pub fn span_find(chars: &Vec<char>, a: usize, b: usize, c: char, c2: char) -> (r: Option<usize>)
    requires
        a <= b <= chars.len(),
    ensures
        r == match first_match(chars@.subrange(a as int, b as int), c, c2) {
            Some(i) => Some(i as usize),
            None => None,
        },
{
    let ghost s = chars@.subrange(a as int, b as int);
    let mut i = a;
    assert(s.take(0) =~= Seq::<char>::empty());
    while i < b
        invariant
            a <= i <= b <= chars.len(),
            s == chars@.subrange(a as int, b as int),
            first_match(s.take(i - a), c, c2) is None,
        decreases b - i,
    {
        let ghost t1 = s.take(i - a + 1);
        assert(t1.drop_last() =~= s.take(i - a));
        assert(t1.last() == chars@[i as int]);
        if chars[i] == c || chars[i] == c2 {
            proof {
                lemma_first_match_prefix(t1, s.skip(i - a + 1), c, c2);
                assert(t1 + s.skip(i - a + 1) =~= s);
            }
            return Some(i - a);
        }
        i = i + 1;
    }
    assert(s.take(b - a) =~= s);
    None
}

/// Whether the characters `a..b` of `chars` are one or more ASCII digits.
pub fn span_all_digits(chars: &Vec<char>, a: usize, b: usize) -> (r: bool)
    requires
        a <= b <= chars.len(),
    ensures
        r == (b > a && all_digits(chars@.subrange(a as int, b as int))),
{
    let ghost s = chars@.subrange(a as int, b as int);
    if a == b {
        return false;
    }
    let mut i = a;
    while i < b
        invariant
            a <= i <= b <= chars.len(),
            s == chars@.subrange(a as int, b as int),
            forall|j: int| 0 <= j < i - a ==> is_digit(#[trigger] s[j]),
        decreases b - i,
    {
        let c = chars[i];
        assert(s[i - a] == c);
        if !('0' <= c && c <= '9') {
            return false;
        }
        i = i + 1;
    }
    true
}

/// Whether the characters `a..b` of `chars` form a mantissa: digits with at
/// most one `.`, and at least one digit.
pub fn span_is_mantissa(chars: &Vec<char>, a: usize, b: usize) -> (r: bool)
    requires
        a <= b <= chars.len(),
    ensures
        r == is_mantissa(chars@.subrange(a as int, b as int)),
{
    let ghost s = chars@.subrange(a as int, b as int);
    let mut i = a;
    let mut ok = true;
    let mut dots: usize = 0;
    let mut digits: usize = 0;
    assert(s.take(0) =~= Seq::<char>::empty());
    while i < b
        invariant
            a <= i <= b <= chars.len(),
            s == chars@.subrange(a as int, b as int),
            ok == forall|j: int| 0 <= j < i - a ==> (is_digit(#[trigger] s[j]) || s[j] == '.'),
            dots == count_char(s.take(i - a), '.'),
            digits == count_digits(s.take(i - a)),
            dots <= i - a,
            digits <= i - a,
        decreases b - i,
    {
        let c = chars[i];
        let ghost t1 = s.take(i - a + 1);
        assert(t1.drop_last() =~= s.take(i - a));
        assert(t1.last() == c);
        assert(s[i - a] == c);
        if c == '.' {
            dots = dots + 1;
        } else if '0' <= c && c <= '9' {
            digits = digits + 1;
        } else {
            ok = false;
        }
        i = i + 1;
    }
    assert(s.take(b - a) =~= s);
    ok && dots <= 1 && digits >= 1
}

/// Whether the characters `a..b` of `chars` form an exponent: an optional
/// sign, then one or more digits.
pub fn span_is_exponent(chars: &Vec<char>, a: usize, b: usize) -> (r: bool)
    requires
        a <= b <= chars.len(),
    ensures
        r == is_exponent(chars@.subrange(a as int, b as int)),
{
    let ghost s = chars@.subrange(a as int, b as int);
    let start = if a < b && (chars[a] == '+' || chars[a] == '-') {
        a + 1
    } else {
        a
    };
    assert(strip_sign(s) =~= chars@.subrange(start as int, b as int));
    span_all_digits(chars, start, b)
}

/// Whether `str::parse::<f64>()` accepts the characters `a..b` of `chars`.
pub fn span_is_float(chars: &Vec<char>, a: usize, b: usize) -> (r: bool)
    requires
        a <= b <= chars.len(),
    ensures
        r == is_float_text(chars@.subrange(a as int, b as int)),
{
    let ghost s = chars@.subrange(a as int, b as int);
    let start = if a < b && (chars[a] == '+' || chars[a] == '-') {
        a + 1
    } else {
        a
    };
    let ghost m = chars@.subrange(start as int, b as int);
    assert(strip_sign(s) =~= m);
    let inf: [char; 3] = ['i', 'n', 'f'];
    let infinity: [char; 8] = ['i', 'n', 'f', 'i', 'n', 'i', 't', 'y'];
    let nan: [char; 3] = ['n', 'a', 'n'];
    assert(inf@ =~= seq!['i', 'n', 'f']);
    assert(infinity@ =~= seq!['i', 'n', 'f', 'i', 'n', 'i', 't', 'y']);
    assert(nan@ =~= seq!['n', 'a', 'n']);
    if span_eq_ignore_case(chars, start, b, &inf) || span_eq_ignore_case(chars, start, b, &infinity)
        || span_eq_ignore_case(chars, start, b, &nan) {
        return true;
    }
    match span_find(chars, start, b, 'e', 'E') {
        None => span_is_mantissa(chars, start, b),
        Some(p) => {
            proof {
                lemma_first_match(m, 'e', 'E');
            }
            assert(m.take(p as int) =~= chars@.subrange(start as int, start + p));
            assert(m.skip(p + 1) =~= chars@.subrange(start + p + 1, b as int));
            span_is_mantissa(chars, start, start + p) && span_is_exponent(chars, start + p + 1, b)
        },
    }
}

/// `itoa::Buffer::format` for a `u64`: it writes the decimal digits of `v`,
/// without sign or leading zeros, as `itoa`'s documentation states.
#[verifier::external_body]
pub(crate) fn decimal_string(v: u64) -> (s: String)
    ensures
        s@ == decimal(v as nat),
{
    let mut buffer = itoa::Buffer::new();
    buffer.format(v).to_owned()
}

} // verus!
