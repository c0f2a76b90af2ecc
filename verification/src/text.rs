//! Text primitives over sequences of characters.

use vstd::prelude::*;

verus! {

/// The characters of `text`, one by one.
pub fn chars_of(text: &str) -> (chars: Vec<char>)
    ensures
        chars@ == text@,
{
    let mut chars: Vec<char> = Vec::new();
    for c in it: text.chars()
        invariant
            it.seq() == text@,
            chars@ == it.seq().take(it.index() as int),
    {
        chars.push(c);
        assert(chars@ =~= it.seq().take(it.index() + 1));
    }
    assert(text@.take(text@.len() as int) =~= text@);
    chars
}

/// The pieces of `s` between occurrences of `d`: an empty text is one empty
/// piece, a delimiter opens a new piece, any other character extends the
/// last piece.
pub open spec fn split_seq(s: Seq<char>, d: char) -> Seq<Seq<char>>
    decreases s.len(),
{
    if s.len() == 0 {
        seq![Seq::<char>::empty()]
    } else if s.last() == d {
        split_seq(s.drop_last(), d).push(Seq::<char>::empty())
    } else {
        let p = split_seq(s.drop_last(), d);
        p.drop_last().push(p.last().push(s.last()))
    }
}

/// Splits `text` at every occurrence of `delimiter`.
pub fn split(text: &str, delimiter: char) -> (pieces: Vec<String>)
    ensures
        pieces.deep_view() == split_seq(text@, delimiter),
{
    let chars = chars_of(text);
    let n: usize = chars.len();
    let mut pieces: Vec<String> = Vec::new();
    let mut start: usize = 0;
    let mut i: usize = 0;
    assert(text@.take(0) =~= Seq::<char>::empty());
    assert(pieces.deep_view().push(text@.subrange(0, 0)) =~= split_seq(text@.take(0), delimiter));
    while i < n
        invariant
            start <= i <= n,
            n == text@.len(),
            chars@ == text@,
            pieces.deep_view().push(text@.subrange(start as int, i as int)) == split_seq(
                text@.take(i as int),
                delimiter,
            ),
        decreases n - i,
    {
        let c = chars[i];
        let ghost before = pieces.deep_view();
        let ghost segment = text@.subrange(start as int, i as int);
        proof {
            let t = text@.take(i as int + 1);
            assert(t.drop_last() =~= text@.take(i as int));
            assert(t.last() == text@[i as int]);
        }
        if c == delimiter {
            let piece = text.substring_char(start, i).to_owned();
            pieces.push(piece);
            start = i + 1;
            proof {
                assert(pieces.deep_view() =~= before.push(segment));
                assert(text@.subrange(start as int, i as int + 1) =~= Seq::<char>::empty());
            }
        } else {
            proof {
                assert(text@.subrange(start as int, i as int + 1) =~= segment.push(c));
                assert(before.push(segment).drop_last() =~= before);
            }
        }
        i += 1;
    }
    proof {
        assert(text@.take(n as int) =~= text@);
    }
    pieces.push(text.substring_char(start, n).to_owned());
    proof {
        assert(pieces.deep_view() =~= split_seq(text@, delimiter));
    }
    pieces
}

/// Tells whether `text` begins with `prefix`.
pub fn starts_with(text: &str, prefix: &str) -> (b: bool)
    ensures
        b == prefix@.is_prefix_of(text@),
{
    let chars = chars_of(text);
    let wanted = chars_of(prefix);
    let n: usize = chars.len();
    let m: usize = wanted.len();
    if m > n {
        return false;
    }
    let mut i: usize = 0;
    while i < m
        invariant
            i <= m <= n,
            n == text@.len(),
            m == prefix@.len(),
            chars@ == text@,
            wanted@ == prefix@,
            forall|j: int| 0 <= j < i ==> text@[j] == prefix@[j],
        decreases m - i,
    {
        if chars[i] != wanted[i] {
            proof {
                assert(text@.subrange(0, m as int)[i as int] == text@[i as int]);
            }
            return false;
        }
        i += 1;
    }
    assert(prefix@ =~= text@.subrange(0, m as int));
    true
}

/// Tells whether `text` ends with `suffix`.
pub fn ends_with(text: &str, suffix: &str) -> (b: bool)
    ensures
        b == suffix@.is_suffix_of(text@),
{
    let chars = chars_of(text);
    let wanted = chars_of(suffix);
    let n: usize = chars.len();
    let m: usize = wanted.len();
    if m > n {
        return false;
    }
    let shift: usize = n - m;
    let mut i: usize = 0;
    while i < m
        invariant
            i <= m <= n,
            shift == n - m,
            n == text@.len(),
            m == suffix@.len(),
            chars@ == text@,
            wanted@ == suffix@,
            forall|j: int| 0 <= j < i ==> text@[shift + j] == suffix@[j],
        decreases m - i,
    {
        if chars[shift + i] != wanted[i] {
            proof {
                assert(text@.subrange(shift as int, n as int)[i as int] == text@[shift + i]);
            }
            return false;
        }
        i += 1;
    }
    assert(suffix@ =~= text@.subrange(shift as int, n as int));
    true
}

/// The position of the last `c` in `s`, if `s` holds one.
pub open spec fn is_last_of(s: Seq<char>, c: char, found: Option<usize>) -> bool {
    match found {
        Some(i) => {
            &&& i < s.len()
            &&& s[i as int] == c
            &&& forall|j: int| i < j < s.len() ==> s[j] != c
        },
        None => !s.contains(c),
    }
}

/// Finds the last occurrence of `c` in `text`, counted in characters.
pub fn rfind(text: &str, c: char) -> (found: Option<usize>)
    ensures
        is_last_of(text@, c, found),
{
    let chars = chars_of(text);
    let n: usize = chars.len();
    let mut i: usize = n;
    while i > 0
        invariant
            i <= n,
            n == text@.len(),
            chars@ == text@,
            forall|j: int| i <= j < n ==> text@[j] != c,
        decreases i,
    {
        i -= 1;
        if chars[i] == c {
            return Some(i);
        }
    }
    None
}

/// Whether `c` is white space: one of the characters to which Unicode gives
/// the property `White_Space`.
pub open spec fn is_whitespace(c: char) -> bool {
    let code = c as u32;
    ||| 0x09 <= code <= 0x0D
    ||| code == 0x20
    ||| code == 0x85
    ||| code == 0xA0
    ||| code == 0x1680
    ||| 0x2000 <= code <= 0x200A
    ||| code == 0x2028
    ||| code == 0x2029
    ||| code == 0x202F
    ||| code == 0x205F
    ||| code == 0x3000
}

/// Tells whether `c` is white space.
pub fn char_is_whitespace(c: char) -> (b: bool)
    ensures
        b == is_whitespace(c),
{
    let code: u32 = c as u32;
    (0x09 <= code && code <= 0x0D) || code == 0x20 || code == 0x85 || code == 0xA0 || code
        == 0x1680 || (0x2000 <= code && code <= 0x200A) || code == 0x2028 || code == 0x2029
        || code == 0x202F || code == 0x205F || code == 0x3000
}

/// `s` without the white space it begins with.
pub open spec fn trim_start_seq(s: Seq<char>) -> Seq<char>
    decreases s.len(),
{
    if s.len() > 0 && is_whitespace(s[0]) {
        trim_start_seq(s.drop_first())
    } else {
        s
    }
}

/// `s` without the white space it ends with.
pub open spec fn trim_end_seq(s: Seq<char>) -> Seq<char>
    decreases s.len(),
{
    if s.len() > 0 && is_whitespace(s.last()) {
        trim_end_seq(s.drop_last())
    } else {
        s
    }
}

/// `s` without the white space at either end.
pub open spec fn trim_seq(s: Seq<char>) -> Seq<char> {
    trim_end_seq(trim_start_seq(s))
}

/// Removes the white space at both ends of `text`.
pub fn trim(text: &str) -> (trimmed: &str)
    ensures
        trimmed@ == trim_seq(text@),
{
    let chars = chars_of(text);
    let n: usize = chars.len();
    let mut from: usize = 0;
    assert(text@.skip(0) =~= text@);
    while from < n && char_is_whitespace(chars[from])
        invariant
            from <= n,
            n == text@.len(),
            chars@ == text@,
            trim_start_seq(text@) == trim_start_seq(text@.skip(from as int)),
        decreases n - from,
    {
        proof {
            assert(text@.skip(from as int).drop_first() =~= text@.skip(from as int + 1));
        }
        from += 1;
    }
    let mut to: usize = n;
    assert(text@.subrange(from as int, n as int) =~= text@.skip(from as int));
    while to > from && char_is_whitespace(chars[to - 1])
        invariant
            from <= to <= n,
            n == text@.len(),
            chars@ == text@,
            trim_end_seq(text@.skip(from as int)) == trim_end_seq(
                text@.subrange(from as int, to as int),
            ),
        decreases to,
    {
        proof {
            assert(text@.subrange(from as int, to as int).drop_last() =~= text@.subrange(
                from as int,
                to as int - 1,
            ));
        }
        to -= 1;
    }
    text.substring_char(from, to)
}

/// What `str::to_lowercase` makes of `s`: the text in lower case as Unicode
/// defines it. This is not done character by character: one character may
/// become several, and some become another at the end of a word.
pub uninterp spec fn lowercase(s: Seq<char>) -> Seq<char>;

/// Lowercases `text` with `str::to_lowercase`. The result is a function of
/// the text alone and is named `lowercase`.
#[verifier::external_body]
pub(crate) fn to_lowercase(text: &str) -> (lower: String)
    ensures
        lower@ == lowercase(text@),
{
    text.to_lowercase()
}

/// Whether `c` is one of the ten decimal digits.
pub open spec fn is_digit(c: char) -> bool {
    '0' <= c <= '9'
}

/// Whether `s` holds decimal digits only.
pub open spec fn all_digits(s: Seq<char>) -> bool {
    forall|i: int| 0 <= i < s.len() ==> is_digit(#[trigger] s[i])
}

/// The number that the decimal digits `s` write.
pub open spec fn decimal_value(s: Seq<char>) -> int
    decreases s.len(),
{
    if s.len() == 0 {
        0
    } else {
        10 * decimal_value(s.drop_last()) + (s.last() as int - '0' as int)
    }
}

/// The number that `s` writes in decimal: an optional sign, then at least one
/// digit and nothing else.
pub open spec fn parse_decimal(s: Seq<char>) -> Option<int> {
    let signed = s.len() > 0 && (s[0] == '+' || s[0] == '-');
    let digits = if signed {
        s.skip(1)
    } else {
        s
    };
    if digits.len() == 0 || !all_digits(digits) {
        None
    } else if signed && s[0] == '-' {
        Some(-decimal_value(digits))
    } else {
        Some(decimal_value(digits))
    }
}

/// The digits written so far never write more than the whole does.
pub proof fn lemma_decimal_value_grows(s: Seq<char>, k: int)
    requires
        all_digits(s),
        0 <= k <= s.len(),
    ensures
        0 <= decimal_value(s.take(k)) <= decimal_value(s),
    decreases s.len() - k,
{
    if k == s.len() {
        assert(s.take(k) =~= s);
        lemma_decimal_value_nonnegative(s);
    } else {
        lemma_decimal_value_grows(s, k + 1);
        assert(s.take(k + 1).drop_last() =~= s.take(k));
        assert(is_digit(s[k]));
        assert(s.take(k + 1).last() == s[k]);
        lemma_decimal_value_nonnegative(s.take(k));
    }
}

/// Digits write no negative number.
pub proof fn lemma_decimal_value_nonnegative(s: Seq<char>)
    requires
        all_digits(s),
    ensures
        0 <= decimal_value(s),
    decreases s.len(),
{
    if s.len() > 0 {
        assert(is_digit(s[s.len() - 1]));
        lemma_decimal_value_nonnegative(s.drop_last());
    }
}

fn digit_of(c: char) -> (digit: Option<u64>)
    ensures
        match digit {
            Some(d) => is_digit(c) && d == c as int - '0' as int,
            None => !is_digit(c),
        },
{
    if c == '0' {
        Some(0)
    } else if c == '1' {
        Some(1)
    } else if c == '2' {
        Some(2)
    } else if c == '3' {
        Some(3)
    } else if c == '4' {
        Some(4)
    } else if c == '5' {
        Some(5)
    } else if c == '6' {
        Some(6)
    } else if c == '7' {
        Some(7)
    } else if c == '8' {
        Some(8)
    } else if c == '9' {
        Some(9)
    } else {
        None
    }
}

/// Reads `text` as a decimal number that fits `i64`.
#[verifier::loop_isolation(false)]
pub fn parse_i64(text: &str) -> (parsed: Option<i64>)
    ensures
        parsed == match parse_decimal(text@) {
            Some(v) => if i64::MIN <= v <= i64::MAX {
                Some(v as i64)
            } else {
                None
            },
            None => None::<i64>,
        },
{
    let chars = chars_of(text);
    let n: usize = chars.len();
    if n == 0 {
        return None;
    }
    let first = chars[0];
    let signed = first == '+' || first == '-';
    let negative = first == '-';
    let start: usize = if signed {
        1
    } else {
        0
    };
    let ghost digits = text@.skip(start as int);
    proof {
        assert(text@.skip(0) =~= text@);
        assert(first == text@[0]);
    }
    if start == n {
        return None;
    }
    let limit: u64 = 0x8000_0000_0000_0000;
    let mut magnitude: u64 = 0;
    let mut i: usize = start;
    assert(digits.take(0) =~= Seq::<char>::empty());
    while i < n
        invariant
            start <= i <= n,
            n == text@.len(),
            digits == text@.skip(start as int),
            all_digits(digits.take(i - start)),
            magnitude == decimal_value(digits.take(i - start)),
            magnitude <= limit,
            limit == 0x8000_0000_0000_0000,
        decreases n - i,
    {
        let c = chars[i];
        let ghost seen = digits.take(i - start + 1);
        proof {
            assert(digits[i - start] == c);
            assert(seen.drop_last() =~= digits.take(i - start));
            assert(seen.last() == c);
        }
        let digit: u64 = match digit_of(c) {
            Some(digit) => digit,
            None => {
                proof {
                    assert(!is_digit(digits[i - start]));
                    assert(!all_digits(digits));
                }
                return None;
            },
        };
        proof {
            assert forall|j: int| 0 <= j < seen.len() implies is_digit(#[trigger] seen[j]) by {
                if j < i - start {
                    assert(digits.take(i - start)[j] == seen[j]);
                }
            }
            assert(decimal_value(seen) == 10 * magnitude + digit);
        }
        if magnitude > (limit - digit) / 10 {
            proof {
                assert(10 * magnitude + digit > limit);
                if all_digits(digits) {
                    // The digits that follow can only make the number larger.
                    lemma_decimal_value_grows(digits, i - start + 1);
                }
            }
            return None;
        }
        magnitude = magnitude * 10 + digit;
        i += 1;
    }
    proof {
        assert(digits.take(n - start) =~= digits);
    }
    if negative {
        if magnitude == limit {
            Some(i64::MIN)
        } else {
            Some(-(magnitude as i64))
        }
    } else if magnitude == limit {
        None
    } else {
        Some(magnitude as i64)
    }
}

/// The decimal digit for `d`.
pub open spec fn digit_char(d: int) -> char {
    if d == 0 {
        '0'
    } else if d == 1 {
        '1'
    } else if d == 2 {
        '2'
    } else if d == 3 {
        '3'
    } else if d == 4 {
        '4'
    } else if d == 5 {
        '5'
    } else if d == 6 {
        '6'
    } else if d == 7 {
        '7'
    } else if d == 8 {
        '8'
    } else {
        '9'
    }
}

/// The decimal digits of `n`, without leading zeros.
pub open spec fn decimal_digits(n: nat) -> Seq<char>
    decreases n,
{
    if n < 10 {
        seq![digit_char(n as int)]
    } else {
        decimal_digits(n / 10).push(digit_char((n % 10) as int))
    }
}

/// `v` written in decimal, with a minus sign when it is negative.
pub open spec fn decimal_seq(v: int) -> Seq<char> {
    if v < 0 {
        seq!['-'] + decimal_digits((-v) as nat)
    } else {
        decimal_digits(v as nat)
    }
}

fn digit_str(d: u64) -> (s: &'static str)
    requires
        d < 10,
    ensures
        s@ == seq![digit_char(d as int)],
{
    proof {
        reveal_strlit("0");
        reveal_strlit("1");
        reveal_strlit("2");
        reveal_strlit("3");
        reveal_strlit("4");
        reveal_strlit("5");
        reveal_strlit("6");
        reveal_strlit("7");
        reveal_strlit("8");
        reveal_strlit("9");
    }
    let s = if d == 0 {
        "0"
    } else if d == 1 {
        "1"
    } else if d == 2 {
        "2"
    } else if d == 3 {
        "3"
    } else if d == 4 {
        "4"
    } else if d == 5 {
        "5"
    } else if d == 6 {
        "6"
    } else if d == 7 {
        "7"
    } else if d == 8 {
        "8"
    } else {
        "9"
    };
    assert(s@ =~= seq![digit_char(d as int)]);
    s
}

fn push_decimal(out: &mut String, n: u64)
    ensures
        final(out)@ == old(out)@ + decimal_digits(n as nat),
    decreases n,
{
    if n >= 10 {
        push_decimal(out, n / 10);
    }
    out.append(digit_str(n % 10));
    proof {
        if n < 10 {
            assert(final(out)@ =~= old(out)@ + decimal_digits(n as nat));
        } else {
            assert(out@ =~= old(out)@ + decimal_digits(n as nat));
        }
    }
}

/// Writes `v` in decimal.
pub fn to_decimal(v: i64) -> (text: String)
    ensures
        text@ == decimal_seq(v as int),
{
    let mut text = String::new();
    if v < 0 {
        proof {
            reveal_strlit("-");
        }
        text.append("-");
        let magnitude: u64 = (-(v as i128)) as u64;
        push_decimal(&mut text, magnitude);
        assert(text@ =~= seq!['-'] + decimal_digits((-v) as nat));
    } else {
        push_decimal(&mut text, v as u64);
        assert(text@ =~= decimal_digits(v as nat));
    }
    text
}

} // verus!
