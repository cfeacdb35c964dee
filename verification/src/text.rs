//! Decimal numerals and plain text search over `Seq<char>` models.

use vstd::prelude::*;

verus! {

/// The character that writes the digit `d`.
pub open spec fn digit_char(d: nat) -> char
    recommends
        d < 10,
{
    if d == 0 {
        '0'
    } else if d == 1 {
        '1'
    } else if d == 2 {
        '2'
    } else if d == 3 {
        '3'
    } else if d == 4 {
        '4'
    } else if d == 5 {
        '5'
    } else if d == 6 {
        '6'
    } else if d == 7 {
        '7'
    } else if d == 8 {
        '8'
    } else {
        '9'
    }
}

/// The shortest decimal numeral of `n`: no leading zero except for zero itself.
pub open spec fn decimal(n: nat) -> Seq<char>
    decreases n,
{
    if n < 10 {
        seq![digit_char(n)]
    } else {
        decimal(n / 10).push(digit_char(n % 10))
    }
}

/// The one-character string that writes the digit `d`.
fn digit_str(d: usize) -> (s: &'static str)
    requires
        d < 10,
    ensures
        s@ == seq![digit_char(d as nat)],
{
    proof {
        reveal_strlit("0");
        reveal_strlit("1");
        reveal_strlit("2");
        reveal_strlit("3");
        reveal_strlit("4");
        reveal_strlit("5");
        reveal_strlit("6");
        reveal_strlit("7");
        reveal_strlit("8");
        reveal_strlit("9");
    }
    let s = if d == 0 {
        "0"
    } else if d == 1 {
        "1"
    } else if d == 2 {
        "2"
    } else if d == 3 {
        "3"
    } else if d == 4 {
        "4"
    } else if d == 5 {
        "5"
    } else if d == 6 {
        "6"
    } else if d == 7 {
        "7"
    } else if d == 8 {
        "8"
    } else {
        "9"
    };
    assert(s@ =~= seq![digit_char(d as nat)]);
    s
}

/// Writes `n` in decimal.
pub fn to_decimal(n: usize) -> (s: String)
    ensures
        s@ == decimal(n as nat),
    decreases n,
{
    if n < 10 {
        String::from_str(digit_str(n))
    } else {
        let mut s = to_decimal(n / 10);
        s.append(digit_str(n % 10));
        assert(s@ =~= decimal(n as nat));
        s
    }
}

/// `count` zeros.
pub open spec fn zeros(count: nat) -> Seq<char> {
    Seq::new(count, |i: int| '0')
}

/// The decimal numeral of `n`, filled up with zeros on the left to `width`
/// characters where it is shorter.
pub open spec fn padded(n: nat, width: nat) -> Seq<char> {
    if decimal(n).len() >= width {
        decimal(n)
    } else {
        zeros((width - decimal(n).len()) as nat) + decimal(n)
    }
}

/// Writes `n` in decimal, filled up with zeros on the left to `width`
/// characters.
pub fn to_padded(n: usize, width: usize) -> (s: String)
    ensures
        s@ == padded(n as nat, width as nat),
{
    let digits = to_decimal(n);
    let len = digits.as_str().unicode_len();
    let mut s = String::new();
    let mut k: usize = len;
    while k < width
        invariant
            len <= k,
            k <= width || k == len,
            s@ == zeros((k - len) as nat),
        decreases width - k,
    {
        proof {
            reveal_strlit("0");
        }
        s.append("0");
        k += 1;
        assert(s@ =~= zeros((k - len) as nat));
    }
    s.append(digits.as_str());
    assert(s@ =~= padded(n as nat, width as nat));
    s
}

/// The digit that `c` writes, if it writes one.
pub open spec fn digit_value(c: char) -> Option<nat> {
    if c == '0' {
        Some(0)
    } else if c == '1' {
        Some(1)
    } else if c == '2' {
        Some(2)
    } else if c == '3' {
        Some(3)
    } else if c == '4' {
        Some(4)
    } else if c == '5' {
        Some(5)
    } else if c == '6' {
        Some(6)
    } else if c == '7' {
        Some(7)
    } else if c == '8' {
        Some(8)
    } else if c == '9' {
        Some(9)
    } else {
        None
    }
}

/// `s` is made of decimal digits, at least one.
pub open spec fn is_numeral(s: Seq<char>) -> bool {
    s.len() > 0 && forall|i: int| 0 <= i < s.len() ==> digit_value(#[trigger] s[i]) is Some
}

/// The number that the digits of `s` write; a character that is no digit
/// counts as zero.
pub open spec fn numeral_value(s: Seq<char>) -> nat
    decreases s.len(),
{
    if s.len() == 0 {
        0
    } else {
        numeral_value(s.drop_last()) * 10 + match digit_value(s.last()) {
            Some(d) => d,
            None => 0,
        }
    }
}

/// The number that `s` writes as a `usize`: decimal digits, at least one,
/// after at most one `+`, and a value that fits.
pub open spec fn parse_unsigned(s: Seq<char>) -> Option<nat> {
    let body = if s.len() > 0 && s[0] == '+' {
        s.drop_first()
    } else {
        s
    };
    if is_numeral(body) && numeral_value(body) <= usize::MAX {
        Some(numeral_value(body))
    } else {
        None
    }
}

/// The digit that `c` writes, if it writes one.
fn digit_of(c: char) -> (d: Option<usize>)
    ensures
        match d {
            Some(v) => digit_value(c) == Some(v as nat) && v < 10,
            None => digit_value(c) is None,
        },
{
    match c {
        '0' => Some(0),
        '1' => Some(1),
        '2' => Some(2),
        '3' => Some(3),
        '4' => Some(4),
        '5' => Some(5),
        '6' => Some(6),
        '7' => Some(7),
        '8' => Some(8),
        '9' => Some(9),
        _ => None,
    }
}

/// A numeral is worth at least as much as any of its beginnings.
pub proof fn lemma_numeral_prefix_le(s: Seq<char>, k: int)
    requires
        0 <= k <= s.len(),
    ensures
        numeral_value(s.take(k)) <= numeral_value(s),
    decreases s.len(),
{
    if k < s.len() {
        lemma_numeral_prefix_le(s.drop_last(), k);
        assert(s.drop_last().take(k) =~= s.take(k));
    } else {
        assert(s.take(k) =~= s);
    }
}

/// Reads `s` as a `usize` written in decimal, with at most one `+` in front.
pub fn parse_usize(s: &str) -> (parsed: Option<usize>)
    ensures
        match parsed {
            Some(v) => parse_unsigned(s@) == Some(v as nat),
            None => parse_unsigned(s@) is None,
        },
{
    let chars = chars_of(s);
    let len = chars.len();
    let start: usize = if len > 0 && chars[0] == '+' {
        1
    } else {
        0
    };
    let ghost body = chars@.subrange(start as int, len as int);
    let ghost verdict = if is_numeral(body) && numeral_value(body) <= usize::MAX {
        Some(numeral_value(body))
    } else {
        None
    };
    assert(body =~= if s@.len() > 0 && s@[0] == '+' {
        s@.drop_first()
    } else {
        s@
    });
    assert(parse_unsigned(s@) == verdict);
    if start == len {
        return None;
    }
    let mut value: usize = 0;
    let mut k: usize = start;
    while k < len
        invariant
            start <= k <= len,
            len == chars.len(),
            body == chars@.subrange(start as int, len as int),
            parse_unsigned(s@) == if is_numeral(body) && numeral_value(body) <= usize::MAX {
                Some(numeral_value(body))
            } else {
                None
            },
            forall|j: int| 0 <= j < k - start ==> digit_value(#[trigger] body[j]) is Some,
            value == numeral_value(body.take(k - start)),
        decreases len - k,
    {
        let ghost read = body.take(k - start);
        let ghost longer = body.take(k - start + 1);
        assert(longer.drop_last() =~= read);
        assert(longer.last() == chars[k as int]);
        proof {
            lemma_numeral_prefix_le(body, k - start + 1);
        }
        let digit = match digit_of(chars[k]) {
            Some(digit) => digit,
            None => {
                assert(digit_value(body[k - start]) is None);
                return None;
            },
        };
        assert(numeral_value(longer) == value * 10 + digit);
        let tenfold = match value.checked_mul(10) {
            Some(tenfold) => tenfold,
            None => {
                return None;
            },
        };
        value = match tenfold.checked_add(digit) {
            Some(sum) => sum,
            None => {
                return None;
            },
        };
        k += 1;
    }
    assert(body.take(k - start) =~= body);
    Some(value)
}

/// The decimal numeral of a number is made of digits and writes that number.
pub proof fn lemma_decimal_is_numeral(n: nat)
    ensures
        is_numeral(decimal(n)),
        numeral_value(decimal(n)) == n,
    decreases n,
{
    assert(numeral_value(Seq::<char>::empty()) == 0);
    if n < 10 {
        assert(decimal(n).drop_last() =~= Seq::<char>::empty());
        assert(decimal(n).last() == digit_char(n));
        assert(digit_value(digit_char(n)) == Some(n));
        assert(numeral_value(decimal(n)) == 0 * 10 + n);
    } else {
        lemma_decimal_is_numeral(n / 10);
        assert(decimal(n).drop_last() =~= decimal(n / 10));
        assert(decimal(n).last() == digit_char(n % 10));
        assert(digit_value(digit_char(n % 10)) == Some(n % 10));
        assert(numeral_value(decimal(n)) == (n / 10) * 10 + n % 10);
    }
}

/// Zeros in front of a numeral change neither that it is one nor its value.
pub proof fn lemma_zeros_in_front(count: nat, s: Seq<char>)
    requires
        is_numeral(s),
    ensures
        is_numeral(zeros(count) + s),
        numeral_value(zeros(count) + s) == numeral_value(s),
    decreases s.len(),
{
    let whole = zeros(count) + s;
    assert(whole.last() == s.last());
    assert(numeral_value(Seq::<char>::empty()) == 0);
    if s.len() == 1 {
        assert(s.drop_last() =~= Seq::<char>::empty());
        lemma_zeros_value(count);
        assert(whole.drop_last() =~= zeros(count));
    } else {
        lemma_zeros_in_front(count, s.drop_last());
        assert(whole.drop_last() =~= zeros(count) + s.drop_last());
    }
}

/// Zeros alone write zero.
pub proof fn lemma_zeros_value(count: nat)
    ensures
        numeral_value(zeros(count)) == 0,
    decreases count,
{
    if count > 0 {
        lemma_zeros_value((count - 1) as nat);
        assert(zeros(count).drop_last() =~= zeros((count - 1) as nat));
    }
}

/// What `to_padded` writes, `parse_usize` reads back: a padded numeral
/// parses to the number it was made from, whatever the width.
pub proof fn lemma_padded_parses_back(n: nat, width: nat)
    requires
        n <= usize::MAX,
    ensures
        parse_unsigned(padded(n, width)) == Some(n),
        parse_unsigned(decimal(n)) == Some(n),
{
    lemma_decimal_is_numeral(n);
    let count = (width - decimal(n).len()) as nat;
    lemma_zeros_in_front(count, decimal(n));
    assert(decimal(n)[0] != '+');
    assert(padded(n, width)[0] != '+');
}

/// `pattern` stands in `text` at position `at`.
pub open spec fn occurs_at(text: Seq<char>, pattern: Seq<char>, at: int) -> bool {
    0 <= at && at + pattern.len() <= text.len() && text.subrange(at, at + pattern.len()) == pattern
}

/// `pattern` stands somewhere in `text`.
pub open spec fn occurs(text: Seq<char>, pattern: Seq<char>) -> bool {
    exists|at: int| occurs_at(text, pattern, at)
}

/// Whether `pattern` stands in `text` at position `at`.
fn matches_at(text: &Vec<char>, pattern: &Vec<char>, at: usize) -> (found: bool)
    requires
        at + pattern.len() <= text.len(),
    ensures
        found == occurs_at(text@, pattern@, at as int),
{
    let mut k: usize = 0;
    while k < pattern.len()
        invariant
            k <= pattern.len(),
            at + pattern.len() <= text.len(),
            forall|j: int| 0 <= j < k ==> text@[at + j] == pattern@[j],
        decreases pattern.len() - k,
    {
        if text[at + k] != pattern[k] {
            assert(text@.subrange(at as int, at + pattern.len())[k as int] != pattern@[k as int]);
            return false;
        }
        k += 1;
    }
    assert(text@.subrange(at as int, at + pattern.len()) =~= pattern@);
    true
}

/// Whether `pattern` stands somewhere in `text`.
pub fn contains(text: &str, pattern: &str) -> (found: bool)
    ensures
        found == occurs(text@, pattern@),
{
    let hay = chars_of(text);
    let needle = chars_of(pattern);
    if needle.len() > hay.len() {
        return false;
    }
    let last = hay.len() - needle.len();
    let mut at: usize = 0;
    loop
        invariant
            at <= last,
            last == hay.len() - needle.len(),
            needle.len() <= hay.len(),
            hay@ == text@,
            needle@ == pattern@,
            forall|i: int| 0 <= i < at ==> !occurs_at(hay@, needle@, i),
        decreases last - at,
    {
        if matches_at(&hay, &needle, at) {
            return true;
        }
        if at == last {
            return false;
        }
        at += 1;
    }
}

/// What stands in `s` before the last `mark`; nothing where `s` has no
/// `mark`.
pub open spec fn before_last(s: Seq<char>, mark: char) -> Seq<char>
    decreases s.len(),
{
    if s.len() == 0 {
        s
    } else if s.last() == mark {
        s.drop_last()
    } else {
        before_last(s.drop_last(), mark)
    }
}

/// The part of `s` before the last `mark`; the empty string where `s` has
/// no `mark`.
pub fn cut_at_last(s: &str, mark: char) -> (head: String)
    ensures
        head@ == before_last(s@, mark),
{
    let chars = chars_of(s);
    let mut end: usize = chars.len();
    assert(s@.take(end as int) =~= s@);
    while end > 0 && chars[end - 1] != mark
        invariant
            end <= chars.len(),
            chars@ == s@,
            before_last(s@, mark) == before_last(s@.take(end as int), mark),
        decreases end,
    {
        assert(s@.take(end as int).drop_last() =~= s@.take(end - 1));
        end -= 1;
    }
    if end == 0 {
        assert(s@.take(0) =~= Seq::<char>::empty());
        String::new()
    } else {
        assert(s@.take(end as int).drop_last() =~= s@.subrange(0, end - 1));
        String::from_str(s.substring_char(0, end - 1))
    }
}

/// The characters of `s`, one by one.
pub fn chars_of(s: &str) -> (chars: Vec<char>)
    ensures
        chars@ == s@,
{
    let mut chars: Vec<char> = Vec::new();
    for c in rest: s.chars()
        invariant
            rest.seq() == s@,
            chars@ == rest.seq().take(rest.index()),
    {
        assert(rest.seq().take(rest.index() + 1) =~= rest.seq().take(rest.index()).push(c));
        chars.push(c);
    }
    assert(chars@ =~= s@);
    chars
}

} // verus!
