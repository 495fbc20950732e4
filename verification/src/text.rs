//! Text as sequences of characters: the helpers that the parsers and the
//! formatters of this crate share.

use vstd::prelude::*;

verus! {

/// `String::push`: appends one character to the string.
#[verifier::external_body]
pub(crate) fn push_char(s: &mut String, c: char)
    ensures
        final(s)@ == old(s)@.push(c),
{
    s.push(c)
}

/// The characters of a string.
pub fn chars_of(s: &str) -> (chars: Vec<char>)
    ensures
        chars@ == s@,
{
    let mut chars: Vec<char> = Vec::new();
    for c in it: s.chars()
        invariant
            it.seq() == s@,
            chars@ == s@.take(it.index() as int),
    {
        chars.push(c);
        proof {
            assert(chars@ =~= s@.take(it.index() + 1));
        }
    }
    proof {
        assert(s@.take(s@.len() as int) =~= s@);
    }
    chars
}

/// The characters from `from` up to `to` as a string.
pub fn string_of(chars: &Vec<char>, from: usize, to: usize) -> (s: String)
    requires
        from <= to <= chars@.len(),
    ensures
        s@ == chars@.subrange(from as int, to as int),
{
    let mut s = String::new();
    let mut i: usize = from;
    while i < to
        invariant
            from <= i <= to,
            to <= chars@.len(),
            s@ == chars@.subrange(from as int, i as int),
        decreases to - i,
    {
        push_char(&mut s, chars[i]);
        proof {
            assert(s@ =~= chars@.subrange(from as int, i + 1));
        }
        i = i + 1;
    }
    s
}

/// Whether `pattern` stands in `text` at position `at`.
pub open spec fn stands_at(text: Seq<char>, pattern: Seq<char>, at: int) -> bool {
    &&& 0 <= at
    &&& at + pattern.len() <= text.len()
    &&& text.subrange(at, at + pattern.len()) == pattern
}

/// Whether `pattern` stands in `text` at position `at`.
pub fn matches_at(text: &Vec<char>, pattern: &Vec<char>, at: usize) -> (b: bool)
    ensures
        b == stands_at(text@, pattern@, at as int),
{
    if pattern.len() > text.len() || at > text.len() - pattern.len() {
        return false;
    }
    let mut j: usize = 0;
    while j < pattern.len()
        invariant
            j <= pattern@.len(),
            at + pattern@.len() <= text@.len(),
            text@.len() <= usize::MAX,
            forall|k: int| 0 <= k < j ==> text@[at + k] == pattern@[k],
        decreases pattern@.len() - j,
    {
        if text[at + j] != pattern[j] {
            proof {
                assert(text@.subrange(at as int, at + pattern@.len())[j as int] == text@[at + j]);
            }
            return false;
        }
        j = j + 1;
    }
    proof {
        assert(text@.subrange(at as int, at + pattern@.len()) =~= pattern@);
    }
    true
}

/// The last position at which `pattern` stands in `text`.
pub fn last_occurrence(text: &Vec<char>, pattern: &Vec<char>) -> (found: Option<usize>)
    ensures
        found is Some <==> exists|at: int| stands_at(text@, pattern@, at),
        found matches Some(at) ==> stands_at(text@, pattern@, at as int) && forall|later: int|
            later > at ==> !stands_at(text@, pattern@, later),
{
    if pattern.len() > text.len() {
        return None;
    }
    let mut at: usize = text.len() - pattern.len();
    loop
        invariant
            at + pattern@.len() <= text@.len(),
            forall|later: int| later > at ==> !stands_at(text@, pattern@, later),
        decreases at,
    {
        if matches_at(text, pattern, at) {
            return Some(at);
        }
        if at == 0 {
            return None;
        }
        at = at - 1;
    }
}

/// The digit that stands for `d`.
pub open spec fn digit_char(d: nat) -> char {
    if d == 0 {
        '0'
    } else if d == 1 {
        '1'
    } else if d == 2 {
        '2'
    } else if d == 3 {
        '3'
    } else if d == 4 {
        '4'
    } else if d == 5 {
        '5'
    } else if d == 6 {
        '6'
    } else if d == 7 {
        '7'
    } else if d == 8 {
        '8'
    } else {
        '9'
    }
}

/// The value of a digit; none for any other character.
pub open spec fn digit_value(c: char) -> Option<nat> {
    if c == '0' {
        Some(0)
    } else if c == '1' {
        Some(1)
    } else if c == '2' {
        Some(2)
    } else if c == '3' {
        Some(3)
    } else if c == '4' {
        Some(4)
    } else if c == '5' {
        Some(5)
    } else if c == '6' {
        Some(6)
    } else if c == '7' {
        Some(7)
    } else if c == '8' {
        Some(8)
    } else if c == '9' {
        Some(9)
    } else {
        None
    }
}

/// The value of a digit.
pub fn value_of_digit(c: char) -> (d: Option<u8>)
    ensures
        d is Some == digit_value(c) is Some,
        d matches Some(v) ==> digit_value(c) == Some(v as nat) && v < 10,
{
    match c {
        '0' => Some(0),
        '1' => Some(1),
        '2' => Some(2),
        '3' => Some(3),
        '4' => Some(4),
        '5' => Some(5),
        '6' => Some(6),
        '7' => Some(7),
        '8' => Some(8),
        '9' => Some(9),
        _ => None,
    }
}

/// The digit for a value below ten.
pub fn digit_of(d: u8) -> (c: char)
    requires
        d < 10,
    ensures
        c == digit_char(d as nat),
        digit_value(c) == Some(d as nat),
{
    if d == 0 {
        '0'
    } else if d == 1 {
        '1'
    } else if d == 2 {
        '2'
    } else if d == 3 {
        '3'
    } else if d == 4 {
        '4'
    } else if d == 5 {
        '5'
    } else if d == 6 {
        '6'
    } else if d == 7 {
        '7'
    } else if d == 8 {
        '8'
    } else {
        '9'
    }
}

/// The number written in decimal digits, without leading zeros.
pub open spec fn decimal(n: nat) -> Seq<char>
    decreases n,
{
    if n < 10 {
        seq![digit_char(n)]
    } else {
        decimal(n / 10).push(digit_char(n % 10))
    }
}

/// The value of a sequence of decimal digits; none if the sequence is empty
/// or holds anything but digits.
pub open spec fn digits_value(digits: Seq<char>) -> Option<nat>
    decreases digits.len(),
{
    if digits.len() == 0 {
        None
    } else if digits.len() == 1 {
        digit_value(digits[0])
    } else {
        match (digits_value(digits.drop_last()), digit_value(digits.last())) {
            (Some(high), Some(low)) => Some(high * 10 + low),
            _ => None,
        }
    }
}

/// The number that a text stands for, as `str::parse::<u64>` reads it:
/// decimal digits, after a plus sign or without sign, with a value that a
/// `u64` holds.
pub open spec fn parsed_u64(text: Seq<char>) -> Option<u64> {
    let digits = if text.len() > 0 && text[0] == '+' {
        text.drop_first()
    } else {
        text
    };
    match digits_value(digits) {
        Some(value) => if value <= u64::MAX {
            Some(value as u64)
        } else {
            None
        },
        None => None,
    }
}

/// The value as a `u64`, if it is in the range of one.
pub open spec fn in_u64(value: Option<nat>) -> Option<u64> {
    match value {
        Some(value) => if value <= u64::MAX {
            Some(value as u64)
        } else {
            None
        },
        None => None,
    }
}

/// Reading the digits of a number gives the number back.
pub proof fn lemma_decimal_round_trip(n: nat)
    ensures
        digits_value(decimal(n)) == Some(n),
        decimal(n).len() > 0,
    decreases n,
{
    if n < 10 {
        assert(decimal(n).len() == 1);
        assert(decimal(n)[0] == digit_char(n));
    } else {
        lemma_decimal_round_trip(n / 10);
        let d = decimal(n);
        assert(d.drop_last() =~= decimal(n / 10));
        assert(d.last() == digit_char(n % 10));
        assert(d.len() > 1);
    }
}

/// Writes a number in decimal digits.
#[verifier::rlimit(50)]
pub fn u64_to_decimal(n: u64) -> (s: String)
    ensures
        s@ == decimal(n as nat),
{
    let mut digits: Vec<char> = Vec::new();
    let mut rest: u64 = n;
    // The digits from the last to the first.
    proof {
        assert(decimal(n as nat) =~= decimal(rest as nat) + digits@.reverse());
    }
    while rest >= 10
        invariant
            decimal(n as nat) == decimal(rest as nat) + digits@.reverse(),
        decreases rest,
    {
        let ghost before = digits@;
        digits.push(digit_of((rest % 10) as u8));
        proof {
            let d = digit_char((rest % 10) as nat);
            assert(digits@.reverse() =~= seq![d] + before.reverse());
            assert(decimal(rest as nat) =~= decimal((rest / 10) as nat) + seq![d]);
            assert(decimal(n as nat) =~= decimal((rest / 10) as nat) + digits@.reverse());
        }
        rest = rest / 10;
    }
    let mut s = String::new();
    push_char(&mut s, digit_of(rest as u8));
    proof {
        assert(s@ =~= decimal(rest as nat));
    }
    let mut i: usize = digits.len();
    while i > 0
        invariant
            i <= digits@.len(),
            rest < 10,
            s@ == decimal(rest as nat) + digits@.reverse().take(digits@.len() - i),
        decreases i,
    {
        i = i - 1;
        push_char(&mut s, digits[i]);
        proof {
            let r = digits@.reverse();
            let k = digits@.len() - i - 1;
            assert(r[k] == digits@[i as int]);
            assert(r.take(k + 1) =~= r.take(k).push(r[k]));
            assert(s@ =~= decimal(rest as nat) + r.take(k + 1));
        }
    }
    proof {
        assert(digits@.reverse().take(digits@.len() as int) =~= digits@.reverse());
    }
    s
}

/// Reads the number that the characters from `from` up to `to` stand for.
#[verifier::rlimit(50)]
pub fn parse_u64(chars: &Vec<char>, from: usize, to: usize) -> (value: Option<u64>)
    requires
        from <= to <= chars@.len(),
    ensures
        value == parsed_u64(chars@.subrange(from as int, to as int)),
{
    let ghost text = chars@.subrange(from as int, to as int);
    let start: usize = if from < to && chars[from] == '+' {
        from + 1
    } else {
        from
    };
    let ghost digits = chars@.subrange(start as int, to as int);
    proof {
        if from < to {
            assert(text[0] == chars@[from as int]);
        }
        if start > from {
            assert(text.drop_first() =~= digits);
        } else {
            assert(text =~= digits);
        }
    }
    if start == to {
        return None;
    }
    proof {
        assert(parsed_u64(text) == in_u64(digits_value(digits)));
    }
    let mut value: u64 = 0;
    let mut i: usize = start;
    while i < to
        invariant
            start <= i <= to,
            start < to,
            to <= chars@.len(),
            digits == chars@.subrange(start as int, to as int),
            parsed_u64(chars@.subrange(from as int, to as int)) == in_u64(digits_value(digits)),
            i > start ==> digits_value(digits.take(i - start)) == Some(value as nat),
            i == start ==> value == 0,
        decreases to - i,
    {
        let ghost prefix = digits.take(i - start);
        let ghost next = digits.take(i - start + 1);
        proof {
            assert(next.drop_last() =~= prefix);
            assert(next.last() == chars@[i as int]);
        }
        match value_of_digit(chars[i]) {
            None => {
                proof {
                    lemma_prefix_decides(digits, i - start + 1);
                }
                return None;
            },
            Some(d) => {
                if value > (u64::MAX - d as u64) / 10 {
                    proof {
                        assert(digits_value(next) matches Some(v) && v > u64::MAX) by {
                            if i > start {
                            } else {
                                assert(next.len() == 1);
                            }
                        }
                        lemma_prefix_bounds(digits, i - start + 1);
                    }
                    return None;
                }
                proof {
                    if i == start {
                        assert(next.len() == 1);
                        assert(next[0] == chars@[i as int]);
                    }
                }
                value = value * 10 + d as u64;
            },
        }
        i = i + 1;
    }
    proof {
        assert(digits.take(to - start) =~= digits);
    }
    Some(value)
}

/// Where a prefix of a sequence is no number, the sequence is none.
pub proof fn lemma_prefix_decides(digits: Seq<char>, n: int)
    requires
        0 < n <= digits.len(),
        digits_value(digits.take(n)) is None,
    ensures
        digits_value(digits) is None,
    decreases digits.len(),
{
    if n < digits.len() {
        assert(digits.drop_last().take(n) =~= digits.take(n));
        lemma_prefix_decides(digits.drop_last(), n);
    } else {
        assert(digits.take(n) =~= digits);
    }
}

/// The value of a sequence of digits is at least that of each prefix.
pub proof fn lemma_prefix_bounds(digits: Seq<char>, n: int)
    requires
        0 < n <= digits.len(),
        digits_value(digits.take(n)) is Some,
    ensures
        digits_value(digits) matches Some(v) ==> v >= digits_value(digits.take(n))->0,
    decreases digits.len(),
{
    if n < digits.len() {
        assert(digits.drop_last().take(n) =~= digits.take(n));
        lemma_prefix_bounds(digits.drop_last(), n);
    } else {
        assert(digits.take(n) =~= digits);
    }
}

/// Whether one of the texts listed is `text`.
pub open spec fn lists(listed: Seq<String>, text: Seq<char>) -> bool {
    exists|k: int| 0 <= k < listed.len() && (#[trigger] listed[k])@ == text
}

/// No text is listed twice.
pub open spec fn all_differ(listed: Seq<String>) -> bool {
    forall|i: int, j: int|
        0 <= i < j < listed.len() ==> (#[trigger] listed[i])@ != (#[trigger] listed[j])@
}

/// Where `text` stands in the list.
pub fn find_text(listed: &Vec<String>, text: &String) -> (found: Option<usize>)
    ensures
        found is Some <==> lists(listed@, text@),
        found matches Some(k) ==> k < listed@.len() && listed@[k as int]@ == text@ && forall|j: int|
            0 <= j < k ==> (#[trigger] listed@[j])@ != text@,
{
    let mut k: usize = 0;
    while k < listed.len()
        invariant
            k <= listed@.len(),
            forall|j: int| 0 <= j < k ==> (#[trigger] listed@[j])@ != text@,
        decreases listed@.len() - k,
    {
        if listed[k] == *text {
            return Some(k);
        }
        k = k + 1;
    }
    None
}

/// Adds `text` to the list unless it is listed. Says whether it was added.
pub fn insert_unique(listed: &mut Vec<String>, text: String) -> (added: bool)
    ensures
        added == !lists(old(listed)@, text@),
        !added ==> final(listed)@ == old(listed)@,
        added ==> final(listed)@ == old(listed)@.push(text),
        all_differ(old(listed)@) ==> all_differ(final(listed)@),
        forall|t: Seq<char>| lists(final(listed)@, t) <==> lists(old(listed)@, t) || t == text@,
{
    match find_text(listed, &text) {
        Some(_) => false,
        None => {
            let ghost before = listed@;
            listed.push(text);
            proof {
                let after = listed@;
                assert forall|t: Seq<char>| lists(after, t) <==> lists(before, t) || t
                    == text@ by {
                    if lists(before, t) {
                        let k = choose|k: int| 0 <= k < before.len() && (#[trigger] before[k])@ == t;
                        assert(after[k] == before[k]);
                    }
                    if t == text@ {
                        assert(after[before.len() as int]@ == t);
                    }
                    if lists(after, t) {
                        let k = choose|k: int| 0 <= k < after.len() && (#[trigger] after[k])@ == t;
                        if k < before.len() {
                            assert(after[k] == before[k]);
                        }
                    }
                }
                if all_differ(before) {
                    assert forall|i: int, j: int| 0 <= i < j < after.len() implies (
                    #[trigger] after[i])@ != (#[trigger] after[j])@ by {
                        assert(after[i] == before[i]);
                        if j < before.len() {
                            assert(after[j] == before[j]);
                        }
                    }
                }
            }
            true
        },
    }
}

} // verus!
