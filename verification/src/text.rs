//! Text as sequences of characters: decimal numbers and the pieces of a
//! frame.

use vstd::prelude::*;
use vstd::string::*;

verus! {

/// The character of a decimal digit.
pub open spec fn digit_char(d: int) -> char {
    if d == 0 {
        '0'
    } else if d == 1 {
        '1'
    } else if d == 2 {
        '2'
    } else if d == 3 {
        '3'
    } else if d == 4 {
        '4'
    } else if d == 5 {
        '5'
    } else if d == 6 {
        '6'
    } else if d == 7 {
        '7'
    } else if d == 8 {
        '8'
    } else {
        '9'
    }
}

/// The character is a decimal digit.
pub open spec fn is_digit(c: char) -> bool {
    '0' <= c <= '9'
}

/// The value of a decimal digit.
pub open spec fn digit_value(c: char) -> int {
    c as int - '0' as int
}

/// A natural number in decimal, without leading zeros.
pub open spec fn decimal_nat(n: nat) -> Seq<char>
    decreases n,
{
    if n < 10 {
        seq![digit_char(n as int)]
    } else {
        decimal_nat(n / 10).push(digit_char((n % 10) as int))
    }
}

/// An integer in decimal, with a minus sign in front where it is negative.
pub open spec fn decimal_int(i: int) -> Seq<char> {
    if i < 0 {
        seq!['-'] + decimal_nat((-i) as nat)
    } else {
        decimal_nat(i as nat)
    }
}

/// Every character is a decimal digit.
pub open spec fn all_digits(s: Seq<char>) -> bool {
    forall|i: int| 0 <= i < s.len() ==> is_digit(#[trigger] s[i])
}

/// The number that a run of decimal digits denotes.
pub open spec fn digits_value(s: Seq<char>) -> nat
    decreases s.len(),
{
    if s.len() == 0 {
        0
    } else {
        (digits_value(s.drop_last()) * 10 + digit_value(s.last())) as nat
    }
}

/// The number that a text denotes when it is read as an unsigned decimal:
/// an optional plus sign and at least one digit, nothing else, and a value
/// of at most `max`.
pub open spec fn parse_unsigned(s: Seq<char>, max: int) -> Option<int> {
    let body = if s.len() > 0 && s[0] == '+' {
        s.skip(1)
    } else {
        s
    };
    if body.len() > 0 && all_digits(body) && digits_value(body) <= max {
        Some(digits_value(body) as int)
    } else {
        None
    }
}

/// The number that a text denotes when it is read as a signed decimal: an
/// optional sign and at least one digit, nothing else, and a value from
/// `min` to `max`.
pub open spec fn parse_signed(s: Seq<char>, min: int, max: int) -> Option<int> {
    let negative = s.len() > 0 && s[0] == '-';
    let body = if s.len() > 0 && (s[0] == '-' || s[0] == '+') {
        s.skip(1)
    } else {
        s
    };
    let value = if negative {
        -(digits_value(body) as int)
    } else {
        digits_value(body) as int
    };
    if body.len() > 0 && all_digits(body) && min <= value <= max {
        Some(value)
    } else {
        None
    }
}

/// Why a text is no number.
#[derive(Debug, Clone, Copy, PartialEq, Eq, Structural)]
pub enum IntFault {
    /// The text is empty.
    Empty,
    /// Something other than a digit stands where a digit must.
    InvalidDigit,
    /// The number is above the highest allowed.
    PosOverflow,
}

impl IntFault {
    /// The fault in words.
    pub open spec fn spec_text(self) -> Seq<char> {
        match self {
            IntFault::Empty => "cannot parse integer from empty string"@,
            IntFault::InvalidDigit => "invalid digit found in string"@,
            IntFault::PosOverflow => "number too large to fit in target type"@,
        }
    }

    /// The fault in words.
    pub fn text(&self) -> (words: &'static str)
        ensures
            words@ == self.spec_text(),
    {
        match self {
            IntFault::Empty => "cannot parse integer from empty string",
            IntFault::InvalidDigit => "invalid digit found in string",
            IntFault::PosOverflow => "number too large to fit in target type",
        }
    }
}

/// The fault met first when a run of digits is read from the left as a
/// number of at most `max`: at each place, something that is no digit comes
/// before a number that has grown too large.
pub open spec fn digits_fault(s: Seq<char>, max: int) -> Option<IntFault>
    decreases s.len(),
{
    if s.len() == 0 {
        None
    } else {
        match digits_fault(s.drop_last(), max) {
            Some(fault) => Some(fault),
            None => if !is_digit(s.last()) {
                Some(IntFault::InvalidDigit)
            } else if digits_value(s) > max {
                Some(IntFault::PosOverflow)
            } else {
                None
            },
        }
    }
}

/// The fault for which a text is no unsigned decimal of at most `max`.
pub open spec fn unsigned_fault(s: Seq<char>, max: int) -> Option<IntFault> {
    if s.len() == 0 {
        Some(IntFault::Empty)
    } else {
        let body = if s[0] == '+' {
            s.skip(1)
        } else {
            s
        };
        if body.len() == 0 {
            Some(IntFault::InvalidDigit)
        } else {
            digits_fault(body, max)
        }
    }
}

/// A run of digits has no fault exactly when it is all digits and denotes a
/// number that is not too large.
pub proof fn lemma_digits_fault(s: Seq<char>, max: int)
    requires
        0 <= max,
    ensures
        digits_fault(s, max) is None <==> (all_digits(s) && digits_value(s) <= max),
    decreases s.len(),
{
    if s.len() > 0 {
        let head = s.drop_last();
        lemma_digits_fault(head, max);
        if all_digits(s) {
            assert forall|i: int| 0 <= i < head.len() implies is_digit(#[trigger] head[i]) by {
                assert(head[i] == s[i]);
            }
            assert(s.take(s.len() - 1) =~= head);
            lemma_digits_prefix(s, s.len() - 1);
        }
        if digits_fault(s, max) is None {
            assert forall|i: int| 0 <= i < s.len() implies is_digit(#[trigger] s[i]) by {
                if i < head.len() {
                    assert(head[i] == s[i]);
                }
            }
        }
    }
}

/// A text has no fault exactly when it reads as an unsigned number.
pub proof fn lemma_unsigned_fault(s: Seq<char>, max: int)
    requires
        0 <= max,
    ensures
        unsigned_fault(s, max) is None <==> parse_unsigned(s, max) is Some,
{
    if s.len() > 0 {
        let body = if s[0] == '+' {
            s.skip(1)
        } else {
            s
        };
        lemma_digits_fault(body, max);
    }
}

/// The first place at which the character stands, or the length where it
/// does not occur.
pub open spec fn find_char(s: Seq<char>, c: char) -> int
    decreases s.len(),
{
    if s.len() == 0 {
        0
    } else if s[0] == c {
        0
    } else {
        1 + find_char(s.drop_first(), c)
    }
}

/// The text up to the first bar.
pub open spec fn first_segment(s: Seq<char>) -> Seq<char> {
    s.take(find_char(s, '|'))
}

/// The text has a bar, and so a second segment.
pub open spec fn has_second_segment(s: Seq<char>) -> bool {
    find_char(s, '|') < s.len()
}

/// The text between the first bar and the second, or the end.
pub open spec fn second_segment(s: Seq<char>) -> Seq<char> {
    first_segment(s.skip(find_char(s, '|') + 1))
}

/// Where `find_char` points: within the text, at the character where it
/// occurs, and past every place that holds another.
pub proof fn lemma_find_char(s: Seq<char>, c: char)
    ensures
        0 <= find_char(s, c) <= s.len(),
        find_char(s, c) < s.len() ==> s[find_char(s, c)] == c,
        forall|i: int| 0 <= i < find_char(s, c) ==> #[trigger] s[i] != c,
    decreases s.len(),
{
    if s.len() > 0 && s[0] != c {
        let rest = s.drop_first();
        lemma_find_char(rest, c);
        assert forall|i: int| 0 <= i < find_char(s, c) implies #[trigger] s[i] != c by {
            if i > 0 {
                assert(rest[i - 1] == s[i]);
            }
        }
    }
}

/// The first place that holds the character is where `find_char` points.
pub proof fn lemma_find_char_at(s: Seq<char>, c: char, at: int)
    requires
        0 <= at <= s.len(),
        at < s.len() ==> s[at] == c,
        forall|i: int| 0 <= i < at ==> #[trigger] s[i] != c,
    ensures
        find_char(s, c) == at,
{
    lemma_find_char(s, c);
    let found = find_char(s, c);
    if found < at {
        assert(s[found] != c);
    }
    if at < found {
        assert(s[at] != c);
    }
}

/// A run without the character, then the character, then anything: the
/// character is first found right after the run, which cuts the text into
/// the run and what follows the character.
pub proof fn lemma_find_after(head: Seq<char>, c: char, tail: Seq<char>)
    requires
        forall|i: int| 0 <= i < head.len() ==> #[trigger] head[i] != c,
    ensures
        find_char(head + seq![c] + tail, c) == head.len(),
        (head + seq![c] + tail).take(head.len() as int) == head,
        (head + seq![c] + tail).skip(head.len() as int + 1) == tail,
{
    let whole = head + seq![c] + tail;
    assert forall|i: int| 0 <= i < head.len() implies #[trigger] whole[i] != c by {
        assert(whole[i] == head[i]);
    }
    assert(whole[head.len() as int] == c);
    lemma_find_char_at(whole, c, head.len() as int);
    assert(whole.take(head.len() as int) =~= head);
    assert(whole.skip(head.len() as int + 1) =~= tail);
}

/// In a text without the character, the character is found nowhere.
pub proof fn lemma_find_none(s: Seq<char>, c: char)
    requires
        forall|i: int| 0 <= i < s.len() ==> #[trigger] s[i] != c,
    ensures
        find_char(s, c) == s.len(),
        s.take(find_char(s, c)) == s,
{
    lemma_find_char_at(s, c, s.len() as int);
    assert(s.take(s.len() as int) =~= s);
}

/// A decimal number is a run of digits that denotes the number.
pub proof fn lemma_decimal_nat(n: nat)
    ensures
        decimal_nat(n).len() > 0,
        all_digits(decimal_nat(n)),
        digits_value(decimal_nat(n)) == n,
        forall|i: int| 0 <= i < decimal_nat(n).len() ==> #[trigger] decimal_nat(n)[i] != '|',
        forall|i: int| 0 <= i < decimal_nat(n).len() ==> #[trigger] decimal_nat(n)[i] != '.',
        decimal_nat(n)[0] != '+',
        decimal_nat(n)[0] != '-',
        decimal_nat(n)[0] == '0' ==> n == 0,
        n < 10 ==> decimal_nat(n).len() == 1,
        10 <= n < 100 ==> decimal_nat(n).len() == 2,
        100 <= n < 1000 ==> decimal_nat(n).len() == 3,
    decreases n,
{
    let s = decimal_nat(n);
    if n < 10 {
        assert(s.drop_last() =~= Seq::<char>::empty());
        assert(digits_value(s.drop_last()) == 0);
        assert(digit_value(digit_char(n as int)) == n);
    } else {
        lemma_decimal_nat(n / 10);
        let head = decimal_nat(n / 10);
        assert(s.drop_last() =~= head);
        assert(digit_value(digit_char((n % 10) as int)) == n % 10);
        assert forall|i: int| 0 <= i < s.len() implies is_digit(#[trigger] s[i]) by {
            if i < head.len() {
                assert(s[i] == head[i]);
            }
        }
        assert(s[0] == head[0]);
    }
}

/// Reading a written unsigned number gives the number back.
pub proof fn lemma_unsigned_round_trip(n: nat, max: int)
    requires
        n <= max,
    ensures
        parse_unsigned(decimal_nat(n), max) == Some(n as int),
{
    lemma_decimal_nat(n);
}

/// Reading a written signed number gives the number back.
pub proof fn lemma_signed_round_trip(i: int, min: int, max: int)
    requires
        min <= i <= max,
    ensures
        parse_signed(decimal_int(i), min, max) == Some(i),
        forall|k: int| 0 <= k < decimal_int(i).len() ==> #[trigger] decimal_int(i)[k] != '|',
{
    let s = decimal_int(i);
    if i < 0 {
        lemma_decimal_nat((-i) as nat);
        assert(s.skip(1) =~= decimal_nat((-i) as nat));
        assert(s[0] == '-');
    } else {
        lemma_decimal_nat(i as nat);
    }
}

/// The value of a run of digits is at least the value of each of its
/// beginnings.
pub proof fn lemma_digits_prefix(s: Seq<char>, j: int)
    requires
        all_digits(s),
        0 <= j <= s.len(),
    ensures
        digits_value(s.take(j)) <= digits_value(s),
    decreases s.len() - j,
{
    if j < s.len() {
        lemma_digits_step(s, j);
        lemma_digits_prefix(s, j + 1);
    } else {
        assert(s.take(j) =~= s);
    }
}

/// One digit more: ten times the value so far, plus the digit.
pub proof fn lemma_digits_step(s: Seq<char>, j: int)
    requires
        0 <= j < s.len(),
        is_digit(s[j]),
    ensures
        digits_value(s.take(j + 1)) == digits_value(s.take(j)) * 10 + digit_value(s[j]),
        digits_value(s.take(0)) == 0,
{
    assert(s.take(j + 1).drop_last() =~= s.take(j));
    assert(s.take(0) =~= Seq::<char>::empty());
}

/// The text of one decimal digit.
pub(crate) fn digit_str(d: u8) -> (s: &'static str)
    requires
        d < 10,
    ensures
        s@ == seq![digit_char(d as int)],
{
    proof {
        reveal_strlit("0");
        reveal_strlit("1");
        reveal_strlit("2");
        reveal_strlit("3");
        reveal_strlit("4");
        reveal_strlit("5");
        reveal_strlit("6");
        reveal_strlit("7");
        reveal_strlit("8");
        reveal_strlit("9");
    }
    let s = if d == 0 {
        "0"
    } else if d == 1 {
        "1"
    } else if d == 2 {
        "2"
    } else if d == 3 {
        "3"
    } else if d == 4 {
        "4"
    } else if d == 5 {
        "5"
    } else if d == 6 {
        "6"
    } else if d == 7 {
        "7"
    } else if d == 8 {
        "8"
    } else {
        "9"
    };
    assert(s@ =~= seq![digit_char(d as int)]);
    s
}

/// Appends a natural number in decimal.
pub(crate) fn push_decimal(out: &mut String, n: u64)
    ensures
        final(out)@ == old(out)@ + decimal_nat(n as nat),
    decreases n,
{
    if n >= 10 {
        push_decimal(out, n / 10);
    }
    out.append(digit_str((n % 10) as u8));
    proof {
        assert(out@ =~= old(out)@ + decimal_nat(n as nat));
    }
}

/// Appends an integer in decimal.
pub(crate) fn push_signed(out: &mut String, v: i64)
    ensures
        final(out)@ == old(out)@ + decimal_int(v as int),
{
    if v < 0 {
        proof {
            reveal_strlit("-");
        }
        out.append("-");
        let magnitude: u64 = if v == i64::MIN {
            0x8000_0000_0000_0000
        } else {
            (-v) as u64
        };
        push_decimal(out, magnitude);
        proof {
            assert(out@ =~= old(out)@ + decimal_int(v as int));
        }
    } else {
        push_decimal(out, v as u64);
    }
}

/// The first place from `from` on at which the character stands, or the
/// length where it does not occur there.
pub(crate) fn find_from(chars: &Vec<char>, from: usize, c: char) -> (at: usize)
    requires
        from <= chars.len(),
    ensures
        from <= at <= chars.len(),
        at == from + find_char(chars@.skip(from as int), c),
{
    let mut at = from;
    while at < chars.len() && chars[at] != c
        invariant
            from <= at <= chars.len(),
            forall|i: int| from <= i < at ==> #[trigger] chars@[i] != c,
        decreases chars.len() - at,
    {
        at = at + 1;
    }
    proof {
        let rest = chars@.skip(from as int);
        assert forall|i: int| 0 <= i < at - from implies #[trigger] rest[i] != c by {
            assert(rest[i] == chars@[from + i]);
        }
        lemma_find_char_at(rest, c, at - from);
    }
    at
}

/// Reads a run of digits as a number of at most `max`.
pub(crate) fn read_digits(chars: &Vec<char>, from: usize, to: usize, max: u64) -> (r: Result<
    u64,
    IntFault,
>)
    requires
        from < to <= chars.len(),
    ensures
        match r {
            Ok(value) => all_digits(chars@.subrange(from as int, to as int)) && digits_value(
                chars@.subrange(from as int, to as int),
            ) == value && value <= max,
            Err(fault) => digits_fault(chars@.subrange(from as int, to as int), max as int)
                == Some(fault) && !(all_digits(chars@.subrange(from as int, to as int))
                && digits_value(chars@.subrange(from as int, to as int)) <= max),
        },
{
    let ghost run = chars@.subrange(from as int, to as int);
    let mut value: u64 = 0;
    let mut at = from;
    proof {
        assert(run.take(0) =~= Seq::<char>::empty());
        lemma_digits_fault(run, max as int);
    }
    while at < to
        invariant
            from <= at <= to <= chars.len(),
            run == chars@.subrange(from as int, to as int),
            all_digits(run.take(at - from)),
            value == digits_value(run.take(at - from)),
            value <= max,
            digits_fault(run.take(at - from), max as int) is None,
            digits_fault(run, max as int) is None <==> (all_digits(run) && digits_value(run)
                <= max),
        decreases to - at,
    {
        let c = chars[at];
        let ghost seen = run.take(at - from + 1);
        proof {
            assert(run[at - from] == c);
            assert(seen.drop_last() =~= run.take(at - from));
            assert(seen.last() == c);
        }
        if c < '0' || c > '9' {
            proof {
                lemma_fault_stays(run, max as int, at - from + 1);
            }
            return Err(IntFault::InvalidDigit);
        }
        let digit: u64 = (c as u32 - '0' as u32) as u64;
        proof {
            lemma_digits_step(run, at - from);
        }
        let next: u128 = value as u128 * 10 + digit as u128;
        if next > max as u128 {
            proof {
                lemma_fault_stays(run, max as int, at - from + 1);
            }
            return Err(IntFault::PosOverflow);
        }
        value = next as u64;
        at = at + 1;
        proof {
            assert forall|i: int| 0 <= i < at - from implies is_digit(
                #[trigger] run.take(at - from)[i],
            ) by {
                if i < at - from - 1 {
                    assert(run.take(at - from - 1)[i] == run[i]);
                }
            }
        }
    }
    proof {
        assert(run.take(to - from) =~= run);
    }
    Ok(value)
}

/// A fault met in a beginning of a run is the fault of the whole run.
pub proof fn lemma_fault_stays(s: Seq<char>, max: int, j: int)
    requires
        0 <= j <= s.len(),
        digits_fault(s.take(j), max) is Some,
    ensures
        digits_fault(s, max) == digits_fault(s.take(j), max),
    decreases s.len() - j,
{
    if j < s.len() {
        assert(s.take(j + 1).drop_last() =~= s.take(j));
        lemma_fault_stays(s, max, j + 1);
    } else {
        assert(s.take(j) =~= s);
    }
}

/// Reads an unsigned decimal of at most `max`.
pub(crate) fn read_unsigned(chars: &Vec<char>, from: usize, to: usize, max: u64) -> (r: Result<
    u64,
    IntFault,
>)
    requires
        from <= to <= chars.len(),
    ensures
        match r {
            Ok(value) => parse_unsigned(chars@.subrange(from as int, to as int), max as int)
                == Some(value as int),
            Err(fault) => parse_unsigned(chars@.subrange(from as int, to as int), max as int)
                is None && unsigned_fault(chars@.subrange(from as int, to as int), max as int)
                == Some(fault),
        },
{
    let ghost run = chars@.subrange(from as int, to as int);
    if from == to {
        return Err(IntFault::Empty);
    }
    let start = if chars[from] == '+' {
        from + 1
    } else {
        from
    };
    proof {
        assert(run[0] == chars@[from as int]);
        if start > from {
            assert(run.skip(1) =~= chars@.subrange(start as int, to as int));
        }
    }
    if start == to {
        return Err(IntFault::InvalidDigit);
    }
    read_digits(chars, start, to, max)
}

/// Reads a signed decimal that fits in 32 bits.
pub(crate) fn read_i32(chars: &Vec<char>, from: usize, to: usize) -> (r: Option<i32>)
    requires
        from <= to <= chars.len(),
    ensures
        match r {
            Some(value) => parse_signed(
                chars@.subrange(from as int, to as int),
                i32::MIN as int,
                i32::MAX as int,
            ) == Some(value as int),
            None => parse_signed(
                chars@.subrange(from as int, to as int),
                i32::MIN as int,
                i32::MAX as int,
            ) is None,
        },
{
    let ghost run = chars@.subrange(from as int, to as int);
    let negative = from < to && chars[from] == '-';
    let start = if from < to && (chars[from] == '-' || chars[from] == '+') {
        from + 1
    } else {
        from
    };
    proof {
        if from < to {
            assert(run[0] == chars@[from as int]);
        }
        if start > from {
            assert(run.skip(1) =~= chars@.subrange(start as int, to as int));
        }
    }
    if start == to {
        return None;
    }
    let limit: u64 = if negative {
        0x8000_0000
    } else {
        0x7fff_ffff
    };
    match read_digits(chars, start, to, limit) {
        Ok(magnitude) => if negative {
            Some((-(magnitude as i64)) as i32)
        } else {
            Some(magnitude as i32)
        },
        Err(_) => None,
    }
}

/// The piece of a text from one place up to another.
pub(crate) fn slice_text(text: &str, from: usize, to: usize) -> (piece: String)
    requires
        from <= to <= text@.len(),
    ensures
        piece@ == text@.subrange(from as int, to as int),
{
    String::from_str(text.substring_char(from, to))
}

/// The characters from one place up to another spell the word.
pub(crate) fn spells(chars: &Vec<char>, from: usize, to: usize, word: &str) -> (same: bool)
    requires
        from <= to <= chars.len(),
    ensures
        same == (chars@.subrange(from as int, to as int) == word@),
{
    let ghost run = chars@.subrange(from as int, to as int);
    let length = word.unicode_len();
    if length != to - from {
        return false;
    }
    let mut at: usize = 0;
    while at < length
        invariant
            at <= length,
            length == to - from,
            length == word@.len(),
            from <= to <= chars.len(),
            run == chars@.subrange(from as int, to as int),
            forall|i: int| 0 <= i < at ==> #[trigger] run[i] == word@[i],
        decreases length - at,
    {
        if chars[from + at] != word.get_char(at) {
            proof {
                assert(run[at as int] != word@[at as int]);
            }
            return false;
        }
        at = at + 1;
    }
    proof {
        assert(run =~= word@);
    }
    true
}

/// The characters of a text.
pub(crate) fn chars_of(text: &str) -> (chars: Vec<char>)
    ensures
        chars@ == text@,
{
    let mut chars: Vec<char> = Vec::new();
    for c in it: text.chars()
        invariant
            chars@ == it.seq().take(it.index() as int),
            it.seq() == text@,
    {
        chars.push(c);
    }
    chars
}

} // verus!
