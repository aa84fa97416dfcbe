//! The text of a control file: one decimal integer, which white space may
//! surround.
//!
//! [`parsed`] says which integer a text denotes, if any, and [`decimal`] is
//! the text that stands for an integer. [`parse_i32`] and [`render_i32`]
//! compute them, and [`lemma_render_then_parse`] shows that the second undoes
//! the first.

use vstd::prelude::*;

verus! {

/// Whether `c` is white space: a character that Unicode classes as
/// `White_Space`.
pub open spec fn is_whitespace(c: char) -> bool {
    let n = c as u32;
    ||| 0x09 <= n <= 0x0d
    ||| n == 0x20
    ||| n == 0x85
    ||| n == 0xa0
    ||| n == 0x1680
    ||| 0x2000 <= n <= 0x200a
    ||| n == 0x2028
    ||| n == 0x2029
    ||| n == 0x202f
    ||| n == 0x205f
    ||| n == 0x3000
}

/// `s` without the white space it begins with.
pub open spec fn trim_start(s: Seq<char>) -> Seq<char>
    decreases s.len(),
{
    if s.len() > 0 && is_whitespace(s.first()) {
        trim_start(s.drop_first())
    } else {
        s
    }
}

/// `s` without the white space it ends with.
pub open spec fn trim_end(s: Seq<char>) -> Seq<char>
    decreases s.len(),
{
    if s.len() > 0 && is_whitespace(s.last()) {
        trim_end(s.drop_last())
    } else {
        s
    }
}

/// `s` without the white space around it.
pub open spec fn trimmed(s: Seq<char>) -> Seq<char> {
    trim_end(trim_start(s))
}

/// Whether `c` is one of the ten ASCII digits.
pub open spec fn is_digit(c: char) -> bool {
    '0' <= c <= '9'
}

/// The number that the digit `c` stands for.
pub open spec fn digit_value(c: char) -> int {
    c as int - '0' as int
}

/// The digit that stands for `d`, for `d` from 0 to 9.
pub open spec fn digit_char(d: int) -> char {
    (d + '0' as int) as char
}

/// Whether `s` holds digits only.
pub open spec fn all_digits(s: Seq<char>) -> bool {
    forall|i: int| 0 <= i < s.len() ==> is_digit(#[trigger] s[i])
}

/// The number that the digits of `s` denote in base ten; 0 for no digits.
pub open spec fn digits_value(s: Seq<char>) -> int
    decreases s.len(),
{
    if s.len() == 0 {
        0
    } else {
        digits_value(s.drop_last()) * 10 + digit_value(s.last())
    }
}

/// The number that `s` denotes if `s` is one digit or more.
pub open spec fn magnitude(s: Seq<char>) -> Option<int> {
    if s.len() > 0 && all_digits(s) {
        Some(digits_value(s))
    } else {
        None
    }
}

/// The integer that `s` denotes if `s` is a signed decimal: an optional `+`
/// or `-`, then one digit or more. Leading zeros are allowed.
pub open spec fn signed_value(s: Seq<char>) -> Option<int> {
    if s.len() > 0 && s.first() == '-' {
        match magnitude(s.drop_first()) {
            Some(m) => Some(-m),
            None => None,
        }
    } else if s.len() > 0 && s.first() == '+' {
        magnitude(s.drop_first())
    } else {
        magnitude(s)
    }
}

/// The `i32` that `text` denotes: `text` without the white space around it is a
/// signed decimal whose value an `i32` can hold. `None` for any other text.
pub open spec fn parsed(text: Seq<char>) -> Option<i32> {
    match signed_value(trimmed(text)) {
        Some(v) => if i32::MIN <= v <= i32::MAX {
            Some(v as i32)
        } else {
            None
        },
        None => None,
    }
}

/// The digits of `n` in base ten, without leading zeros.
pub open spec fn digits_of(n: nat) -> Seq<char>
    decreases n,
{
    if n < 10 {
        seq![digit_char(n as int)]
    } else {
        digits_of(n / 10).push(digit_char((n % 10) as int))
    }
}

/// The decimal text of `v`: its digits, after a `-` if `v` is negative.
pub open spec fn decimal(v: int) -> Seq<char> {
    if v < 0 {
        seq!['-'] + digits_of((-v) as nat)
    } else {
        digits_of(v as nat)
    }
}

/// The characters of `text`, in order.
fn chars_of(text: &str) -> (chars: Vec<char>)
    ensures
        chars@ == text@,
{
    let mut chars: Vec<char> = Vec::new();
    for c in it: text.chars()
        invariant
            chars@ == it.seq().take(it.index()),
            it.seq() == text@,
    {
        chars.push(c);
    }
    chars
}

/// Tells whether `c` is white space.
fn is_space(c: char) -> (space: bool)
    ensures
        space == is_whitespace(c),
{
    let n: u32 = c as u32;
    (0x09 <= n && n <= 0x0d) || n == 0x20 || n == 0x85 || n == 0xa0 || n == 0x1680 || (0x2000 <= n
        && n <= 0x200a) || n == 0x2028 || n == 0x2029 || n == 0x202f || n == 0x205f || n == 0x3000
}

/// The number that `c` stands for, if `c` is a digit.
fn digit_of(c: char) -> (d: Option<u8>)
    ensures
        d is Some <==> is_digit(c),
        d matches Some(v) ==> v as int == digit_value(c),
{
    if '0' <= c && c <= '9' {
        let n: u32 = c as u32;
        Some((n - 0x30) as u8)
    } else {
        None
    }
}

/// A prefix made of digits denotes no more than the whole.
proof fn lemma_prefix_value(s: Seq<char>, k: int)
    requires
        all_digits(s),
        0 <= k <= s.len(),
    ensures
        0 <= digits_value(s.take(k)) <= digits_value(s),
    decreases s.len(),
{
    if k == s.len() {
        assert(s.take(k) == s);
        if s.len() > 0 {
            lemma_prefix_value(s.drop_last(), k - 1);
            assert(s.drop_last().take(k - 1) == s.drop_last());
        }
    } else {
        lemma_prefix_value(s.drop_last(), k);
        assert(s.drop_last().take(k) == s.take(k));
    }
}

/// The number that `chars[from..end]` denotes, if it is one digit or more and
/// the number is at most 2^31.
fn parse_digits(chars: &Vec<char>, from: usize, end: usize) -> (value: Option<i64>)
    requires
        from <= end <= chars.len(),
    ensures
        match value {
            Some(m) => 0 <= m <= 0x8000_0000 && magnitude(
                chars@.subrange(from as int, end as int),
            ) == Some(m as int),
            None => magnitude(chars@.subrange(from as int, end as int)) matches Some(m) ==> m
                > 0x8000_0000,
        },
{
    let ghost digits = chars@.subrange(from as int, end as int);
    if from == end {
        return None;
    }
    let mut acc: i64 = 0;
    let mut i: usize = from;
    assert(digits.take(0).len() == 0);
    while i < end
        invariant
            from <= i <= end <= chars.len(),
            digits == chars@.subrange(from as int, end as int),
            all_digits(digits.take(i - from)),
            acc == digits_value(digits.take(i - from)),
            0 <= acc <= 0x8000_0000,
        decreases end - i,
    {
        let ghost before = digits.take(i - from);
        let ghost after = digits.take(i + 1 - from);
        assert(after.drop_last() == before);
        assert(after.last() == chars[i as int]);
        match digit_of(chars[i]) {
            None => {
                assert(!is_digit(digits[i - from]));
                return None;
            },
            Some(d) => {
                let next: i64 = acc * 10 + d as i64;
                if next > 0x8000_0000 {
                    proof {
                        if all_digits(digits) {
                            lemma_prefix_value(digits, i + 1 - from);
                        }
                    }
                    return None;
                }
                assert forall|k: int| 0 <= k < after.len() implies is_digit(#[trigger] after[k]) by {
                    if k < before.len() {
                        assert(after[k] == before[k]);
                    }
                }
                acc = next;
                i += 1;
            },
        }
    }
    assert(digits.take(i - from) == digits);
    Some(acc)
}

/// The integer that the signed decimal in `chars[start..end]` denotes, if an
/// `i32` can hold it.
fn parse_range(chars: &Vec<char>, start: usize, end: usize) -> (value: Option<i32>)
    requires
        start <= end <= chars.len(),
    ensures
        value == match signed_value(chars@.subrange(start as int, end as int)) {
            Some(v) => if i32::MIN <= v <= i32::MAX {
                Some(v as i32)
            } else {
                None
            },
            None => None,
        },
{
    let ghost whole = chars@.subrange(start as int, end as int);
    if start == end {
        return None;
    }
    let first: char = chars[start];
    assert(first == whole.first());
    let signed: bool = first == '-' || first == '+';
    let from: usize = if signed {
        start + 1
    } else {
        start
    };
    assert(signed ==> chars@.subrange(from as int, end as int) == whole.drop_first());
    match parse_digits(chars, from, end) {
        None => None,
        Some(m) => {
            if first == '-' {
                Some((-m) as i32)
            } else if m > 0x7fff_ffff {
                None
            } else {
                Some(m as i32)
            }
        },
    }
}

/// Where `chars` without its leading white space begins.
fn skip_leading(chars: &Vec<char>) -> (start: usize)
    ensures
        start <= chars.len(),
        chars@.skip(start as int) == trim_start(chars@),
{
    let n: usize = chars.len();
    let mut start: usize = 0;
    assert(chars@.skip(0) == chars@);
    while start < n && is_space(chars[start])
        invariant
            start <= n == chars.len(),
            trim_start(chars@) == trim_start(chars@.skip(start as int)),
        decreases n - start,
    {
        assert(chars@.skip(start as int).drop_first() == chars@.skip(start + 1));
        start += 1;
    }
    start
}

/// Where `chars[start..]` without its trailing white space ends.
fn skip_trailing(chars: &Vec<char>, start: usize) -> (end: usize)
    requires
        start <= chars.len(),
    ensures
        start <= end <= chars.len(),
        chars@.subrange(start as int, end as int) == trim_end(chars@.skip(start as int)),
{
    let n: usize = chars.len();
    let mut end: usize = n;
    assert(chars@.subrange(start as int, n as int) == chars@.skip(start as int));
    while end > start && is_space(chars[end - 1])
        invariant
            start <= end <= n == chars.len(),
            trim_end(chars@.skip(start as int)) == trim_end(
                chars@.subrange(start as int, end as int),
            ),
        decreases end - start,
    {
        assert(chars@.subrange(start as int, end as int).drop_last() == chars@.subrange(
            start as int,
            end - 1,
        ));
        end -= 1;
    }
    end
}

/// Parses the text of a control file.
///
/// White space around the number is skipped. The result is `None` where what
/// is left is no signed decimal, or denotes a number that an `i32` cannot
/// hold.
pub fn parse_i32(text: &str) -> (value: Option<i32>)
    ensures
        value == parsed(text@),
{
    let chars = chars_of(text);
    let start: usize = skip_leading(&chars);
    let end: usize = skip_trailing(&chars, start);
    parse_range(&chars, start, end)
}

/// The text of the digit that stands for `d`.
fn digit_str(d: u32) -> (text: &'static str)
    requires
        d <= 9,
    ensures
        text@ == seq![digit_char(d as int)],
{
    proof {
        reveal_strlit("0");
        reveal_strlit("1");
        reveal_strlit("2");
        reveal_strlit("3");
        reveal_strlit("4");
        reveal_strlit("5");
        reveal_strlit("6");
        reveal_strlit("7");
        reveal_strlit("8");
        reveal_strlit("9");
    }
    let text = match d {
        0 => "0",
        1 => "1",
        2 => "2",
        3 => "3",
        4 => "4",
        5 => "5",
        6 => "6",
        7 => "7",
        8 => "8",
        _ => "9",
    };
    assert(text@ =~= seq![digit_char(d as int)]);
    text
}

/// Appends the digits of `n` to `text`.
fn push_digits(text: &mut String, n: u32)
    ensures
        final(text)@ == old(text)@ + digits_of(n as nat),
    decreases n,
{
    if n >= 10 {
        push_digits(text, n / 10);
    }
    text.append(digit_str(n % 10));
}

/// Writes `value` as the text of a control file: its decimal digits, after a
/// `-` if it is negative, and nothing else.
pub fn render_i32(value: i32) -> (text: String)
    ensures
        text@ == decimal(value as int),
{
    let mut text = String::new();
    if value < 0 {
        proof {
            reveal_strlit("-");
        }
        text.append("-");
        let magnitude: i64 = -(value as i64);
        push_digits(&mut text, magnitude as u32);
    } else {
        push_digits(&mut text, value as u32);
    }
    text
}

/// The digits of a number are digits, at least one, and denote that number.
pub proof fn lemma_digits_of(n: nat)
    ensures
        digits_of(n).len() > 0,
        all_digits(digits_of(n)),
        digits_value(digits_of(n)) == n,
    decreases n,
{
    if n >= 10 {
        lemma_digits_of(n / 10);
        let front = digits_of(n / 10);
        let all = digits_of(n);
        assert(all.drop_last() == front);
        assert(all.last() == digit_char((n % 10) as int));
        assert forall|i: int| 0 <= i < all.len() implies is_digit(#[trigger] all[i]) by {
            if i < front.len() {
                assert(all[i] == front[i]);
            }
        }
    } else {
        let all = digits_of(n);
        assert(all.drop_last().len() == 0);
        assert(digits_value(all.drop_last()) == 0);
    }
}

/// Text that neither begins nor ends with white space is its own trimming.
pub proof fn lemma_trimmed_unchanged(s: Seq<char>)
    requires
        s.len() > 0 ==> !is_whitespace(s.first()) && !is_whitespace(s.last()),
    ensures
        trimmed(s) == s,
{
}

/// Law: the text written for a value parses back to that value. This holds for
/// every `i32`, the least one included.
pub proof fn lemma_render_then_parse(value: i32)
    ensures
        parsed(decimal(value as int)) == Some(value),
{
    let text = decimal(value as int);
    let magnitude: nat = if value < 0 {
        (-value) as nat
    } else {
        value as nat
    };
    let digits = digits_of(magnitude);
    lemma_digits_of(magnitude);
    assert(is_digit(digits.first()) && is_digit(digits.last()));
    if value < 0 {
        assert(text.first() == '-');
        assert(text.last() == digits.last());
        assert(text.drop_first() == digits);
    } else {
        assert(text == digits);
    }
    lemma_trimmed_unchanged(text);
}

} // verus!
