//! Text: decimal numbers, searching, trimming, and the few string operations that the rest of
//! the library builds its messages from.

use vstd::prelude::*;

verus! {

/// `String::push` appends the character at the end of the string.
pub assume_specification[ String::push ](s: &mut String, c: char)
    ensures
        final(s)@ == old(s)@.push(c),
;

/// `String::pop` removes the last character and returns it, or returns `None` and leaves an
/// empty string as it is.
pub assume_specification[ String::pop ](s: &mut String) -> (r: Option<char>)
    ensures
        old(s)@.len() == 0 ==> r is None && final(s)@ == old(s)@,
        old(s)@.len() > 0 ==> r == Some(old(s)@.last()) && final(s)@ == old(s)@.drop_last(),
;

/// The characters of a string.
pub fn chars_of(s: &str) -> (r: Vec<char>)
    ensures
        r@ == s@,
{
    let mut r: Vec<char> = Vec::new();
    for c in it: s.chars()
        invariant
            it.seq() == s@,
            r@ == s@.take(it.index() as int),
    {
        r.push(c);
    }
    r
}

/// The digit character of `d`.
pub open spec fn digit_char(d: nat) -> char {
    ('0' as nat + d) as char
}

/// `n` written in decimal without leading zeros.
pub open spec fn decimal(n: nat) -> Seq<char>
    decreases n,
{
    if n < 10 {
        seq![digit_char(n)]
    } else {
        decimal(n / 10).push(digit_char(n % 10))
    }
}

/// Appends `n` in decimal.
pub fn push_decimal(out: &mut String, n: u64)
    ensures
        final(out)@ == old(out)@ + decimal(n as nat),
    decreases n,
{
    if n >= 10 {
        push_decimal(out, n / 10);
    }
    let d: u8 = (n % 10) as u8;
    out.push((48 + d) as char);
}

/// `n` in decimal, in at least two digits.
pub open spec fn two_digits(n: nat) -> Seq<char> {
    if n < 10 {
        seq!['0'] + decimal(n)
    } else {
        decimal(n)
    }
}

/// Appends `n` in decimal, in at least two digits.
pub fn push_two_digits(out: &mut String, n: u8)
    ensures
        final(out)@ == old(out)@ + two_digits(n as nat),
{
    if n < 10 {
        out.push('0');
    }
    push_decimal(out, n as u64);
}

/// A decimal digit.
pub open spec fn is_digit(c: char) -> bool {
    '0' <= c && c <= '9'
}

/// The number that a sequence of digits stands for.
pub open spec fn digits_value(s: Seq<char>) -> nat
    decreases s.len(),
{
    if s.len() == 0 {
        0
    } else {
        digits_value(s.drop_last()) * 10 + (s.last() as nat - '0' as nat) as nat
    }
}

/// The text of a number without the plus sign that may stand before it.
pub open spec fn unsigned_part(s: Seq<char>) -> Seq<char> {
    if s.len() > 0 && s[0] == '+' {
        s.skip(1)
    } else {
        s
    }
}

/// The number that a text stands for: an optional plus sign and one or more digits.
pub open spec fn number_value(s: Seq<char>) -> Option<nat> {
    let digits = unsigned_part(s);
    if digits.len() > 0 && forall|i: int| 0 <= i < digits.len() ==> is_digit(#[trigger] digits[i]) {
        Some(digits_value(digits))
    } else {
        None
    }
}

/// The number that a text stands for, where it is no larger than `max`.
pub open spec fn number_up_to(s: Seq<char>, max: nat) -> Option<nat> {
    match number_value(s) {
        Some(v) => if v <= max {
            Some(v)
        } else {
            None
        },
        None => None,
    }
}

/// Reads the characters from `from` to `to` as a number that is no larger than `max`.
pub fn parse_number(s: &Vec<char>, from: usize, to: usize, max: u32) -> (r: Option<u32>)
    requires
        from <= to <= s.len(),
    ensures
        match r {
            Some(v) => number_up_to(s@.subrange(from as int, to as int), max as nat) == Some(v as nat),
            None => number_up_to(s@.subrange(from as int, to as int), max as nat) is None,
        },
{
    let ghost text = s@.subrange(from as int, to as int);
    let start: usize = if from < to && s[from] == '+' {
        from + 1
    } else {
        from
    };
    let ghost digits = unsigned_part(text);
    assert(digits == s@.subrange(start as int, to as int));
    if start == to {
        return None;
    }
    let limit: u64 = max as u64 + 1;
    let mut v: u64 = 0;
    let mut i: usize = start;
    assert(digits.take(0).len() == 0);
    while i < to
        invariant
            start <= i <= to <= s.len(),
            start < to,
            digits == s@.subrange(start as int, to as int),
            digits == unsigned_part(text),
            number_up_to(text, max as nat) == number_up_to(s@.subrange(from as int, to as int), max as nat),
            limit == max + 1,
            forall|j: int| 0 <= j < i - start ==> is_digit(#[trigger] digits[j]),
            v == if digits_value(digits.take(i - start)) < limit {
                digits_value(digits.take(i - start))
            } else {
                limit as nat
            },
        decreases to - i,
    {
        let c: char = s[i];
        assert(digits[i - start] == c);
        if c < '0' || c > '9' {
            return None;
        }
        assert(digits.take(i - start + 1).drop_last() == digits.take(i - start));
        v = v * 10 + (c as u64 - '0' as u64);
        if v > limit {
            v = limit;
        }
        i += 1;
    }
    assert(digits.take(to - start) == digits);
    if v < limit {
        Some(v as u32)
    } else {
        None
    }
}

/// Reads a whole string as a `u32`: an optional plus sign and one or more digits.
pub fn parse_u32(s: &str) -> (r: Option<u32>)
    ensures
        match r {
            Some(v) => number_up_to(s@, u32::MAX as nat) == Some(v as nat),
            None => number_up_to(s@, u32::MAX as nat) is None,
        },
{
    let chars = chars_of(s);
    assert(chars@.subrange(0, chars@.len() as int) == s@);
    parse_number(&chars, 0, chars.len(), u32::MAX)
}

/// Whether two strings hold the same characters.
pub fn str_eq(a: &str, b: &str) -> (r: bool)
    ensures
        r == (a@ == b@),
{
    let x = chars_of(a);
    let y = chars_of(b);
    if x.len() != y.len() {
        return false;
    }
    let mut i: usize = 0;
    while i < x.len()
        invariant
            i <= x.len() == y.len(),
            x@ == a@,
            y@ == b@,
            forall|j: int| 0 <= j < i ==> x@[j] == y@[j],
        decreases x.len() - i,
    {
        if x[i] != y[i] {
            return false;
        }
        i += 1;
    }
    assert(a@ =~= b@);
    true
}

/// A string with the characters of the vector from `from` to `to`.
pub fn string_of(s: &Vec<char>, from: usize, to: usize) -> (r: String)
    requires
        from <= to <= s.len(),
    ensures
        r@ == s@.subrange(from as int, to as int),
{
    let mut out = String::new();
    let mut i: usize = from;
    while i < to
        invariant
            from <= i <= to <= s.len(),
            out@ == s@.subrange(from as int, i as int),
        decreases to - i,
    {
        out.push(s[i]);
        i += 1;
    }
    out
}

/// A character with the Unicode property White_Space.
pub open spec fn is_space(c: char) -> bool {
    let u = c as u32;
    ||| 0x09 <= u <= 0x0d
    ||| u == 0x20
    ||| u == 0x85
    ||| u == 0xa0
    ||| u == 0x1680
    ||| 0x2000 <= u <= 0x200a
    ||| u == 0x2028
    ||| u == 0x2029
    ||| u == 0x202f
    ||| u == 0x205f
    ||| u == 0x3000
}

fn space(c: char) -> (r: bool)
    ensures
        r == is_space(c),
{
    let u: u32 = c as u32;
    (0x09 <= u && u <= 0x0d) || u == 0x20 || u == 0x85 || u == 0xa0 || u == 0x1680
        || (0x2000 <= u && u <= 0x200a) || u == 0x2028 || u == 0x2029 || u == 0x202f
        || u == 0x205f || u == 0x3000
}

/// The text without the white space before it.
pub open spec fn trimmed_start(s: Seq<char>) -> Seq<char>
    decreases s.len(),
{
    if s.len() > 0 && is_space(s[0]) {
        trimmed_start(s.drop_first())
    } else {
        s
    }
}

/// The text without the white space after it.
pub open spec fn trimmed_end(s: Seq<char>) -> Seq<char>
    decreases s.len(),
{
    if s.len() > 0 && is_space(s.last()) {
        trimmed_end(s.drop_last())
    } else {
        s
    }
}

/// The text without white space on either side.
pub open spec fn trimmed(s: Seq<char>) -> Seq<char> {
    trimmed_end(trimmed_start(s))
}

/// The text without white space on either side.
pub fn trim(s: &str) -> (r: String)
    ensures
        r@ == trimmed(s@),
{
    let chars = chars_of(s);
    let mut from: usize = 0;
    let mut to: usize = chars.len();
    assert(chars@.subrange(0, to as int) == s@);
    while from < to && space(chars[from])
        invariant
            from <= to == chars.len(),
            trimmed_start(chars@.subrange(from as int, to as int)) == trimmed_start(s@),
        decreases to - from,
    {
        assert(chars@.subrange(from as int, to as int).drop_first() == chars@.subrange(
            from + 1,
            to as int,
        ));
        from += 1;
    }
    assert(trimmed_start(s@) == chars@.subrange(from as int, to as int));
    while from < to && space(chars[to - 1])
        invariant
            from <= to <= chars.len(),
            trimmed_end(chars@.subrange(from as int, to as int)) == trimmed(s@),
        decreases to - from,
    {
        assert(chars@.subrange(from as int, to as int).drop_last() == chars@.subrange(
            from as int,
            to - 1,
        ));
        to -= 1;
    }
    string_of(&chars, from, to)
}

/// The text with each full stop replaced by the letter p.
pub open spec fn dots_replaced(s: Seq<char>) -> Seq<char> {
    s.map_values(|c: char| if c == '.' { 'p' } else { c })
}

/// Appends `s` with each full stop replaced by the letter p.
pub fn push_dots_replaced(out: &mut String, s: &str)
    ensures
        final(out)@ == old(out)@ + dots_replaced(s@),
{
    let chars = chars_of(s);
    let mut i: usize = 0;
    let ghost before = out@;
    while i < chars.len()
        invariant
            i <= chars.len(),
            chars@ == s@,
            out@ == before + dots_replaced(s@).take(i as int),
        decreases chars.len() - i,
    {
        if chars[i] == '.' {
            out.push('p');
        } else {
            out.push(chars[i]);
        }
        i += 1;
    }
    assert(dots_replaced(s@).take(s@.len() as int) == dots_replaced(s@));
}

/// A text in quotes and with escapes, as `{:?}` writes a string.
pub uninterp spec fn quoted(s: Seq<char>) -> Seq<char>;

/// The `Debug` form of a string, as `format!("{:?}", s)` gives it: a function of the string's
/// characters alone, here named `quoted`. Which characters are escaped, and how, is left unsaid.
#[verifier::external_body]
fn debug_of(s: &str) -> (r: String)
    ensures
        r@ == quoted(s@),
{
    format!("{:?}", s)
}

/// Appends `s` in quotes and with escapes.
pub fn push_quoted(out: &mut String, s: &str)
    ensures
        final(out)@ == old(out)@ + quoted(s@),
{
    out.append(debug_of(s).as_str());
}

proof fn lemma_digit_appended(s: Seq<char>, d: nat)
    requires
        d < 10,
    ensures
        digits_value(s.push(digit_char(d))) == digits_value(s) * 10 + d,
        '0' <= digit_char(d) && digit_char(d) <= '9',
        digit_char(d) == '0' <==> d == 0,
{
    assert(s.push(digit_char(d)).drop_last() == s);
}

proof fn lemma_decimal_digits(n: nat)
    ensures
        decimal(n).len() > 0,
        forall|i: int| 0 <= i < decimal(n).len() ==> is_digit(#[trigger] decimal(n)[i]),
        digits_value(decimal(n)) == n,
        n > 0 ==> decimal(n)[0] != '0',
        n < 10 <==> decimal(n).len() == 1,
        n < 100 <==> decimal(n).len() <= 2,
    decreases n,
{
    if n < 10 {
        lemma_digit_appended(Seq::empty(), n);
        assert(decimal(n) == Seq::<char>::empty().push(digit_char(n)));
    } else {
        lemma_decimal_digits(n / 10);
        lemma_digit_appended(decimal(n / 10), n % 10);
        assert(decimal(n)[0] == decimal(n / 10)[0]);
    }
}

/// A number written in decimal is read back as that number; it has digits alone, and none too many
/// in front.
pub proof fn law_decimal_is_read_back(n: nat)
    ensures
        number_value(decimal(n)) == Some(n),
        forall|i: int| 0 <= i < decimal(n).len() ==> '0' <= #[trigger] decimal(n)[i] <= '9',
        n < 10 ==> decimal(n).len() == 1,
        n >= 10 ==> decimal(n)[0] != '0',
{
    lemma_decimal_digits(n);
    assert(is_digit(decimal(n)[0]));
    assert(unsigned_part(decimal(n)) == decimal(n));
    assert forall|i: int| 0 <= i < decimal(n).len() implies '0' <= #[trigger] decimal(n)[i] <= '9' by {
        assert(is_digit(decimal(n)[i]));
    }
}

/// A number written in two digits is read back as that number; it has two digits, or as many more
/// as it needs.
pub proof fn law_two_digits_are_read_back(n: nat)
    ensures
        number_value(two_digits(n)) == Some(n),
        n < 100 ==> two_digits(n).len() == 2,
        n >= 100 ==> two_digits(n) == decimal(n),
        forall|i: int| 0 <= i < two_digits(n).len() ==> '0' <= #[trigger] two_digits(n)[i] <= '9',
{
    law_decimal_is_read_back(n);
    lemma_decimal_digits(n);
    if n < 10 {
        lemma_digit_appended(seq!['0'], n);
        lemma_digit_appended(Seq::empty(), 0);
        assert(seq!['0'] == Seq::<char>::empty().push('0'));
        assert(two_digits(n) =~= seq!['0'].push(digit_char(n)));
        assert(decimal(n).len() == 1);
        assert(unsigned_part(two_digits(n)) == two_digits(n));
    }
}

/// A digit behind a number makes it ten times as much and the digit more; a number starts with a
/// digit; and whatever has something else than digits in it is no number, but for one plus sign in
/// front.
pub proof fn law_numbers_are_read_digit_by_digit(s: Seq<char>, c: char)
    ensures
        number_value(Seq::<char>::empty()) is None,
        number_value(seq!['+']) is None,
        '0' <= c <= '9' ==> number_value(seq![c]) == Some((c as nat - '0' as nat) as nat),
        number_value(s) is Some && '0' <= c <= '9' ==> number_value(s.push(c)) == Some(
            (number_value(s)->0 * 10 + (c as nat - '0' as nat)) as nat,
        ),
        s.len() > 0 && !('0' <= c <= '9') ==> number_value(s.push(c)) is None,
        s.len() > 0 && s[0] != '+' ==> number_value(seq!['+'] + s) == number_value(s),
        s.len() > 0 && s[0] == '+' ==> number_value(seq!['+'] + s) is None,
{
    assert(unsigned_part(seq!['+']).len() == 0);
    if '0' <= c <= '9' {
        assert(unsigned_part(seq![c]) == seq![c]);
        assert(seq![c].drop_last() =~= Seq::<char>::empty());
        assert(digits_value(Seq::empty()) == 0);
    }
    if s.len() > 0 {
        let digits = unsigned_part(s);
        let more = s.push(c);
        assert(unsigned_part(more) =~= digits.push(c));
        assert(digits.push(c).drop_last() =~= digits);
        if !('0' <= c <= '9') {
            assert(!is_digit(digits.push(c)[digits.len() as int]));
        } else if number_value(s) is Some {
            assert forall|i: int| 0 <= i < digits.push(c).len() implies is_digit(
                #[trigger] digits.push(c)[i],
            ) by {
                if i < digits.len() {
                    assert(digits.push(c)[i] == digits[i]);
                }
            }
        }
        let plus = seq!['+'] + s;
        assert(unsigned_part(plus) =~= s);
        if s[0] == '+' {
            assert(!is_digit(s[0]));
        }
    }
}

/// A character that is no digit, anywhere but in front, makes a text no number.
pub proof fn law_no_number_with_other_characters(s: Seq<char>, i: int)
    requires
        0 <= i < s.len(),
        !('0' <= s[i] <= '9'),
        i > 0 || s[0] != '+',
    ensures
        number_value(s) is None,
{
    let digits = unsigned_part(s);
    if s[0] == '+' {
        assert(digits[i - 1] == s[i]);
        assert(!is_digit(digits[i - 1]));
    } else {
        assert(!is_digit(digits[i]));
    }
}

/// A number is read just where it is no larger than the limit.
pub proof fn law_numbers_up_to_the_limit(s: Seq<char>, max: nat)
    ensures
        number_value(s) is None ==> number_up_to(s, max) is None,
        number_value(s) matches Some(v) ==> (v <= max ==> number_up_to(s, max) == Some(v)) && (v > max
            ==> number_up_to(s, max) is None),
{
}

/// White space is what Unicode calls so: the tabs and ends of lines, and the spaces.
pub proof fn law_white_space(c: char)
    ensures
        is_space(c) <==> (c == '\t' || c == '\n' || c == '\u{b}' || c == '\u{c}' || c == '\r' || c
            == ' ' || c == '\u{85}' || c == '\u{a0}' || c == '\u{1680}' || ('\u{2000}' <= c && c
            <= '\u{200a}') || c == '\u{2028}' || c == '\u{2029}' || c == '\u{202f}' || c
            == '\u{205f}' || c == '\u{3000}'),
{
}

proof fn lemma_trim_front(a: Seq<char>, s: Seq<char>)
    requires
        forall|i: int| 0 <= i < a.len() ==> is_space(#[trigger] a[i]),
        s.len() > 0 ==> !is_space(s[0]),
    ensures
        trimmed_start(a + s) == s,
    decreases a.len(),
{
    if a.len() == 0 {
        assert(a + s =~= s);
    } else {
        assert(is_space(a[0]));
        assert((a + s).drop_first() =~= a.drop_first() + s);
        assert forall|i: int| 0 <= i < a.drop_first().len() implies is_space(
            #[trigger] a.drop_first()[i],
        ) by {
            assert(a.drop_first()[i] == a[i + 1]);
        }
        lemma_trim_front(a.drop_first(), s);
    }
}

proof fn lemma_trim_back(s: Seq<char>, b: Seq<char>)
    requires
        forall|i: int| 0 <= i < b.len() ==> is_space(#[trigger] b[i]),
        s.len() > 0 ==> !is_space(s.last()),
    ensures
        trimmed_end(s + b) == s,
    decreases b.len(),
{
    if b.len() == 0 {
        assert(s + b =~= s);
    } else {
        assert(is_space(b[b.len() - 1]));
        assert((s + b).drop_last() =~= s + b.drop_last());
        lemma_trim_back(s, b.drop_last());
    }
}

/// Trimming takes away the white space before and after a text, and nothing else.
pub proof fn law_trim_takes_white_space_away(a: Seq<char>, s: Seq<char>, b: Seq<char>)
    requires
        forall|i: int| 0 <= i < a.len() ==> is_space(#[trigger] a[i]),
        forall|i: int| 0 <= i < b.len() ==> is_space(#[trigger] b[i]),
        s.len() > 0 ==> !is_space(s[0]) && !is_space(s[s.len() - 1]),
    ensures
        trimmed(a + s + b) == s,
{
    if s.len() > 0 {
        assert((s + b)[0] == s[0]);
        assert(a + s + b =~= a + (s + b));
        lemma_trim_front(a, s + b);
        lemma_trim_back(s, b);
    } else {
        let all = a + s + b;
        assert(all =~= all + Seq::<char>::empty());
        assert forall|i: int| 0 <= i < all.len() implies is_space(#[trigger] all[i]) by {
            if i < a.len() {
                assert(all[i] == a[i]);
            } else {
                assert(all[i] == b[i - a.len()]);
            }
        }
        lemma_trim_front(all, Seq::empty());
        assert(s =~= Seq::<char>::empty());
    }
}

/// The letter p stands for each full stop, and all else stays.
pub proof fn law_full_stops_are_replaced(s: Seq<char>, i: int)
    requires
        0 <= i < s.len(),
    ensures
        dots_replaced(s).len() == s.len(),
        s[i] == '.' ==> dots_replaced(s)[i] == 'p',
        s[i] != '.' ==> dots_replaced(s)[i] == s[i],
{
}

} // verus!
