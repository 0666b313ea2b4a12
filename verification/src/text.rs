//! Text that keys, names and paths are made of.

use vstd::prelude::*;
use vstd::string::{StrSliceExecFns, StringExecFns};
use vstd::utf8::{encode_utf8, valid_utf8};

verus! {

/// `std::str::from_utf8`: the text that the bytes encode, where they are valid
/// UTF-8.
#[verifier::external_body]
pub(crate) fn utf8_text(data: &[u8]) -> (text: Option<&str>)
    ensures
        match text {
            Some(t) => valid_utf8(data@) && encode_utf8(t@) == data@,
            None => !valid_utf8(data@),
        },
{
    std::str::from_utf8(data).ok()
}

/// Whether two texts are the same.
pub fn same_text(a: &str, b: &str) -> (same: bool)
    ensures
        same == (a@ == b@),
{
    let n: usize = a.unicode_len();
    if n != b.unicode_len() {
        return false;
    }
    let mut i: usize = 0;
    while i < n
        invariant
            i <= n,
            n == a@.len(),
            n == b@.len(),
            forall|k: int| 0 <= k < i ==> a@[k] == b@[k],
        decreases n - i,
    {
        if a.get_char(i) != b.get_char(i) {
            return false;
        }
        i += 1;
    }
    assert(a@ =~= b@);
    true
}

/// The Unicode property White_Space.
pub open spec fn is_white_space(c: char) -> bool {
    ||| '\u{9}' <= c <= '\u{d}'
    ||| c == '\u{20}'
    ||| c == '\u{85}'
    ||| c == '\u{a0}'
    ||| c == '\u{1680}'
    ||| '\u{2000}' <= c <= '\u{200a}'
    ||| c == '\u{2028}'
    ||| c == '\u{2029}'
    ||| c == '\u{202f}'
    ||| c == '\u{205f}'
    ||| c == '\u{3000}'
}

fn white_space(c: char) -> (white: bool)
    ensures
        white == is_white_space(c),
{
    ('\u{9}' <= c && c <= '\u{d}') || c == '\u{20}' || c == '\u{85}' || c == '\u{a0}' || c
        == '\u{1680}' || ('\u{2000}' <= c && c <= '\u{200a}') || c == '\u{2028}' || c == '\u{2029}'
        || c == '\u{202f}' || c == '\u{205f}' || c == '\u{3000}'
}

/// The text without leading white space.
pub open spec fn trim_start(s: Seq<char>) -> Seq<char>
    decreases s.len(),
{
    if s.len() > 0 && is_white_space(s[0]) {
        trim_start(s.drop_first())
    } else {
        s
    }
}

/// The text without trailing white space.
pub open spec fn trim_end(s: Seq<char>) -> Seq<char>
    decreases s.len(),
{
    if s.len() > 0 && is_white_space(s.last()) {
        trim_end(s.drop_last())
    } else {
        s
    }
}

/// The text without leading and trailing white space.
pub open spec fn trimmed(s: Seq<char>) -> Seq<char> {
    trim_end(trim_start(s))
}

/// The part of `s` between its leading and trailing white space.
pub fn trim(s: &str) -> (t: &str)
    ensures
        t@ == trimmed(s@),
{
    let n: usize = s.unicode_len();
    let mut from: usize = 0;
    assert(s@.subrange(0, n as int) =~= s@);
    while from < n && white_space(s.get_char(from))
        invariant
            from <= n,
            n == s@.len(),
            trim_start(s@) == trim_start(s@.subrange(from as int, n as int)),
        decreases n - from,
    {
        assert(s@.subrange(from as int, n as int).drop_first() =~= s@.subrange(
            from + 1,
            n as int,
        ));
        from += 1;
    }
    let mut to: usize = n;
    while from < to && white_space(s.get_char(to - 1))
        invariant
            from <= to <= n,
            n == s@.len(),
            trimmed(s@) == trim_end(s@.subrange(from as int, to as int)),
        decreases to,
    {
        assert(s@.subrange(from as int, to as int).drop_last() =~= s@.subrange(
            from as int,
            to - 1,
        ));
        to -= 1;
    }
    s.substring_char(from, to)
}

/// Trimming twice is trimming once.
pub proof fn law_trim_idempotent(s: Seq<char>)
    ensures
        trimmed(trimmed(s)) == trimmed(s),
{
    lemma_trim_start_head(s);
    let t = trim_start(s);
    lemma_trim_end_tail(t);
    let u = trim_end(t);
    lemma_trim_end_prefix(t);
    if u.len() > 0 {
        assert(u[0] == t[0]);
    }
    assert(trim_start(u) == u);
}

proof fn lemma_trim_start_head(s: Seq<char>)
    ensures
        trim_start(s).len() > 0 ==> !is_white_space(trim_start(s)[0]),
    decreases s.len(),
{
    if s.len() > 0 && is_white_space(s[0]) {
        lemma_trim_start_head(s.drop_first());
    }
}

proof fn lemma_trim_end_tail(s: Seq<char>)
    ensures
        trim_end(s).len() > 0 ==> !is_white_space(trim_end(s).last()),
        trim_end(trim_end(s)) == trim_end(s),
    decreases s.len(),
{
    if s.len() > 0 && is_white_space(s.last()) {
        lemma_trim_end_tail(s.drop_last());
    }
}

proof fn lemma_trim_end_prefix(s: Seq<char>)
    ensures
        trim_end(s).len() <= s.len(),
        trim_end(s) == s.subrange(0, trim_end(s).len() as int),
    decreases s.len(),
{
    if s.len() > 0 && is_white_space(s.last()) {
        lemma_trim_end_prefix(s.drop_last());
        assert(s.drop_last().subrange(0, trim_end(s).len() as int) =~= s.subrange(
            0,
            trim_end(s).len() as int,
        ));
    } else {
        assert(s.subrange(0, s.len() as int) =~= s);
    }
}

/// The text before `suffix`, where the text ends with it.
pub open spec fn stripped_suffix(s: Seq<char>, suffix: Seq<char>) -> Option<Seq<char>> {
    let n = s.len() - suffix.len();
    if n >= 0 && s.subrange(n, s.len() as int) == suffix {
        Some(s.subrange(0, n))
    } else {
        None
    }
}

/// The part of `s` before `suffix`, where `s` ends with it.
pub fn strip_suffix<'a>(s: &'a str, suffix: &str) -> (rest: Option<&'a str>)
    ensures
        match rest {
            Some(r) => stripped_suffix(s@, suffix@) == Some(r@),
            None => stripped_suffix(s@, suffix@) is None,
        },
{
    let n: usize = s.unicode_len();
    let m: usize = suffix.unicode_len();
    if n < m {
        return None;
    }
    if !same_text(s.substring_char(n - m, n), suffix) {
        return None;
    }
    Some(s.substring_char(0, n - m))
}

/// The value of a digit in a radix of at most 16.
pub open spec fn digit_value(c: char, radix: int) -> Option<int> {
    let value = if '0' <= c <= '9' {
        c as int - '0' as int
    } else if 'a' <= c <= 'f' {
        c as int - 'a' as int + 10
    } else if 'A' <= c <= 'F' {
        c as int - 'A' as int + 10
    } else {
        radix
    };
    if value < radix {
        Some(value)
    } else {
        None
    }
}

/// The number that a string of digits stands for; none where one is no digit.
pub open spec fn digits_value(s: Seq<char>, radix: int) -> Option<int>
    decreases s.len(),
{
    if s.len() == 0 {
        Some(0)
    } else {
        match (digits_value(s.drop_last(), radix), digit_value(s.last(), radix)) {
            (Some(high), Some(low)) => Some(high * radix + low),
            _ => None,
        }
    }
}

/// The digits of a number: what follows a leading plus sign, if there is one.
pub open spec fn unsigned_part(s: Seq<char>) -> Seq<char> {
    if s.len() > 0 && s[0] == '+' {
        s.subrange(1, s.len() as int)
    } else {
        s
    }
}

/// The unsigned 64-bit number that a text stands for: an optional plus sign
/// and at least one digit, without overflow.
pub open spec fn parsed_u64(s: Seq<char>, radix: int) -> Option<u64> {
    let digits = unsigned_part(s);
    match digits_value(digits, radix) {
        Some(v) => if digits.len() > 0 && v <= u64::MAX {
            Some(v as u64)
        } else {
            None
        },
        None => None,
    }
}

/// The value of a digit, or `radix` for what is no digit.
fn digit_of(c: char, radix: u64) -> (value: u64)
    requires
        radix == 10 || radix == 16,
    ensures
        match digit_value(c, radix as int) {
            Some(v) => value == v && value < radix,
            None => value >= radix,
        },
{
    let code: u32 = c as u32;
    if '0' <= c && c <= '9' {
        (code - 48) as u64
    } else if 'a' <= c && c <= 'f' {
        (code - 97) as u64 + 10
    } else if 'A' <= c && c <= 'F' {
        (code - 65) as u64 + 10
    } else {
        radix
    }
}

/// Once a string of digits is over a limit, or no number, every longer one is.
proof fn lemma_digits_grow(s: Seq<char>, n: int, radix: int)
    requires
        0 <= n <= s.len(),
        radix >= 1,
    ensures
        digits_value(s, radix) is Some ==> {
            &&& digits_value(s.subrange(0, n), radix) is Some
            &&& 0 <= digits_value(s.subrange(0, n), radix)->0 <= digits_value(s, radix)->0
        },
    decreases s.len() - n,
{
    if n == s.len() {
        assert(s.subrange(0, n) =~= s);
        lemma_digits_nonnegative(s, radix);
    } else {
        lemma_digits_grow(s, n + 1, radix);
        let longer = s.subrange(0, n + 1);
        assert(longer.drop_last() =~= s.subrange(0, n));
        if digits_value(longer, radix) is Some {
            let high = digits_value(s.subrange(0, n), radix)->0;
            lemma_digits_nonnegative(s.subrange(0, n), radix);
            assert(high * radix >= high) by (nonlinear_arith)
                requires
                    high >= 0,
                    radix >= 1,
            ;
        }
    }
}

proof fn lemma_digits_nonnegative(s: Seq<char>, radix: int)
    requires
        radix >= 1,
    ensures
        digits_value(s, radix) is Some ==> digits_value(s, radix)->0 >= 0,
    decreases s.len(),
{
    if s.len() > 0 {
        lemma_digits_nonnegative(s.drop_last(), radix);
        if digits_value(s, radix) is Some {
            let high = digits_value(s.drop_last(), radix)->0;
            assert(high * radix >= 0) by (nonlinear_arith)
                requires
                    high >= 0,
                    radix >= 1,
            ;
        }
    }
}

/// Parses an unsigned number in radix 10 or 16.
pub fn parse_u64(s: &str, radix: u64) -> (number: Option<u64>)
    requires
        radix == 10 || radix == 16,
    ensures
        number == parsed_u64(s@, radix as int),
{
    let n: usize = s.unicode_len();
    let start: usize = if n > 0 && s.get_char(0) == '+' {
        1
    } else {
        0
    };
    let ghost digits = unsigned_part(s@);
    assert(digits =~= s@.subrange(start as int, n as int));
    if start == n {
        return None;
    }
    let mut value: u64 = 0;
    let mut i: usize = start;
    while i < n
        invariant
            start <= i <= n,
            n == s@.len(),
            radix == 10 || radix == 16,
            digits == s@.subrange(start as int, n as int),
            digits == unsigned_part(s@),
            digits_value(digits.subrange(0, i - start), radix as int) == Some(value as int),
        decreases n - i,
    {
        let d: u64 = digit_of(s.get_char(i), radix);
        proof {
            let longer = digits.subrange(0, i + 1 - start);
            assert(longer.drop_last() =~= digits.subrange(0, i - start));
            assert(longer.last() == s@[i as int]);
            lemma_digits_grow(digits, i + 1 - start, radix as int);
        }
        if d >= radix {
            return None;
        }
        match value.checked_mul(radix) {
            Some(high) => match high.checked_add(d) {
                Some(sum) => {
                    value = sum;
                },
                None => return None,
            },
            None => return None,
        }
        i += 1;
    }
    assert(digits.subrange(0, n - start) =~= digits);
    Some(value)
}

/// The character of a decimal digit.
pub open spec fn digit_char(d: int) -> char {
    ('0' as int + d) as char
}

/// A number in decimal, without leading zeros.
pub open spec fn decimal(n: nat) -> Seq<char>
    decreases n,
{
    if n < 10 {
        seq![digit_char(n as int)]
    } else {
        decimal(n / 10).push(digit_char((n % 10) as int))
    }
}

/// A signed number in decimal.
pub open spec fn signed_decimal(n: int) -> Seq<char> {
    if n < 0 {
        seq!['-'] + decimal((-n) as nat)
    } else {
        decimal(n as nat)
    }
}

fn digit_text(d: u64) -> (text: &'static str)
    requires
        d < 10,
    ensures
        text@ == seq![digit_char(d as int)],
{
    proof {
        reveal_strlit("0");
        reveal_strlit("1");
        reveal_strlit("2");
        reveal_strlit("3");
        reveal_strlit("4");
        reveal_strlit("5");
        reveal_strlit("6");
        reveal_strlit("7");
        reveal_strlit("8");
        reveal_strlit("9");
    }
    let text = match d {
        0 => "0",
        1 => "1",
        2 => "2",
        3 => "3",
        4 => "4",
        5 => "5",
        6 => "6",
        7 => "7",
        8 => "8",
        _ => "9",
    };
    assert(text@ =~= seq![digit_char(d as int)]);
    text
}

/// Appends `n` in decimal.
pub fn push_decimal(out: &mut String, n: u64)
    ensures
        final(out)@ == old(out)@ + decimal(n as nat),
    decreases n,
{
    if n >= 10 {
        push_decimal(out, n / 10);
    }
    out.append(digit_text(n % 10));
    assert(out@ =~= old(out)@ + decimal(n as nat));
}

/// Appends `n` in decimal.
pub fn push_signed_decimal(out: &mut String, n: i64)
    ensures
        final(out)@ == old(out)@ + signed_decimal(n as int),
{
    if n < 0 {
        proof {
            reveal_strlit("-");
        }
        out.append("-");
        let magnitude: u64 = if n == i64::MIN {
            0x8000_0000_0000_0000
        } else {
            (-n) as u64
        };
        push_decimal(out, magnitude);
        assert(out@ =~= old(out)@ + signed_decimal(n as int));
    } else {
        push_decimal(out, n as u64);
    }
}

/// What counts as white space, by code point.
pub proof fn law_white_space_characters(c: char)
    ensures
        is_white_space(c) <==> {
            let code = c as u32;
            ||| 9 <= code <= 13
            ||| code == 32
            ||| code == 133
            ||| code == 160
            ||| code == 5760
            ||| 8192 <= code <= 8202
            ||| code == 8232
            ||| code == 8233
            ||| code == 8239
            ||| code == 8287
            ||| code == 12288
        },
{
}

/// Trimming cuts white space off both ends and nothing else: what is left is
/// one piece of the text, all that was cut is white space, and what is left
/// neither begins nor ends with any.
pub proof fn law_trim_cuts_white_space(s: Seq<char>) -> (cut: (int, int))
    ensures
        0 <= cut.0 <= cut.1 <= s.len(),
        trimmed(s) == s.subrange(cut.0, cut.1),
        forall|i: int|
            0 <= i < cut.0 || cut.1 <= i < s.len() ==> is_white_space(#[trigger] s[i]),
        trimmed(s).len() > 0 ==> !is_white_space(trimmed(s)[0]) && !is_white_space(
            trimmed(s).last(),
        ),
{
    let from = lemma_trim_start_cut(s);
    let t = trim_start(s);
    let to = lemma_trim_end_cut(t);
    lemma_trim_start_head(s);
    lemma_trim_end_tail(t);
    assert(trimmed(s) =~= s.subrange(from, from + to));
    assert forall|i: int| 0 <= i < from || from + to <= i < s.len() implies is_white_space(
        #[trigger] s[i],
    ) by {
        if i >= from {
            assert(s[i] == t[i - from]);
        }
    }
    (from, from + to)
}

proof fn lemma_trim_start_cut(s: Seq<char>) -> (from: int)
    ensures
        0 <= from <= s.len(),
        trim_start(s) == s.subrange(from, s.len() as int),
        forall|i: int| 0 <= i < from ==> is_white_space(#[trigger] s[i]),
    decreases s.len(),
{
    if s.len() > 0 && is_white_space(s[0]) {
        let rest = s.drop_first();
        let from = lemma_trim_start_cut(rest);
        assert(rest.subrange(from, rest.len() as int) =~= s.subrange(from + 1, s.len() as int));
        assert forall|i: int| 0 <= i < from + 1 implies is_white_space(#[trigger] s[i]) by {
            if i > 0 {
                assert(s[i] == rest[i - 1]);
            }
        }
        from + 1
    } else {
        assert(s.subrange(0, s.len() as int) =~= s);
        0
    }
}

proof fn lemma_trim_end_cut(s: Seq<char>) -> (to: int)
    ensures
        0 <= to <= s.len(),
        trim_end(s) == s.subrange(0, to),
        forall|i: int| to <= i < s.len() ==> is_white_space(#[trigger] s[i]),
    decreases s.len(),
{
    if s.len() > 0 && is_white_space(s.last()) {
        let rest = s.drop_last();
        let to = lemma_trim_end_cut(rest);
        assert(rest.subrange(0, to) =~= s.subrange(0, to));
        assert forall|i: int| to <= i < s.len() implies is_white_space(#[trigger] s[i]) by {
            if i < rest.len() {
                assert(s[i] == rest[i]);
            }
        }
        to
    } else {
        assert(s.subrange(0, s.len() as int) =~= s);
        s.len() as int
    }
}

/// A text without its suffix is what makes it up together with the suffix.
pub proof fn law_stripped_suffix_completes(s: Seq<char>, suffix: Seq<char>, rest: Seq<char>)
    ensures
        stripped_suffix(s, suffix) == Some(rest) <==> s == rest + suffix,
{
    let whole = rest + suffix;
    assert(whole.subrange(rest.len() as int, whole.len() as int) =~= suffix);
    assert(whole.subrange(0, rest.len() as int) =~= rest);
    let n = s.len() - suffix.len();
    if n >= 0 {
        assert(s =~= s.subrange(0, n) + s.subrange(n, s.len() as int));
    }
}

/// A single character is a number exactly if it is a digit: ten digits in
/// decimal, and six letters of either case more in hexadecimal.
pub proof fn law_one_digit_numbers(c: char, n: u64)
    ensures
        parsed_u64(seq![c], 10) == Some(n) <==> '0' <= c <= '9' && n == c as int - '0' as int,
        parsed_u64(seq![c], 16) == Some(n) <==> ('0' <= c <= '9' && n == c as int - '0' as int) || (
        'a' <= c <= 'f' && n == c as int - 'a' as int + 10) || ('A' <= c <= 'F' && n == c as int
            - 'A' as int + 10),
        parsed_u64(Seq::empty(), 10) is None,
        parsed_u64(Seq::empty(), 16) is None,
{
    let s = seq![c];
    assert(s.drop_last() =~= Seq::<char>::empty());
    reveal_with_fuel(digits_value, 2);
    if c == '+' {
        assert(unsigned_part(s) =~= Seq::<char>::empty());
    }
}

/// One more digit multiplies a number by the radix and adds to it, unless the
/// result is too large. What is no number does not become one by a longer text,
/// except that one plus sign may stand before the first digit.
pub proof fn law_one_more_digit(s: Seq<char>, c: char, radix: int)
    requires
        s.len() > 0,
        radix == 10 || radix == 16,
    ensures
        s == seq!['+'] ==> parsed_u64(s.push(c), radix) == parsed_u64(seq![c], radix),
        s != seq!['+'] ==> parsed_u64(s.push(c), radix) == match (
            parsed_u64(s, radix),
            parsed_u64(seq![c], radix),
        ) {
            (Some(high), Some(low)) => if high * radix + low <= u64::MAX {
                Some((high * radix + low) as u64)
            } else {
                None
            },
            _ => None,
        },
{
    let longer = s.push(c);
    let digits = unsigned_part(s);
    assert(longer.drop_last() =~= s);
    assert(seq![c].drop_last() =~= Seq::<char>::empty());
    reveal_with_fuel(digits_value, 2);
    if c == '+' {
        assert(unsigned_part(seq![c]) =~= Seq::<char>::empty());
        assert(digit_value(c, radix) is None);
    }
    if s[0] == '+' {
        assert(unsigned_part(longer) =~= digits.push(c));
    } else {
        assert(unsigned_part(longer) =~= digits.push(c));
    }
    assert(digits.push(c).drop_last() =~= digits);
    if s == seq!['+'] {
        assert(digits =~= Seq::<char>::empty());
        assert(digits.push(c) =~= seq![c]);
        if c == '+' {
            assert(digits_value(seq![c], radix) is None);
        }
    } else {
        if digits.len() == 0 {
            assert(s =~= seq!['+']);
        }
        lemma_digits_nonnegative(digits, radix);
        if digits_value(digits, radix) is Some {
            let high = digits_value(digits, radix)->0;
            if high > u64::MAX {
                assert(high * radix >= high) by (nonlinear_arith)
                    requires
                        high >= 0,
                        radix >= 1,
                ;
            }
        }
    }
}

/// A number in decimal reads back as itself, has only digits, and has no leading
/// zero unless it is zero.
pub proof fn law_decimal_reads_back(n: u64)
    ensures
        parsed_u64(decimal(n as nat), 10) == Some(n),
        decimal(n as nat).len() > 0,
        forall|i: int|
            0 <= i < decimal(n as nat).len() ==> '0' <= #[trigger] decimal(n as nat)[i] <= '9',
        decimal(n as nat)[0] == '0' ==> n == 0 && decimal(n as nat) == seq!['0'],
    decreases n,
{
    lemma_decimal_digits(n as nat);
    let text = decimal(n as nat);
    assert('0' <= text[0] <= '9');
    assert(unsigned_part(text) == text);
}

proof fn lemma_decimal_digits(n: nat)
    ensures
        digits_value(decimal(n), 10) == Some(n as int),
        decimal(n).len() > 0,
        forall|i: int| 0 <= i < decimal(n).len() ==> '0' <= #[trigger] decimal(n)[i] <= '9',
        decimal(n)[0] == '0' ==> n == 0 && decimal(n) == seq!['0'],
    decreases n,
{
    if n < 10 {
        assert(decimal(n).drop_last() =~= Seq::<char>::empty());
        reveal_with_fuel(digits_value, 2);
    } else {
        lemma_decimal_digits(n / 10);
        let high = decimal(n / 10);
        let text = decimal(n);
        assert(text.drop_last() =~= high);
        assert(text[0] == high[0]);
        assert forall|i: int| 0 <= i < text.len() implies '0' <= #[trigger] text[i] <= '9' by {
            if i < high.len() {
                assert(text[i] == high[i]);
            }
        }
    }
}

/// A negative number in decimal is a minus sign and the number without it.
pub proof fn law_signed_decimal_has_a_sign(n: i64)
    ensures
        n >= 0 ==> signed_decimal(n as int) == decimal(n as nat),
        n < 0 ==> signed_decimal(n as int) == seq!['-'] + decimal((-n) as nat),
{
}

} // verus!
