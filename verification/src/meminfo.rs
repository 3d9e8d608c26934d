//! How much memory is free, read from the text that the kernel gives.

use vstd::prelude::*;

use crate::text::{
    chars_of, cut, decimal, from_decimal, has_prefix, is_digit, is_white_space,
    law_decimal_reads_back, law_prefix_is_in_front, same_text, text_of, trim_start, trimmed,
    without_prefix,
};

verus! {

broadcast use vstd::string::group_string_axioms;

/// Whether `s` consists of decimal digits.
pub open spec fn all_digits(s: Seq<char>) -> bool {
    forall|i: int| 0 <= i < s.len() ==> is_digit(#[trigger] s[i])
}

/// `s` without its sign, if it has one.
pub open spec fn unsigned(s: Seq<char>) -> Seq<char> {
    if s.len() > 0 && (s[0] == '-' || s[0] == '+') {
        s.skip(1)
    } else {
        s
    }
}

/// The number that a text of an optional sign and decimal digits stands for.
pub open spec fn signed_decimal(s: Seq<char>) -> Option<int> {
    let digits = unsigned(s);
    if digits.len() == 0 || !all_digits(digits) {
        None
    } else if s[0] == '-' {
        Some(-from_decimal(digits))
    } else {
        Some(from_decimal(digits))
    }
}

/// The number that a text stands for, if it is one that 64 bits hold.
pub open spec fn read_i64(s: Seq<char>) -> Option<int> {
    match signed_decimal(s) {
        Some(n) => if i64::MIN <= n <= i64::MAX {
            Some(n)
        } else {
            None
        },
        None => None,
    }
}

proof fn lemma_prefix_is_smaller(s: Seq<char>, i: int)
    requires
        0 <= i <= s.len(),
        all_digits(s),
    ensures
        0 <= from_decimal(s.take(i)) <= from_decimal(s),
    decreases s.len(),
{
    if s.len() > 0 {
        let init = s.drop_last();
        if i == s.len() {
            assert(s.take(i) =~= s);
            lemma_prefix_is_smaller(init, init.len() as int);
            assert(init.take(init.len() as int) =~= init);
        } else {
            lemma_prefix_is_smaller(init, i);
            assert(init.take(i) =~= s.take(i));
        }
        assert(is_digit(s.last()));
    } else {
        assert(s.take(i) =~= s);
    }
}

/// The value of the digits from `from` on, or `None` where one of the characters is no digit, or
/// there is none, or the value is more than 64 bits hold.
fn digits_value(chars: &Vec<char>, from: usize) -> (res: Option<u64>)
    requires
        from <= chars@.len(),
    ensures
        ({
            let digits = chars@.skip(from as int);
            let good = digits.len() > 0 && all_digits(digits);
            match res {
                Some(v) => good && v == from_decimal(digits),
                None => !good || from_decimal(digits) > u64::MAX,
            }
        }),
{
    let n: usize = chars.len();
    let ghost digits = chars@.skip(from as int);
    if from == n {
        return None;
    }
    let mut value: u64 = 0;
    let mut big: bool = false;
    let mut i: usize = from;
    assert(digits.take(0) =~= Seq::empty());
    while i < n
        invariant
            from <= i <= n,
            n == chars@.len(),
            digits == chars@.skip(from as int),
            forall|k: int| 0 <= k < i - from ==> is_digit(#[trigger] digits[k]),
            !big ==> value == from_decimal(digits.take(i - from)),
            big ==> from_decimal(digits.take(i - from)) > u64::MAX,
        decreases n - i,
    {
        let c: char = chars[i];
        let ghost k = i - from;
        assert(digits[k] == c);
        if !('0' <= c && c <= '9') {
            assert(!is_digit(digits[k]));
            return None;
        }
        proof {
            assert(digits.take(k + 1).drop_last() =~= digits.take(k));
            assert(digits.take(k + 1).last() == c);
        }
        let d: u64 = c as u64 - 48;
        if !big {
            match value.checked_mul(10) {
                Some(tens) => match tens.checked_add(d) {
                    Some(next) => {
                        value = next;
                    },
                    None => {
                        big = true;
                    },
                },
                None => {
                    big = true;
                },
            }
        }
        i += 1;
    }
    assert(digits.take(n - from) =~= digits);
    if big {
        None
    } else {
        Some(value)
    }
}

/// Reads a number: an optional sign, then decimal digits. `None` for any other text, and for a number
/// that 64 bits do not hold.
pub fn parse_i64(s: &str) -> (res: Option<i64>)
    ensures
        match read_i64(s@) {
            Some(n) => res is Some && res->Some_0 == n,
            None => res is None,
        },
{
    let chars = chars_of(s);
    let n: usize = chars.len();
    let negative: bool = n > 0 && chars[0] == '-';
    let signed: bool = n > 0 && (chars[0] == '-' || chars[0] == '+');
    let from: usize = if signed {
        1
    } else {
        0
    };
    let ghost digits = chars@.skip(from as int);
    assert(digits =~= unsigned(s@));
    proof {
        if all_digits(digits) {
            lemma_prefix_is_smaller(digits, 0);
        }
    }
    match digits_value(&chars, from) {
        Some(v) => if negative {
            if v < 0x8000_0000_0000_0000 {
                Some(-(v as i64))
            } else if v == 0x8000_0000_0000_0000 {
                Some(i64::MIN)
            } else {
                None
            }
        } else if v <= 0x7fff_ffff_ffff_ffff {
            Some(v as i64)
        } else {
            None
        },
        None => None,
    }
}

/// `s` without any ` kB` at its end.
pub open spec fn without_unit(s: Seq<char>) -> Seq<char>
    decreases s.len(),
{
    if s.len() >= 3 && s.skip(s.len() - 3) == " kB"@ {
        without_unit(s.take(s.len() - 3))
    } else {
        s
    }
}

fn strip_unit<'a>(s: &'a str) -> (res: &'a str)
    ensures
        res@ == without_unit(s@),
{
    let mut rest = s;
    let mut n: usize = rest.unicode_len();
    while n >= 3
        invariant
            n == rest@.len(),
            without_unit(s@) == without_unit(rest@),
        decreases n,
    {
        let tail = rest.substring_char(n - 3, n);
        assert(tail@ =~= rest@.skip(n - 3));
        if !same_text(tail, " kB") {
            return rest;
        }
        let head = rest.substring_char(0, n - 3);
        assert(head@ =~= rest@.take(n - 3));
        rest = head;
        n = n - 3;
    }
    rest
}

/// The length of the first line.
pub open spec fn line_len(s: Seq<char>, i: int) -> int
    decreases s.len() - i,
{
    if i >= s.len() || s[i] == '\n' {
        i
    } else {
        line_len(s, i + 1)
    }
}

proof fn lemma_line_len(s: Seq<char>, i: int)
    requires
        0 <= i <= s.len(),
    ensures
        i <= line_len(s, i) <= s.len(),
    decreases s.len() - i,
{
    if i < s.len() && s[i] != '\n' {
        lemma_line_len(s, i + 1);
    }
}

/// What follows `MemAvailable:` on the first line that begins with it.
pub open spec fn available_entry(s: Seq<char>) -> Option<Seq<char>>
    decreases s.len(),
{
    let n = line_len(s, 0);
    let line = s.take(n);
    if has_prefix(line, "MemAvailable:"@) {
        Some(line.skip("MemAvailable:"@.len() as int))
    } else if 0 <= n < s.len() {
        available_entry(s.skip(n + 1))
    } else {
        None
    }
}

/// A number divided by 1024, rounded towards zero.
pub open spec fn in_mb(kb: int) -> int {
    if kb >= 0 {
        kb / 1024
    } else {
        -((-kb) / 1024)
    }
}

/// How many megabytes are free, as the text says; 0 where it does not say.
pub open spec fn available_mb(text: Seq<char>) -> int {
    match available_entry(text) {
        Some(rest) => match read_i64(trimmed(without_unit(trimmed(rest)))) {
            Some(kb) => in_mb(kb),
            None => 0,
        },
        None => 0,
    }
}

/// How many megabytes are free, as the text of `/proc/meminfo` says; 0 where it does not say.
pub fn parse_available_memory(text: &str) -> (res: i64)
    ensures
        res == available_mb(text@),
{
    let chars = chars_of(text);
    let total: usize = chars.len();
    let mut start: usize = 0;
    assert(chars@.skip(0) =~= text@);
    loop
        invariant
            start <= total,
            total == chars@.len(),
            available_entry(text@) == available_entry(chars@.skip(start as int)),
        decreases total - start,
    {
        let ghost s = chars@.skip(start as int);
        proof {
            lemma_line_len(s, 0);
        }
        let mut end: usize = start;
        while end < total && chars[end] != '\n'
            invariant
                start <= end <= total,
                total == chars@.len(),
                s == chars@.skip(start as int),
                line_len(s, 0) == line_len(s, end - start),
            decreases total - end,
        {
            end += 1;
        }
        let line_chars = cut(&chars, start, end);
        let line = text_of(&line_chars);
        assert(line@ =~= s.take(line_len(s, 0)));
        if let Some(rest) = without_prefix(line.as_str(), "MemAvailable:") {
            let amount = strip_unit(rest.trim()).trim();
            return match parse_i64(amount) {
                Some(kb) => to_mb(kb),
                None => 0,
            };
        }
        if end >= total {
            return 0;
        }
        proof {
            assert(s.skip(end - start + 1) =~= chars@.skip(end + 1));
        }
        start = end + 1;
    }
}

fn to_mb(kb: i64) -> (res: i64)
    ensures
        res == in_mb(kb as int),
{
    if kb >= 0 {
        kb / 1024
    } else {
        let wide: i128 = -(kb as i128);
        -((wide / 1024) as i64)
    }
}

proof fn lemma_digits_read(digits: Seq<char>)
    requires
        digits.len() > 0,
        all_digits(digits),
    ensures
        unsigned(digits) == digits,
        unsigned(seq!['-'] + digits) == digits,
        unsigned(seq!['+'] + digits) == digits,
        digits[0] != '-',
{
    assert(is_digit(digits[0]));
    assert((seq!['-'] + digits).skip(1) =~= digits);
    assert((seq!['+'] + digits).skip(1) =~= digits);
}

/// A number in decimal reads as that number, with a `+` in front too, and with a `-` in front as its
/// negative, where 64 bits hold it; else it does not read.
pub proof fn law_numbers_read_back(n: int)
    requires
        0 <= n,
    ensures
        read_i64(decimal(n)) == if n <= i64::MAX {
            Some(n)
        } else {
            None
        },
        read_i64(seq!['+'] + decimal(n)) == read_i64(decimal(n)),
        read_i64(seq!['-'] + decimal(n)) == if -n >= i64::MIN {
            Some(-n)
        } else {
            None
        },
{
    law_decimal_reads_back(n);
    lemma_digits_read(decimal(n));
}

/// A text that has anything but digits behind its first character, or no digit at all, does not read
/// as a number.
pub proof fn law_other_texts_do_not_read(s: Seq<char>, i: int)
    requires
        0 < i < s.len() && !is_digit(s[i]) || s.len() == 0 || s == seq!['-'] || s == seq!['+'],
    ensures
        read_i64(s) is None,
{
    if 0 < i < s.len() && !is_digit(s[i]) {
        let digits = unsigned(s);
        if s[0] == '-' || s[0] == '+' {
            assert(digits[i - 1] == s[i]);
        } else {
            assert(digits[i] == s[i]);
        }
    } else if s.len() == 1 {
        assert(unsigned(s).len() == 0);
    }
}

/// Kilobytes make a megabyte by the thousand and twenty-four, rounded towards zero, also below zero.
pub proof fn law_megabytes(kb: int)
    ensures
        kb >= 0 ==> 1024 * in_mb(kb) <= kb < 1024 * (in_mb(kb) + 1),
        in_mb(-kb) == -in_mb(kb),
{
}

/// A unit at the end does not count; a text that does not end with the unit stays as it is.
pub proof fn law_unit_does_not_count(s: Seq<char>)
    ensures
        without_unit(s + " kB"@) == without_unit(s),
        s.len() == 0 || s.last() != 'B' ==> without_unit(s) == s,
{
    reveal_strlit(" kB");
    let whole = s + " kB"@;
    assert(whole.skip(whole.len() - 3) =~= " kB"@);
    assert(whole.take(whole.len() - 3) =~= s);
    if s.len() >= 3 && s.skip(s.len() - 3) == " kB"@ {
        assert(s.last() == s.skip(s.len() - 3)[2]);
        assert(s.last() == 'B');
    }
}

proof fn lemma_line_end(line: Seq<char>, rest: Seq<char>, i: int)
    requires
        0 <= i <= line.len(),
        forall|k: int| 0 <= k < line.len() ==> #[trigger] line[k] != '\n',
    ensures
        line_len(line + seq!['\n'] + rest, i) == line.len(),
        line_len(line, i) == line.len(),
    decreases line.len() - i,
{
    let s = line + seq!['\n'] + rest;
    if i < line.len() {
        assert(s[i] == line[i]);
        lemma_line_end(line, rest, i + 1);
    }
}

/// A line that does not begin with `MemAvailable:` says nothing, wherever it stands; a text of such a
/// line alone says 0.
pub proof fn law_other_lines_say_nothing(line: Seq<char>, rest: Seq<char>)
    requires
        forall|k: int| 0 <= k < line.len() ==> #[trigger] line[k] != '\n',
        !has_prefix(line, "MemAvailable:"@),
    ensures
        available_mb(line + seq!['\n'] + rest) == available_mb(rest),
        available_mb(line) == 0,
{
    let s = line + seq!['\n'] + rest;
    lemma_line_end(line, rest, 0);
    assert(s.take(line.len() as int) =~= line);
    assert(s.skip(line.len() as int + 1) =~= rest);
    assert(line.take(line.len() as int) =~= line);
}

proof fn lemma_spaces_go(m: nat, s: Seq<char>)
    requires
        s.len() > 0,
        !is_white_space(s[0]),
    ensures
        trim_start(Seq::new(m, |i: int| ' ') + s) == s,
    decreases m,
{
    let whole = Seq::new(m, |i: int| ' ') + s;
    if m == 0 {
        assert(whole =~= s);
    } else {
        lemma_spaces_go((m - 1) as nat, s);
        assert(whole.drop_first() =~= Seq::new((m - 1) as nat, |i: int| ' ') + s);
        assert(whole[0] == ' ');
    }
}

/// The first line that begins with `MemAvailable:` says how many kilobytes are free, however many
/// spaces stand before the number and whatever follows the line.
pub proof fn law_available_line_is_read(kb: int, spaces: nat, rest: Seq<char>)
    requires
        0 <= kb <= i64::MAX,
    ensures
        available_mb(
            "MemAvailable:"@ + Seq::new(spaces, |i: int| ' ') + decimal(kb) + " kB"@ + seq!['\n']
                + rest,
        ) == kb / 1024,
{
    reveal_strlit("MemAvailable:");
    reveal_strlit(" kB");
    let head = "MemAvailable:"@;
    let pad = Seq::new(spaces, |i: int| ' ');
    let digits = decimal(kb);
    let amount = digits + " kB"@;
    let line = head + (pad + amount);
    let text = head + pad + digits + " kB"@ + seq!['\n'] + rest;
    law_decimal_reads_back(kb);
    assert(text =~= line + seq!['\n'] + rest);
    assert forall|k: int| 0 <= k < line.len() implies #[trigger] line[k] != '\n' by {
        if k >= head.len() + pad.len() {
            let j = k - head.len() - pad.len();
            if j < digits.len() {
                assert(line[k] == digits[j]);
                assert(is_digit(digits[j]));
            } else {
                assert(line[k] == " kB"@[j - digits.len()]);
            }
        } else if k >= head.len() {
            assert(line[k] == pad[k - head.len()]);
        } else {
            assert(line[k] == head[k]);
        }
    }
    lemma_line_end(line, rest, 0);
    assert(text.take(line.len() as int) =~= line);
    law_prefix_is_in_front(line, head, pad + amount);
    assert(available_entry(text) == Some(pad + amount));
    assert(is_digit(digits[0]));
    assert(is_digit(digits.last()));
    assert(amount[0] == digits[0]);
    assert(amount.last() == 'B');
    lemma_spaces_go(spaces, amount);
    assert(trimmed(pad + amount) == amount);
    law_unit_does_not_count(digits);
    assert(without_unit(amount) == digits);
    assert(trimmed(digits) == digits);
    law_numbers_read_back(kb);
}

} // verus!
