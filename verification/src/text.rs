//! Text helpers: whitespace trimming, unsigned number parsing and number formatting, as used for
//! sysfs attribute contents, sysfs directory names and device paths.

use vstd::prelude::*;

verus! {

/// Whether `c` is a whitespace character, that is one with the Unicode `White_Space` property.
pub open spec fn is_whitespace(c: char) -> bool {
    ||| '\u{9}' <= c <= '\u{d}'
    ||| c == ' '
    ||| c == '\u{85}'
    ||| c == '\u{a0}'
    ||| c == '\u{1680}'
    ||| '\u{2000}' <= c <= '\u{200a}'
    ||| c == '\u{2028}'
    ||| c == '\u{2029}'
    ||| c == '\u{202f}'
    ||| c == '\u{205f}'
    ||| c == '\u{3000}'
}

/// Executable check for [`is_whitespace`].
pub fn char_is_whitespace(c: char) -> (res: bool)
    ensures
        res == is_whitespace(c),
{
    ('\u{9}' <= c && c <= '\u{d}') || c == ' ' || c == '\u{85}' || c == '\u{a0}' || c == '\u{1680}'
        || ('\u{2000}' <= c && c <= '\u{200a}') || c == '\u{2028}' || c == '\u{2029}' || c
        == '\u{202f}' || c == '\u{205f}' || c == '\u{3000}'
}

/// `s` without its trailing whitespace.
pub open spec fn trim_end(s: Seq<char>) -> Seq<char>
    decreases s.len(),
{
    if s.len() > 0 && is_whitespace(s.last()) {
        trim_end(s.drop_last())
    } else {
        s
    }
}

/// Number of characters that remain of `s` when trailing whitespace is removed.
pub fn trim_end_len(s: &str) -> (n: usize)
    ensures
        n <= s@.len(),
        trim_end(s@) == s@.take(n as int),
{
    let mut n = s.unicode_len();
    assert(s@.take(n as int) =~= s@);
    while n > 0 && char_is_whitespace(s.get_char(n - 1))
        invariant
            n <= s@.len(),
            trim_end(s@) == trim_end(s@.take(n as int)),
        decreases n,
    {
        assert(s@.take(n as int).drop_last() =~= s@.take(n - 1));
        n = n - 1;
    }
    n
}

/// Whether the characters of `s` from `start` to its end, with trailing whitespace removed, are
/// exactly `word`.
pub fn trimmed_equals(s: &str, word: &str) -> (res: bool)
    ensures
        res == (trim_end(s@) == word@),
{
    let n = trim_end_len(s);
    let m = word.unicode_len();
    if n != m {
        assert(s@.take(n as int).len() == n);
        return false;
    }
    let mut i: usize = 0;
    while i < n
        invariant
            n == m,
            n <= s@.len(),
            trim_end(s@) == s@.take(n as int),
            m == word@.len(),
            i <= n,
            forall|j: int| 0 <= j < i ==> s@[j] == word@[j],
        decreases n - i,
    {
        if s.get_char(i) != word.get_char(i) {
            assert(s@.take(n as int)[i as int] != word@[i as int]);
            return false;
        }
        i = i + 1;
    }
    assert(s@.take(n as int) =~= word@);
    true
}

/// Whether `s` begins with `prefix`.
pub open spec fn has_prefix(s: Seq<char>, prefix: Seq<char>) -> bool {
    prefix.len() <= s.len() && s.take(prefix.len() as int) == prefix
}

/// Executable check for [`has_prefix`].
pub fn starts_with(s: &str, prefix: &str) -> (res: bool)
    ensures
        res == has_prefix(s@, prefix@),
{
    let n = s.unicode_len();
    let m = prefix.unicode_len();
    if m > n {
        return false;
    }
    let mut i: usize = 0;
    while i < m
        invariant
            m <= n,
            n == s@.len(),
            m == prefix@.len(),
            i <= m,
            forall|j: int| 0 <= j < i ==> s@[j] == prefix@[j],
        decreases m - i,
    {
        if s.get_char(i) != prefix.get_char(i) {
            assert(s@.take(m as int)[i as int] != prefix@[i as int]);
            return false;
        }
        i = i + 1;
    }
    assert(s@.take(m as int) =~= prefix@);
    true
}

/// Why text did not parse as an unsigned number.
///
/// These are the kinds of error that parsing an unsigned integer from a string reports.
#[derive(Debug, Clone, Copy, PartialEq, Eq)]
pub enum NumberError {
    /// The text was empty.
    Empty,
    /// The text held a character that is not a digit of the radix.
    InvalidDigit,
    /// The number does not fit in the target type.
    PosOverflow,
}

/// Value of `c` as a digit in `radix` (at most 36), like `char::to_digit`.
pub open spec fn digit_value(c: char, radix: u32) -> Option<u32> {
    let v: int = if '0' <= c <= '9' {
        c as int - '0' as int
    } else if 'a' <= c <= 'z' {
        c as int - 'a' as int + 10
    } else if 'A' <= c <= 'Z' {
        c as int - 'A' as int + 10
    } else {
        36
    };
    if v < radix {
        Some(v as u32)
    } else {
        None
    }
}

/// Executable form of [`digit_value`].
pub fn to_digit(c: char, radix: u32) -> (res: Option<u32>)
    requires
        2 <= radix <= 36,
    ensures
        res == digit_value(c, radix),
{
    let v: u32 = if '0' <= c && c <= '9' {
        (c as u32) - ('0' as u32)
    } else if 'a' <= c && c <= 'z' {
        (c as u32) - ('a' as u32) + 10
    } else if 'A' <= c && c <= 'Z' {
        (c as u32) - ('A' as u32) + 10
    } else {
        36
    };
    if v < radix {
        Some(v)
    } else {
        None
    }
}

/// Reads the digits `d` from left to right onto `acc`, failing at the first character that is not
/// a digit or at the first point where the value exceeds `max`.
pub open spec fn scan_digits(d: Seq<char>, radix: u32, max: int, acc: int) -> Result<int, NumberError>
    decreases d.len(),
{
    if d.len() == 0 {
        Ok(acc)
    } else {
        match digit_value(d[0], radix) {
            None => Err(NumberError::InvalidDigit),
            Some(x) => if acc * radix + x > max {
                Err(NumberError::PosOverflow)
            } else {
                scan_digits(d.drop_first(), radix, max, acc * radix + x)
            },
        }
    }
}

/// Parses `s` as an unsigned number in `radix` that must not exceed `max`, like the standard
/// library's `from_str_radix` for unsigned integer types: an optional leading `+`, then at least
/// one digit.
pub open spec fn parse_unsigned(s: Seq<char>, radix: u32, max: int) -> Result<int, NumberError> {
    if s.len() == 0 {
        Err(NumberError::Empty)
    } else if s.len() == 1 && (s[0] == '+' || s[0] == '-') {
        Err(NumberError::InvalidDigit)
    } else if s[0] == '+' {
        scan_digits(s.drop_first(), radix, max, 0)
    } else {
        scan_digits(s, radix, max, 0)
    }
}

/// Parses the characters of `s` from `start` to `end` as [`parse_unsigned`] does.
pub fn parse_unsigned_range(s: &str, start: usize, end: usize, radix: u32, max: u64) -> (res:
    Result<u64, NumberError>)
    requires
        start <= end <= s@.len(),
        2 <= radix <= 36,
    ensures
        match parse_unsigned(s@.subrange(start as int, end as int), radix, max as int) {
            Ok(v) => 0 <= v <= max && res == Ok::<u64, NumberError>(v as u64),
            Err(e) => res == Err::<u64, NumberError>(e),
        },
{
    let ghost t = s@.subrange(start as int, end as int);
    if start == end {
        return Err(NumberError::Empty);
    }
    let first = s.get_char(start);
    if end - start == 1 && (first == '+' || first == '-') {
        return Err(NumberError::InvalidDigit);
    }
    let mut i = start;
    if first == '+' {
        i = start + 1;
        assert(t.drop_first() =~= s@.subrange(i as int, end as int));
    } else {
        assert(t =~= s@.subrange(i as int, end as int));
    }
    let ghost d = s@.subrange(i as int, end as int);
    assert(parse_unsigned(t, radix, max as int) == scan_digits(d, radix, max as int, 0));
    let mut acc: u64 = 0;
    while i < end
        invariant
            start <= i <= end <= s@.len(),
            2 <= radix <= 36,
            acc <= max,
            t == s@.subrange(start as int, end as int),
            parse_unsigned(t, radix, max as int) == scan_digits(d, radix, max as int, 0),
            scan_digits(d, radix, max as int, 0) == scan_digits(
                s@.subrange(i as int, end as int),
                radix,
                max as int,
                acc as int,
            ),
        decreases end - i,
    {
        let c = s.get_char(i);
        let ghost sub = s@.subrange(i as int, end as int);
        assert(sub[0] == c);
        assert(sub.drop_first() =~= s@.subrange(i + 1, end as int));
        match to_digit(c, radix) {
            None => {
                assert(scan_digits(sub, radix, max as int, acc as int) == Err::<int, NumberError>(
                    NumberError::InvalidDigit,
                ));
                return Err(NumberError::InvalidDigit);
            },
            Some(x) => {
                proof {
                    assert(acc * radix <= u64::MAX * 36) by (nonlinear_arith)
                        requires
                            acc <= u64::MAX,
                            radix <= 36,
                    ;
                }
                let next: u128 = (acc as u128) * (radix as u128) + (x as u128);
                if next > max as u128 {
                    assert(scan_digits(sub, radix, max as int, acc as int) == Err::<
                        int,
                        NumberError,
                    >(NumberError::PosOverflow));
                    return Err(NumberError::PosOverflow);
                }
                acc = next as u64;
                i = i + 1;
            },
        }
    }
    assert(s@.subrange(i as int, end as int).len() == 0);
    Ok(acc)
}

/// The character for `d` (below 16) as a lower case hexadecimal digit.
pub open spec fn hex_char(d: int) -> char {
    if d < 10 {
        ('0' as int + d) as char
    } else {
        ('a' as int + d - 10) as char
    }
}

/// The lower case hexadecimal form of `v` in exactly `n` digits, padded with zeros (the high digits
/// that do not fit are dropped, which never happens where `v < 16^n`).
pub open spec fn hex_fixed(v: nat, n: nat) -> Seq<char>
    decreases n,
{
    if n == 0 {
        Seq::empty()
    } else {
        hex_fixed(v / 16, (n - 1) as nat).push(hex_char(v as int % 16))
    }
}

/// The decimal form of `v`, without leading zeros.
pub open spec fn decimal(v: nat) -> Seq<char>
    decreases v,
{
    if v < 10 {
        seq![hex_char(v as int)]
    } else {
        decimal(v / 10).push(hex_char(v as int % 10))
    }
}

/// Appends the digit `d` (below 16) in lower case hexadecimal.
pub fn push_digit(s: &mut String, d: u64)
    requires
        d < 16,
    ensures
        final(s)@ == old(s)@.push(hex_char(d as int)),
{
    let digit = match d {
        0 => "0",
        1 => "1",
        2 => "2",
        3 => "3",
        4 => "4",
        5 => "5",
        6 => "6",
        7 => "7",
        8 => "8",
        9 => "9",
        10 => "a",
        11 => "b",
        12 => "c",
        13 => "d",
        14 => "e",
        _ => "f",
    };
    proof {
        reveal_strlit("0");
        reveal_strlit("1");
        reveal_strlit("2");
        reveal_strlit("3");
        reveal_strlit("4");
        reveal_strlit("5");
        reveal_strlit("6");
        reveal_strlit("7");
        reveal_strlit("8");
        reveal_strlit("9");
        reveal_strlit("a");
        reveal_strlit("b");
        reveal_strlit("c");
        reveal_strlit("d");
        reveal_strlit("e");
        reveal_strlit("f");
    }
    s.append(digit);
    assert(digit@ =~= seq![hex_char(d as int)]);
}

/// Appends `v` in lower case hexadecimal with exactly `n` digits.
pub fn push_hex_fixed(s: &mut String, v: u64, n: u32)
    ensures
        final(s)@ == old(s)@ + hex_fixed(v as nat, n as nat),
    decreases n,
{
    if n > 0 {
        push_hex_fixed(s, v / 16, n - 1);
        push_digit(s, v % 16);
    }
    assert(final(s)@ =~= old(s)@ + hex_fixed(v as nat, n as nat));
}

/// Appends `v` in decimal.
pub fn push_decimal(s: &mut String, v: u64)
    ensures
        final(s)@ == old(s)@ + decimal(v as nat),
    decreases v,
{
    if v >= 10 {
        push_decimal(s, v / 10);
    }
    push_digit(s, v % 10);
    assert(final(s)@ =~= old(s)@ + decimal(v as nat));
}

proof fn lemma_scan_push(d: Seq<char>, c: char, radix: u32, max: int, acc: int)
    ensures
        scan_digits(d.push(c), radix, max, acc) == match scan_digits(d, radix, max, acc) {
            Ok(a) => scan_digits(seq![c], radix, max, a),
            Err(e) => Err(e),
        },
    decreases d.len(),
{
    if d.len() == 0 {
        assert(d.push(c) =~= seq![c]);
    } else {
        assert(d.push(c).drop_first() =~= d.drop_first().push(c));
        match digit_value(d[0], radix) {
            None => {},
            Some(x) => {
                if acc * radix + x <= max {
                    lemma_scan_push(d.drop_first(), c, radix, max, acc * radix + x);
                }
            },
        }
    }
}

/// The digits of [`hex_fixed`] read back as hexadecimal give the value, where it fits.
pub proof fn lemma_scan_hex_fixed(v: nat, n: nat, max: int)
    requires
        v <= max,
        v < vstd::arithmetic::power::pow(16, n),
    ensures
        scan_digits(hex_fixed(v, n), 16, max, 0) == Ok::<int, NumberError>(v as int),
    decreases n,
{
    reveal(vstd::arithmetic::power::pow);
    if n == 0 {
    } else {
        let h = v / 16;
        assert(h < vstd::arithmetic::power::pow(16, (n - 1) as nat)) by (nonlinear_arith)
            requires
                v < 16 * vstd::arithmetic::power::pow(16, (n - 1) as nat),
                h == v / 16,
        ;
        lemma_scan_hex_fixed(h, (n - 1) as nat, max);
        lemma_scan_push(hex_fixed(h, (n - 1) as nat), hex_char(v as int % 16), 16, max, 0);
        let c = hex_char(v as int % 16);
        assert(digit_value(c, 16) == Some((v % 16) as u32));
        assert(seq![c].drop_first() =~= Seq::<char>::empty());
        assert(h * 16 + v % 16 == v);
        assert(scan_digits(seq![c].drop_first(), 16, max, v as int) == Ok::<int, NumberError>(
            v as int,
        ));
        assert(scan_digits(seq![c], 16, max, h as int) == Ok::<int, NumberError>(v as int));
    }
}

/// The digits of [`decimal`] read back as decimal give the value, where it fits.
pub proof fn lemma_scan_decimal(v: nat, max: int)
    requires
        v <= max,
    ensures
        scan_digits(decimal(v), 10, max, 0) == Ok::<int, NumberError>(v as int),
    decreases v,
{
    if v < 10 {
        let c = hex_char(v as int);
        assert(digit_value(c, 10) == Some(v as u32));
        assert(seq![c].drop_first() =~= Seq::<char>::empty());
        assert(scan_digits(seq![c].drop_first(), 10, max, v as int) == Ok::<int, NumberError>(
            v as int,
        ));
    } else {
        let h = v / 10;
        lemma_scan_decimal(h, max);
        lemma_scan_push(decimal(h), hex_char(v as int % 10), 10, max, 0);
        let c = hex_char(v as int % 10);
        assert(digit_value(c, 10) == Some((v % 10) as u32));
        assert(seq![c].drop_first() =~= Seq::<char>::empty());
        assert(h * 10 + v % 10 == v);
        assert(scan_digits(seq![c].drop_first(), 10, max, v as int) == Ok::<int, NumberError>(
            v as int,
        ));
        assert(scan_digits(seq![c], 10, max, h as int) == Ok::<int, NumberError>(v as int));
    }
}

} // verus!

verus! {

/// `base` joined with the relative path `name`, the way `Path::join` puts a separator between
/// them.
pub open spec fn path_join(base: Seq<char>, name: Seq<char>) -> Seq<char> {
    if base.len() == 0 || base.last() == '/' {
        base + name
    } else {
        base + seq!['/'] + name
    }
}

/// Executable form of [`path_join`].
pub fn join_path(base: &str, name: &str) -> (res: String)
    ensures
        res@ == path_join(base@, name@),
{
    let mut res = String::from_str(base);
    let n = base.unicode_len();
    if n > 0 && base.get_char(n - 1) != '/' {
        res.append("/");
        proof {
            reveal_strlit("/");
        }
    }
    res.append(name);
    res
}

/// Whether `s` ends with `suffix`.
pub open spec fn has_suffix(s: Seq<char>, suffix: Seq<char>) -> bool {
    suffix.len() <= s.len() && s.skip(s.len() - suffix.len()) == suffix
}

/// Executable check for [`has_suffix`].
pub fn ends_with(s: &str, suffix: &str) -> (res: bool)
    ensures
        res == has_suffix(s@, suffix@),
{
    let n = s.unicode_len();
    let m = suffix.unicode_len();
    if m > n {
        return false;
    }
    let off = n - m;
    let mut i: usize = 0;
    while i < m
        invariant
            m <= n,
            off == n - m,
            n == s@.len(),
            m == suffix@.len(),
            i <= m,
            forall|j: int| 0 <= j < i ==> s@[off + j] == suffix@[j],
        decreases m - i,
    {
        if s.get_char(off + i) != suffix.get_char(i) {
            assert(s@.skip(off as int)[i as int] != suffix@[i as int]);
            return false;
        }
        i = i + 1;
    }
    assert(s@.skip(off as int) =~= suffix@);
    true
}

/// The texts of the strings `v`.
pub open spec fn texts(v: Seq<String>) -> Seq<Seq<char>> {
    v.map_values(|s: String| s@)
}

} // verus!
