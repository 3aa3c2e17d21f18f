//! Character-level helpers on names: ASCII lowering, suffixes, decimal numerals.

use vstd::prelude::*;

verus! {

broadcast use vstd::seq::group_seq_axioms;

// ---------------------------------------------------------------------------
// Models

/// `c` with an ASCII capital letter replaced by its small one.
pub open spec fn lower_char(c: char) -> char {
    if 'A' <= c && c <= 'Z' {
        ((c as u8) + 32) as u8 as char
    } else {
        c
    }
}

/// `s` with every ASCII capital letter replaced by its small one.
pub open spec fn lower(s: Seq<char>) -> Seq<char> {
    s.map_values(|c: char| lower_char(c))
}

/// Whether `s` ends in `suffix` once its ASCII letters are lowered.
pub open spec fn ends_in(s: Seq<char>, suffix: Seq<char>) -> bool {
    suffix.is_suffix_of(lower(s))
}

/// Whether the name, where there is one, ends in `suffix` ignoring ASCII case.
pub open spec fn name_ends_in(name: Option<Seq<char>>, suffix: Seq<char>) -> bool {
    name matches Some(s) && ends_in(s, suffix)
}

/// The characters of an optional string.
pub open spec fn opt_chars(name: Option<&str>) -> Option<Seq<char>> {
    match name {
        Some(s) => Some(s@),
        None => None,
    }
}

/// Whether `c` is one of `0` to `9`.
pub open spec fn is_digit(c: char) -> bool {
    '0' <= c && c <= '9'
}

/// Whether every character of `s` is a decimal digit.
pub open spec fn all_digits(s: Seq<char>) -> bool {
    forall|i: int| 0 <= i < s.len() ==> is_digit(#[trigger] s[i])
}

/// The number that a string of decimal digits writes down.
pub open spec fn numeral(s: Seq<char>) -> nat
    decreases s.len(),
{
    if s.len() == 0 {
        0
    } else {
        numeral(s.drop_last()) * 10 + (s.last() as nat - '0' as nat) as nat
    }
}

/// The number that `s` writes down, where it is all digits and fits 64 bits.
pub open spec fn numeral_u64(s: Seq<char>) -> Option<u64> {
    if all_digits(s) && numeral(s) <= u64::MAX {
        Some(numeral(s) as u64)
    } else {
        None
    }
}

/// The decimal digit `d` as a character.
pub open spec fn digit_char(d: nat) -> char {
    (d + '0' as nat) as u8 as char
}

/// `n` written in decimal, without leading zeros.
pub open spec fn decimal(n: nat) -> Seq<char>
    decreases n,
{
    if n < 10 {
        seq![digit_char(n)]
    } else {
        decimal(n / 10).push(digit_char(n % 10))
    }
}

/// Where the last occurrence of `pattern` in `s` begins.
pub open spec fn rfind_chars(s: Seq<char>, pattern: Seq<char>) -> Option<int>
    decreases s.len(),
{
    if pattern.is_suffix_of(s) {
        Some(s.len() - pattern.len())
    } else if s.len() == 0 {
        None
    } else {
        rfind_chars(s.drop_last(), pattern)
    }
}

/// What follows the last dot of a name.
pub open spec fn extension_chars(s: Seq<char>) -> Option<Seq<char>> {
    match rfind_chars(s, "."@) {
        Some(i) => Some(s.skip(i + 1)),
        None => None,
    }
}

// ---------------------------------------------------------------------------
// Laws

/// Reading back the decimal form of a number gives the number, and every
/// character of that form is a digit.
pub proof fn decimal_reads_back(n: nat)
    ensures
        decimal(n).len() > 0,
        all_digits(decimal(n)),
        numeral(decimal(n)) == n,
    decreases n,
{
    if n < 10 {
        reveal_with_fuel(numeral, 2);
        assert(decimal(n).drop_last() =~= Seq::<char>::empty());
    } else {
        decimal_reads_back(n / 10);
        assert(decimal(n).drop_last() =~= decimal(n / 10));
    }
}

// ---------------------------------------------------------------------------
// Executable forms

/// `c` with an ASCII capital letter replaced by its small one.
pub fn to_lower(c: char) -> (r: char)
    ensures
        r == lower_char(c),
{
    if 'A' <= c && c <= 'Z' {
        ((c as u8) + 32) as char
    } else {
        c
    }
}

/// The characters of `s`.
pub fn chars_of(s: &str) -> (r: Vec<char>)
    ensures
        r@ == s@,
{
    let mut v: Vec<char> = Vec::new();
    for c in it: s.chars()
        invariant
            it.seq() == s@,
            v@ == s@.take(it.index() as int),
    {
        v.push(c);
        assert(s@.take(it.index() + 1) =~= s@.take(it.index() as int).push(c));
    }
    assert(s@.take(s@.len() as int) =~= s@);
    v
}

/// The characters of `s` with the ASCII letters lowered.
pub fn lower_chars_of(s: &str) -> (r: Vec<char>)
    ensures
        r@ == lower(s@),
{
    let mut v: Vec<char> = Vec::new();
    for c in it: s.chars()
        invariant
            it.seq() == s@,
            v@ == lower(s@.take(it.index() as int)),
    {
        let l: char = to_lower(c);
        v.push(l);
        assert(lower(s@.take(it.index() + 1)) =~= lower(s@.take(it.index() as int)).push(l));
    }
    assert(s@.take(s@.len() as int) =~= s@);
    v
}

/// Whether `t` stands in `s` at `base`.
fn stands_at(s: &Vec<char>, base: usize, t: &Vec<char>) -> (r: bool)
    requires
        base + t@.len() <= s@.len(),
    ensures
        r == (s@.subrange(base as int, base + t@.len()) == t@),
{
    let ghost window = s@.subrange(base as int, base + t@.len());
    let mut i: usize = 0;
    while i < t.len()
        invariant
            i <= t.len(),
            base + t.len() <= s.len(),
            window == s@.subrange(base as int, base + t@.len()),
            forall|j: int| 0 <= j < i ==> t@[j] == window[j],
        decreases t.len() - i,
    {
        if s[base + i] != t[i] {
            assert(window[i as int] != t@[i as int]);
            return false;
        }
        i = i + 1;
    }
    assert(t@ =~= window);
    true
}

/// Whether `s` ends in `suffix`.
pub fn has_suffix(s: &Vec<char>, suffix: &str) -> (r: bool)
    ensures
        r == suffix@.is_suffix_of(s@),
{
    let t: Vec<char> = chars_of(suffix);
    t.len() <= s.len() && stands_at(s, s.len() - t.len(), &t)
}

/// Where the last occurrence of `pattern` in `s` begins.
pub fn rfind(s: &Vec<char>, pattern: &str) -> (r: Option<usize>)
    ensures
        match r {
            Some(i) => rfind_chars(s@, pattern@) == Some(i as int) && i + pattern@.len()
                <= s@.len(),
            None => rfind_chars(s@, pattern@) is None,
        },
{
    let t: Vec<char> = chars_of(pattern);
    let mut end: usize = s.len();
    assert(s@.take(end as int) =~= s@);
    loop
        invariant
            end <= s.len(),
            t@ == pattern@,
            rfind_chars(s@, pattern@) == rfind_chars(s@.take(end as int), pattern@),
        decreases end,
    {
        let ghost head = s@.take(end as int);
        if t.len() <= end {
            assert(head.subrange(end - t@.len(), end as int) =~= s@.subrange(
                end - t@.len(),
                end as int,
            ));
            if stands_at(s, end - t.len(), &t) {
                return Some(end - t.len());
            }
        }
        if end == 0 {
            return None;
        }
        assert(head.drop_last() =~= s@.take(end - 1));
        end = end - 1;
    }
}

proof fn numeral_grows(s: Seq<char>, n: int)
    requires
        0 <= n <= s.len(),
        all_digits(s),
    ensures
        numeral(s.take(n)) <= numeral(s),
    decreases s.len(),
{
    if n == s.len() {
        assert(s.take(n) =~= s);
    } else {
        numeral_grows(s.drop_last(), n);
        assert(s.drop_last().take(n) =~= s.take(n));
        assert(is_digit(s[s.len() - 1]));
    }
}

/// The number written by the characters of `s` from `from` on, where they are
/// all digits and it fits 64 bits.
pub fn parse_from(s: &Vec<char>, from: usize) -> (r: Option<u64>)
    requires
        from <= s@.len(),
    ensures
        r == numeral_u64(s@.skip(from as int)),
{
    let ghost digits = s@.skip(from as int);
    let mut i: usize = from;
    while i < s.len()
        invariant
            from <= i <= s.len(),
            digits == s@.skip(from as int),
            forall|j: int| from <= j < i ==> is_digit(#[trigger] s@[j]),
        decreases s.len() - i,
    {
        if s[i] < '0' || '9' < s[i] {
            assert(!is_digit(digits[i - from]));
            return None;
        }
        i = i + 1;
    }
    assert(all_digits(digits));
    let mut value: u64 = 0;
    let mut k: usize = from;
    while k < s.len()
        invariant
            from <= k <= s.len(),
            digits == s@.skip(from as int),
            all_digits(digits),
            value == numeral(digits.take(k - from)),
        decreases s.len() - k,
    {
        let c: char = s[k];
        assert(is_digit(digits[k - from]));
        let d: u64 = (c as u8 - 48) as u64;
        proof {
            let next = digits.take(k - from + 1);
            assert(next.drop_last() =~= digits.take(k - from));
            assert(next.last() == c);
            numeral_grows(digits, k - from + 1);
        }
        match value.checked_mul(10) {
            Some(tens) => match tens.checked_add(d) {
                Some(sum) => {
                    value = sum;
                },
                None => {
                    return None;
                },
            },
            None => {
                return None;
            },
        }
        k = k + 1;
    }
    assert(digits.take(digits.len() as int) =~= digits);
    Some(value)
}

/// The decimal digit `d` as a one-character string.
fn digit_str(d: u64) -> (r: &'static str)
    requires
        d < 10,
    ensures
        r@ == seq![digit_char(d as nat)],
{
    proof {
        reveal_strlit("0");
        reveal_strlit("1");
        reveal_strlit("2");
        reveal_strlit("3");
        reveal_strlit("4");
        reveal_strlit("5");
        reveal_strlit("6");
        reveal_strlit("7");
        reveal_strlit("8");
        reveal_strlit("9");
    }
    match d {
        0 => "0",
        1 => "1",
        2 => "2",
        3 => "3",
        4 => "4",
        5 => "5",
        6 => "6",
        7 => "7",
        8 => "8",
        _ => "9",
    }
}

/// Append `n` in decimal to `out`.
pub fn append_decimal(out: &mut String, n: u64)
    ensures
        final(out)@ == old(out)@ + decimal(n as nat),
    decreases n,
{
    if n < 10 {
        out.append(digit_str(n));
    } else {
        append_decimal(out, n / 10);
        out.append(digit_str(n % 10));
        assert(decimal(n as nat) =~= decimal((n / 10) as nat) + seq![
            digit_char((n % 10) as nat),
        ]);
    }
}

} // verus!
