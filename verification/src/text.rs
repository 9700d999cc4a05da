//! Character-level helpers shared by the parsers and validators of the crate.
//!
//! Text is handled as sequences of Unicode scalar values (`Seq<char>`), which
//! is also the view Verus gives to `str` and `String`.
use vstd::prelude::*;
use vstd::std_specs::iter::IteratorSpec;

verus! {

broadcast use vstd::string::group_string_axioms;

// ---------------------------------------------------------------------------
// Character classes
// ---------------------------------------------------------------------------

/// `c` is one of `0`-`9`.
pub open spec fn is_digit(c: char) -> bool {
    '0' <= c && c <= '9'
}

/// `c` is one of `a`-`z`, `A`-`Z` or `0`-`9`.
pub open spec fn is_ascii_alphanumeric(c: char) -> bool {
    ('a' <= c && c <= 'z') || ('A' <= c && c <= 'Z') || is_digit(c)
}

/// `c` is one of `0`-`9`, `a`-`f` or `A`-`F`.
pub open spec fn is_hex_digit(c: char) -> bool {
    is_digit(c) || ('a' <= c && c <= 'f') || ('A' <= c && c <= 'F')
}

/// `c` has the Unicode general category `Cc` (control codes).
pub open spec fn is_control(c: char) -> bool {
    (c as u32) <= 0x1f || (0x7f <= (c as u32) && (c as u32) <= 0x9f)
}

/// `c` has the Unicode property `White_Space`.
pub open spec fn is_whitespace(c: char) -> bool {
    let v = c as u32;
    (0x09 <= v && v <= 0x0d) || v == 0x20 || v == 0x85 || v == 0xa0 || v == 0x1680 || (0x2000
        <= v && v <= 0x200a) || v == 0x2028 || v == 0x2029 || v == 0x202f || v == 0x205f || v
        == 0x3000
}

/// ASCII lower-casing of one character; other characters are unchanged.
pub open spec fn ascii_lower(c: char) -> char {
    if 'A' <= c && c <= 'Z' {
        ((c as u32) + 32) as char
    } else {
        c
    }
}

/// The ASCII lower-case form of a whole sequence.
pub open spec fn ascii_lower_seq(s: Seq<char>) -> Seq<char> {
    Seq::new(s.len(), |i: int| ascii_lower(s[i]))
}

/// Two sequences are equal when ASCII letters are compared without case.
pub open spec fn eq_ignore_ascii_case(a: Seq<char>, b: Seq<char>) -> bool {
    ascii_lower_seq(a) == ascii_lower_seq(b)
}

/// Every character of `s` is a decimal digit.
pub open spec fn all_digits(s: Seq<char>) -> bool {
    forall|i: int| 0 <= i < s.len() ==> is_digit(#[trigger] s[i])
}

/// The number written by the decimal digits of `s`.
pub open spec fn decimal_value(s: Seq<char>) -> nat
    decreases s.len(),
{
    if s.len() == 0 {
        0
    } else {
        decimal_value(s.drop_last()) * 10 + ((s.last() as u32) - ('0' as u32)) as nat
    }
}

/// What the standard library's `FromStr` for an unsigned integer type whose
/// largest value is `max` gives for `s`: an optional `+`, then at least one
/// decimal digit, and a value that fits.
pub open spec fn parse_unsigned(s: Seq<char>, max: nat) -> Option<nat> {
    let digits = if s.len() > 0 && s[0] == '+' {
        s.drop_first()
    } else {
        s
    };
    if digits.len() > 0 && all_digits(digits) && decimal_value(digits) <= max {
        Some(decimal_value(digits))
    } else {
        None
    }
}

/// The part of `s` before the first `sep` and the part after it.
pub open spec fn split_once(s: Seq<char>, sep: char) -> Option<(Seq<char>, Seq<char>)> {
    match s.index_of_first(sep) {
        Some(i) => Some((s.take(i), s.skip(i + 1))),
        None => None,
    }
}

/// `s` begins with `prefix`.
pub open spec fn starts_with(s: Seq<char>, prefix: Seq<char>) -> bool {
    prefix.len() <= s.len() && s.take(prefix.len() as int) == prefix
}

/// Index of the first character of `s` that is not whitespace (or `s.len()`).
pub open spec fn leading_whitespace(s: Seq<char>) -> int
    decreases s.len(),
{
    if s.len() > 0 && is_whitespace(s[0]) {
        1 + leading_whitespace(s.drop_first())
    } else {
        0
    }
}

/// Number of whitespace characters at the end of `s`.
pub open spec fn trailing_whitespace(s: Seq<char>) -> int
    decreases s.len(),
{
    if s.len() > 0 && is_whitespace(s.last()) {
        1 + trailing_whitespace(s.drop_last())
    } else {
        0
    }
}

/// `s` without leading and trailing Unicode whitespace, as `str::trim` gives it.
pub open spec fn trim(s: Seq<char>) -> Seq<char> {
    let start = leading_whitespace(s);
    if start == s.len() {
        Seq::empty()
    } else {
        s.subrange(start, s.len() - trailing_whitespace(s))
    }
}

// ---------------------------------------------------------------------------
// Executable helpers
// ---------------------------------------------------------------------------

pub fn is_digit_exec(c: char) -> (r: bool)
    ensures
        r == is_digit(c),
{
    '0' <= c && c <= '9'
}

pub fn is_ascii_alphanumeric_exec(c: char) -> (r: bool)
    ensures
        r == is_ascii_alphanumeric(c),
{
    ('a' <= c && c <= 'z') || ('A' <= c && c <= 'Z') || ('0' <= c && c <= '9')
}

pub fn is_hex_digit_exec(c: char) -> (r: bool)
    ensures
        r == is_hex_digit(c),
{
    ('0' <= c && c <= '9') || ('a' <= c && c <= 'f') || ('A' <= c && c <= 'F')
}

pub fn is_control_exec(c: char) -> (r: bool)
    ensures
        r == is_control(c),
{
    let v = c as u32;
    v <= 0x1f || (0x7f <= v && v <= 0x9f)
}

pub fn is_whitespace_exec(c: char) -> (r: bool)
    ensures
        r == is_whitespace(c),
{
    let v = c as u32;
    (0x09 <= v && v <= 0x0d) || v == 0x20 || v == 0x85 || v == 0xa0 || v == 0x1680 || (0x2000
        <= v && v <= 0x200a) || v == 0x2028 || v == 0x2029 || v == 0x202f || v == 0x205f || v
        == 0x3000
}

pub fn ascii_lower_exec(c: char) -> (r: char)
    ensures
        r == ascii_lower(c),
{
    if 'A' <= c && c <= 'Z' {
        let v = (c as u32) + 32;
        assert(v <= 0x7f);
        assert(v < 0xD800);
        (v as u8) as char
    } else {
        c
    }
}

/// Collects the characters of `s` into a vector.
pub fn chars_of(s: &str) -> (chars: Vec<char>)
    ensures
        chars@ == s@,
{
    let mut chars: Vec<char> = Vec::new();
    for c in it: s.chars()
        invariant
            chars@ == it.seq().take(it.index() as int),
            it.seq() == s@,
    {
        chars.push(c);
    }
    chars
}

/// Appends `c` to `s` (`String::push`).
#[verifier::external_body]
pub(crate) fn push_char(s: &mut String, c: char)
    ensures
        final(s)@ == old(s)@.push(c),
{
    s.push(c);
}

/// Builds a string from `chars[from..to]`.
pub fn string_from(chars: &Vec<char>, from: usize, to: usize) -> (s: String)
    requires
        from <= to <= chars.len(),
    ensures
        s@ == chars@.subrange(from as int, to as int),
{
    let mut s = String::new();
    let mut i = from;
    while i < to
        invariant
            from <= i <= to <= chars.len(),
            s@ == chars@.subrange(from as int, i as int),
        decreases to - i,
    {
        push_char(&mut s, chars[i]);
        assert(chars@.subrange(from as int, i + 1) == chars@.subrange(from as int, i as int).push(
            chars@[i as int],
        ));
        i += 1;
    }
    s
}

/// Builds a string from a whole character vector.
pub fn string_of(chars: &Vec<char>) -> (s: String)
    ensures
        s@ == chars@,
{
    let s = string_from(chars, 0, chars.len());
    assert(chars@.subrange(0, chars.len() as int) == chars@);
    s
}

/// Appends a string literal or other `str` to `s`.
pub fn append_str(s: &mut String, tail: &str)
    ensures
        final(s)@ == old(s)@ + tail@,
{
    let chars = chars_of(tail);
    let ghost start = s@;
    let mut i: usize = 0;
    while i < chars.len()
        invariant
            i <= chars.len(),
            chars@ == tail@,
            s@ == start + chars@.take(i as int),
        decreases chars.len() - i,
    {
        push_char(s, chars[i]);
        assert(chars@.take(i + 1) == chars@.take(i as int).push(chars@[i as int]));
        i += 1;
    }
    assert(chars@.take(chars.len() as int) == chars@);
}

/// Appends `chars[from..to]` to `s`.
pub fn append_chars(s: &mut String, chars: &Vec<char>, from: usize, to: usize)
    requires
        from <= to <= chars.len(),
    ensures
        final(s)@ == old(s)@ + chars@.subrange(from as int, to as int),
{
    let ghost start = s@;
    let mut i = from;
    while i < to
        invariant
            from <= i <= to <= chars.len(),
            s@ == start + chars@.subrange(from as int, i as int),
        decreases to - i,
    {
        push_char(s, chars[i]);
        assert(chars@.subrange(from as int, i + 1) == chars@.subrange(from as int, i as int).push(
            chars@[i as int],
        ));
        i += 1;
    }
}

/// Whether `chars[from..]` begins with `prefix`.
pub fn has_prefix_at(chars: &Vec<char>, from: usize, prefix: &str) -> (r: bool)
    requires
        from <= chars.len(),
    ensures
        r == starts_with(chars@.skip(from as int), prefix@),
{
    let p = chars_of(prefix);
    if p.len() > chars.len() - from {
        return false;
    }
    let mut i: usize = 0;
    while i < p.len()
        invariant
            i <= p.len(),
            p@ == prefix@,
            from + p.len() <= chars.len(),
            forall|j: int| 0 <= j < i ==> chars@[from + j] == p@[j],
        decreases p.len() - i,
    {
        if chars[from + i] != p[i] {
            assert(chars@.skip(from as int).take(p.len() as int)[i as int] != p@[i as int]);
            return false;
        }
        i += 1;
    }
    assert(chars@.skip(from as int).take(p.len() as int) =~= p@);
    true
}

/// Position of the first `sep` in `chars[from..to]`, relative to `from`.
pub fn find_char(chars: &Vec<char>, from: usize, to: usize, sep: char) -> (r: Option<usize>)
    requires
        from <= to <= chars.len(),
    ensures
        r == (match chars@.subrange(from as int, to as int).index_of_first(sep) {
            Some(i) => Some(i as usize),
            None => None::<usize>,
        }),
        r matches Some(i) ==> from + i < to,
{
    let ghost part = chars@.subrange(from as int, to as int);
    proof {
        part.index_of_first_ensures(sep);
    }
    let mut i = from;
    while i < to
        invariant
            from <= i <= to <= chars.len(),
            part == chars@.subrange(from as int, to as int),
            forall|j: int| from <= j < i ==> chars@[j] != sep,
        decreases to - i,
    {
        if chars[i] == sep {
            proof {
                part.index_of_first_ensures(sep);
                let idx = i - from;
                assert(part[idx] == sep);
                assert(part.contains(sep));
                match part.index_of_first(sep) {
                    Some(k) => {
                        if k < idx {
                            assert(part[k] == chars@[from + k]);
                        } else if k > idx {
                            assert(part[idx] != sep);
                        }
                    },
                    None => {},
                }
            }
            return Some(i - from);
        }
        i += 1;
    }
    proof {
        part.index_of_first_ensures(sep);
        if part.contains(sep) {
            let k = part.index_of_first(sep)->0;
            assert(part[k] == chars@[from + k]);
        }
    }
    None
}

/// Whether `chars[from..to]` holds `c` anywhere.
pub fn contains_char(chars: &Vec<char>, from: usize, to: usize, c: char) -> (r: bool)
    requires
        from <= to <= chars.len(),
    ensures
        r == chars@.subrange(from as int, to as int).contains(c),
{
    let ghost part = chars@.subrange(from as int, to as int);
    proof {
        part.index_of_first_ensures(c);
    }
    let found = find_char(chars, from, to, c);
    found.is_some()
}

proof fn lemma_decimal_value_bound(s: Seq<char>)
    requires
        all_digits(s),
    ensures
        decimal_value(s) < pow10(s.len()),
    decreases s.len(),
{
    if s.len() > 0 {
        lemma_decimal_value_bound(s.drop_last());
        assert(is_digit(s[s.len() - 1]));
    }
}

/// `10^n`.
pub open spec fn pow10(n: nat) -> nat
    decreases n,
{
    if n == 0 {
        1
    } else {
        10 * pow10((n - 1) as nat)
    }
}

/// Parses `chars[from..to]` as an unsigned decimal number no larger than
/// `max`, with the rules of the standard library's `FromStr` for unsigned
/// integers.
pub fn parse_unsigned_at(chars: &Vec<char>, from: usize, to: usize, max: u64) -> (r: Option<u64>)
    requires
        from <= to <= chars.len(),
    ensures
        r == (match parse_unsigned(chars@.subrange(from as int, to as int), max as nat) {
            Some(v) => Some(v as u64),
            None => None::<u64>,
        }),
{
    let ghost s = chars@.subrange(from as int, to as int);
    let mut start = from;
    if from < to && chars[from] == '+' {
        start = from + 1;
    }
    let ghost digits = chars@.subrange(start as int, to as int);
    assert(digits == (if s.len() > 0 && s[0] == '+' {
        s.drop_first()
    } else {
        s
    }));
    if start == to {
        return None;
    }
    let mut value: u64 = 0;
    let mut i = start;
    while i < to
        invariant
            start <= i <= to <= chars.len(),
            digits == chars@.subrange(start as int, to as int),
            s == chars@.subrange(from as int, to as int),
            digits == (if s.len() > 0 && s[0] == '+' {
                s.drop_first()
            } else {
                s
            }),
            all_digits(chars@.subrange(start as int, i as int)),
            value as nat == decimal_value(chars@.subrange(start as int, i as int)),
            value <= max,
        decreases to - i,
    {
        let c = chars[i];
        let ghost prefix = chars@.subrange(start as int, i as int);
        let ghost next = chars@.subrange(start as int, i + 1);
        assert(next.drop_last() == prefix);
        assert(next.last() == c);
        if !is_digit_exec(c) {
            assert(digits[i - start] == c);
            assert(!all_digits(digits));
            return None;
        }
        let d = (c as u32 - '0' as u32) as u64;
        assert(decimal_value(next) == decimal_value(prefix) * 10 + d);
        let candidate: u128 = value as u128 * 10 + d as u128;
        if candidate > max as u128 {
            proof {
                assert(next == digits.take(i + 1 - start));
                lemma_prefix_value_grows(digits, (i + 1 - start) as int);
            }
            return None;
        }
        value = candidate as u64;
        assert(all_digits(next)) by {
            assert forall|j: int| 0 <= j < next.len() implies is_digit(#[trigger] next[j]) by {
                if j < prefix.len() {
                    assert(next[j] == prefix[j]);
                }
            }
        }
        i += 1;
    }
    assert(chars@.subrange(start as int, to as int) == digits);
    Some(value)
}

proof fn lemma_prefix_value_grows(s: Seq<char>, n: int)
    requires
        0 < n <= s.len(),
    ensures
        all_digits(s) ==> decimal_value(s.take(n)) <= decimal_value(s),
    decreases s.len(),
{
    if n < s.len() && all_digits(s) {
        assert(s.drop_last().take(n) == s.take(n));
        assert(all_digits(s.drop_last()));
        lemma_prefix_value_grows(s.drop_last(), n);
    } else if n == s.len() {
        assert(s.take(n) == s);
    }
}

/// Whether `a` and `b` are equal when ASCII letters are compared without case.
pub fn eq_ignore_ascii_case_exec(a: &str, b: &str) -> (r: bool)
    ensures
        r == eq_ignore_ascii_case(a@, b@),
{
    let x = chars_of(a);
    let y = chars_of(b);
    if x.len() != y.len() {
        assert(ascii_lower_seq(a@).len() != ascii_lower_seq(b@).len());
        return false;
    }
    let mut i: usize = 0;
    while i < x.len()
        invariant
            x@ == a@,
            y@ == b@,
            x.len() == y.len(),
            i <= x.len(),
            forall|j: int| 0 <= j < i ==> ascii_lower(x@[j]) == ascii_lower(y@[j]),
        decreases x.len() - i,
    {
        if ascii_lower_exec(x[i]) != ascii_lower_exec(y[i]) {
            assert(ascii_lower_seq(a@)[i as int] != ascii_lower_seq(b@)[i as int]);
            return false;
        }
        i += 1;
    }
    assert(ascii_lower_seq(a@) =~= ascii_lower_seq(b@));
    true
}

/// Whether `a` and `b` hold the same characters.
pub fn str_eq(a: &str, b: &str) -> (r: bool)
    ensures
        r == (a@ == b@),
{
    let x = chars_of(a);
    let y = chars_of(b);
    if x.len() != y.len() {
        return false;
    }
    let mut i: usize = 0;
    while i < x.len()
        invariant
            x@ == a@,
            y@ == b@,
            x.len() == y.len(),
            i <= x.len(),
            forall|j: int| 0 <= j < i ==> x@[j] == y@[j],
        decreases x.len() - i,
    {
        if x[i] != y[i] {
            return false;
        }
        i += 1;
    }
    assert(x@ =~= y@);
    true
}

/// `a` sorts before `b` in the order of `str`'s `Ord`: character by
/// character, a proper prefix first.
pub open spec fn text_less(a: Seq<char>, b: Seq<char>) -> bool
    decreases a.len(),
{
    if b.len() == 0 {
        false
    } else if a.len() == 0 {
        true
    } else if a[0] != b[0] {
        a[0] < b[0]
    } else {
        text_less(a.drop_first(), b.drop_first())
    }
}

/// No text sorts before itself, and of two texts at most one sorts first.
pub proof fn lemma_text_less_asymmetric(a: Seq<char>, b: Seq<char>)
    ensures
        text_less(a, b) ==> !text_less(b, a),
    decreases a.len(),
{
    if a.len() > 0 && b.len() > 0 && a[0] == b[0] {
        lemma_text_less_asymmetric(a.drop_first(), b.drop_first());
    }
}

/// Of two different texts, one sorts before the other.
pub proof fn lemma_text_less_total(a: Seq<char>, b: Seq<char>)
    requires
        a != b,
    ensures
        text_less(a, b) || text_less(b, a),
    decreases a.len(),
{
    if a.len() > 0 && b.len() > 0 && a[0] == b[0] {
        assert(a.drop_first() != b.drop_first()) by {
            if a.drop_first() == b.drop_first() {
                assert(a =~= seq![a[0]] + a.drop_first());
                assert(b =~= seq![b[0]] + b.drop_first());
            }
        }
        lemma_text_less_total(a.drop_first(), b.drop_first());
    } else if a.len() == 0 && b.len() == 0 {
        assert(a =~= b);
    }
}

/// The order of texts is transitive.
pub proof fn lemma_text_less_transitive(a: Seq<char>, b: Seq<char>, c: Seq<char>)
    requires
        text_less(a, b),
        text_less(b, c),
    ensures
        text_less(a, c),
    decreases a.len(),
{
    if a.len() > 0 && b.len() > 0 && c.len() > 0 && a[0] == b[0] && b[0] == c[0] {
        lemma_text_less_transitive(a.drop_first(), b.drop_first(), c.drop_first());
    }
}

/// Whether `a` sorts before `b`.
pub fn text_less_exec(a: &str, b: &str) -> (r: bool)
    ensures
        r == text_less(a@, b@),
{
    let x = chars_of(a);
    let y = chars_of(b);
    let mut i: usize = 0;
    assert(a@.skip(0) =~= a@);
    assert(b@.skip(0) =~= b@);
    while i < x.len() && i < y.len() && x[i] == y[i]
        invariant
            x@ == a@,
            y@ == b@,
            i <= x.len(),
            i <= y.len(),
            text_less(a@, b@) == text_less(a@.skip(i as int), b@.skip(i as int)),
        decreases x.len() - i,
    {
        assert(a@.skip(i as int).drop_first() =~= a@.skip(i + 1));
        assert(b@.skip(i as int).drop_first() =~= b@.skip(i + 1));
        i += 1;
    }
    if i == y.len() {
        false
    } else if i == x.len() {
        true
    } else {
        x[i] < y[i]
    }
}

/// The decimal digit for `d` (below ten).
pub open spec fn digit_char(d: nat) -> char {
    (d + 48) as char
}

/// `n` written in decimal, without leading zeros.
pub open spec fn dec_text(n: nat) -> Seq<char>
    decreases n,
{
    if n < 10 {
        seq![digit_char(n)]
    } else {
        dec_text(n / 10).push(digit_char(n % 10))
    }
}

/// Decimal text is digits only, reads back as its number, and starts with
/// `0` only when it is `0`.
pub proof fn lemma_dec_text(n: nat)
    ensures
        all_digits(dec_text(n)),
        decimal_value(dec_text(n)) == n,
        dec_text(n).len() > 0,
        dec_text(n).len() == 1 || dec_text(n)[0] != '0',
        n < 10 <==> dec_text(n).len() == 1,
        n < 100 <==> dec_text(n).len() <= 2,
        n < 1000 <==> dec_text(n).len() <= 3,
    decreases n,
{
    let d = n % 10;
    assert(digit_char(d) as u32 == d + 48);
    assert(seq![digit_char(n)].drop_last() =~= Seq::<char>::empty());
    if n >= 10 {
        lemma_dec_text(n / 10);
        let t = dec_text(n);
        assert(t.drop_last() == dec_text(n / 10));
        assert(t[0] == dec_text(n / 10)[0]);
        assert(t.last() == digit_char(d));
        assert(decimal_value(t) == decimal_value(dec_text(n / 10)) * 10 + d);
        assert(n == (n / 10) * 10 + d);
    } else {
        assert(decimal_value(seq![digit_char(n)]) == decimal_value(Seq::<char>::empty()) * 10 + d);
    }
}

fn digit_exec(d: u64) -> (c: char)
    requires
        d < 10,
    ensures
        c == digit_char(d as nat),
{
    ((d + 48) as u8) as char
}

/// Appends `n` in decimal to `s`.
pub fn append_decimal(s: &mut String, n: u64)
    ensures
        final(s)@ == old(s)@ + dec_text(n as nat),
    decreases n,
{
    if n >= 10 {
        append_decimal(s, n / 10);
    }
    push_char(s, digit_exec(n % 10));
    proof {
        if n >= 10 {
            assert(dec_text(n as nat) == dec_text((n / 10) as nat).push(digit_char((n % 10) as nat)));
        }
    }
}

/// `n` in decimal.
pub fn decimal_string(n: u64) -> (s: String)
    ensures
        s@ == dec_text(n as nat),
{
    let mut s = String::new();
    append_decimal(&mut s, n);
    assert(Seq::<char>::empty() + dec_text(n as nat) =~= dec_text(n as nat));
    s
}

/// The fields of `s` between occurrences of `sep`, as `str::split` gives
/// them: always at least one.
pub open spec fn split_fields(s: Seq<char>, sep: char) -> Seq<Seq<char>>
    decreases s.len(),
{
    if s.len() == 0 {
        seq![Seq::empty()]
    } else {
        let f = split_fields(s.drop_last(), sep);
        if s.last() == sep {
            f.push(Seq::empty())
        } else {
            f.update(f.len() - 1, f.last().push(s.last()))
        }
    }
}

/// `fields` joined with `sep` between them.
pub open spec fn join_fields(fields: Seq<Seq<char>>, sep: char) -> Seq<char>
    decreases fields.len(),
{
    if fields.len() <= 1 {
        if fields.len() == 1 {
            fields[0]
        } else {
            Seq::empty()
        }
    } else {
        join_fields(fields.drop_last(), sep).push(sep) + fields.last()
    }
}

pub proof fn lemma_split_nonempty(s: Seq<char>, sep: char)
    ensures
        split_fields(s, sep).len() >= 1,
    decreases s.len(),
{
    if s.len() > 0 {
        lemma_split_nonempty(s.drop_last(), sep);
    }
}

/// Text free of `sep` added at the end lengthens the last field.
pub proof fn lemma_split_extend(a: Seq<char>, b: Seq<char>, sep: char)
    requires
        !b.contains(sep),
    ensures
        split_fields(a + b, sep) == split_fields(a, sep).update(
            split_fields(a, sep).len() - 1,
            split_fields(a, sep).last() + b,
        ),
    decreases b.len(),
{
    lemma_split_nonempty(a, sep);
    let f = split_fields(a, sep);
    if b.len() == 0 {
        assert(a + b =~= a);
        assert(f.last() + b =~= f.last());
        assert(f.update(f.len() - 1, f.last()) =~= f);
    } else {
        let c = b.last();
        assert(!b.drop_last().contains(sep)) by {
            if b.drop_last().contains(sep) {
                let k = choose|k: int| 0 <= k < b.drop_last().len() && b.drop_last()[k] == sep;
                assert(b[k] == sep);
            }
        }
        assert(b[b.len() - 1] != sep);
        lemma_split_extend(a, b.drop_last(), sep);
        assert((a + b).drop_last() =~= a + b.drop_last());
        assert((f.last() + b.drop_last()).push(c) =~= f.last() + b);
        let g = split_fields(a + b.drop_last(), sep);
        assert(g.len() == f.len());
        assert(g.update(g.len() - 1, g.last().push(c)) =~= f.update(f.len() - 1, f.last() + b));
    }
}

/// Splitting at `sep` undoes joining with it, when no field holds `sep`.
pub proof fn lemma_split_join(fields: Seq<Seq<char>>, sep: char)
    requires
        fields.len() >= 1,
        forall|i: int| 0 <= i < fields.len() ==> !(#[trigger] fields[i]).contains(sep),
    ensures
        split_fields(join_fields(fields, sep), sep) == fields,
    decreases fields.len(),
{
    if fields.len() == 1 {
        lemma_split_extend(Seq::empty(), fields[0], sep);
        assert(Seq::<char>::empty() + fields[0] =~= fields[0]);
        assert(split_fields(Seq::<char>::empty(), sep) =~= seq![Seq::<char>::empty()]);
        assert(seq![Seq::<char>::empty()].update(0, Seq::<char>::empty() + fields[0]) =~= fields);
    } else {
        let d = fields.drop_last();
        assert forall|i: int| 0 <= i < d.len() implies !(#[trigger] d[i]).contains(sep) by {
            assert(d[i] == fields[i]);
        }
        lemma_split_join(d, sep);
        let a = join_fields(d, sep).push(sep);
        assert(a.drop_last() == join_fields(d, sep));
        assert(split_fields(a, sep) == d.push(Seq::empty()));
        assert(!fields[fields.len() - 1].contains(sep));
        lemma_split_extend(a, fields.last(), sep);
        assert(Seq::<char>::empty() + fields.last() =~= fields.last());
        assert(d.push(Seq::empty()).update(d.len() as int, Seq::<char>::empty() + fields.last())
            =~= fields);
    }
}

/// Bounds `(start, end)` in `chars` of each field of `chars` split at `sep`.
pub fn split_ranges(chars: &Vec<char>, sep: char) -> (r: Vec<(usize, usize)>)
    ensures
        r@.len() == split_fields(chars@, sep).len(),
        forall|i: int|
            0 <= i < r@.len() ==> (#[trigger] r@[i]).0 <= r@[i].1 <= chars.len() && chars@.subrange(
                r@[i].0 as int,
                r@[i].1 as int,
            ) == split_fields(chars@, sep)[i],
{
    let mut r: Vec<(usize, usize)> = Vec::new();
    let mut start: usize = 0;
    let mut i: usize = 0;
    assert(chars@.take(0) =~= Seq::<char>::empty());
    while i < chars.len()
        invariant
            i <= chars.len(),
            start <= i,
            r@.len() + 1 == split_fields(chars@.take(i as int), sep).len(),
            forall|k: int|
                0 <= k < r@.len() ==> (#[trigger] r@[k]).0 <= r@[k].1 <= chars.len()
                    && chars@.subrange(r@[k].0 as int, r@[k].1 as int) == split_fields(
                    chars@.take(i as int),
                    sep,
                )[k],
            chars@.subrange(start as int, i as int) == split_fields(chars@.take(i as int), sep).last(),
        decreases chars.len() - i,
    {
        let ghost f = split_fields(chars@.take(i as int), sep);
        assert(chars@.take(i + 1).drop_last() =~= chars@.take(i as int));
        assert(chars@.take(i + 1).last() == chars@[i as int]);
        proof {
            lemma_split_nonempty(chars@.take(i as int), sep);
        }
        if chars[i] == sep {
            r.push((start, i));
            start = i + 1;
            assert(chars@.subrange(start as int, i + 1) =~= Seq::<char>::empty());
        } else {
            assert(chars@.subrange(start as int, i + 1) =~= chars@.subrange(start as int, i as int).push(
                chars@[i as int],
            ));
        }
        i += 1;
    }
    assert(chars@.take(chars.len() as int) =~= chars@);
    r.push((start, chars.len()));
    r
}

/// `s` without one trailing carriage return.
pub open spec fn strip_cr(s: Seq<char>) -> Seq<char> {
    if s.len() > 0 && s.last() == '\r' {
        s.drop_last()
    } else {
        s
    }
}

/// The lines of `s`, as `str::lines` gives them: split at `\n`, a `\r`
/// before a `\n` removed, and no empty last line after a final `\n`.
pub open spec fn lines_of(s: Seq<char>) -> Seq<Seq<char>> {
    let f = split_fields(s, '\n');
    let body = Seq::new((f.len() - 1) as nat, |i: int| strip_cr(f[i]));
    if f.last().len() == 0 {
        body
    } else {
        body.push(f.last())
    }
}

/// Bounds in `chars` of each line of `chars`.
pub fn line_ranges(chars: &Vec<char>) -> (r: Vec<(usize, usize)>)
    ensures
        r@.len() == lines_of(chars@).len(),
        forall|i: int|
            0 <= i < r@.len() ==> (#[trigger] r@[i]).0 <= r@[i].1 <= chars.len() && chars@.subrange(
                r@[i].0 as int,
                r@[i].1 as int,
            ) == lines_of(chars@)[i],
{
    let fields = split_ranges(chars, '\n');
    let ghost f = split_fields(chars@, '\n');
    proof {
        lemma_split_nonempty(chars@, '\n');
    }
    let n = fields.len();
    let mut r: Vec<(usize, usize)> = Vec::new();
    let mut k: usize = 0;
    while k + 1 < n
        invariant
            n == fields@.len(),
            n == f.len(),
            n >= 1,
            k + 1 <= n,
            r@.len() == k,
            forall|j: int|
                0 <= j < fields@.len() ==> (#[trigger] fields@[j]).0 <= fields@[j].1 <= chars.len()
                    && chars@.subrange(fields@[j].0 as int, fields@[j].1 as int) == f[j],
            forall|j: int|
                0 <= j < k ==> (#[trigger] r@[j]).0 <= r@[j].1 <= chars.len() && chars@.subrange(
                    r@[j].0 as int,
                    r@[j].1 as int,
                ) == strip_cr(f[j]),
        decreases n - k,
    {
        let (a, b) = fields[k];
        let ghost fk = f[k as int];
        assert(chars@.subrange(a as int, b as int) == fk);
        if b > a && chars[b - 1] == '\r' {
            assert(chars@.subrange(a as int, b - 1) =~= fk.drop_last());
            r.push((a, b - 1));
        } else {
            r.push((a, b));
        }
        k += 1;
    }
    let (a, b) = fields[n - 1];
    assert(chars@.subrange(a as int, b as int) == f.last());
    if b > a {
        r.push((a, b));
    }
    r
}

#[verifier::external_type_specification]
#[verifier::external_body]
pub struct ExUtf8Error(core::str::Utf8Error);

/// `std::str::from_utf8`: the text of `bytes` when they are valid UTF-8
/// (the decoding of `vstd::utf8`), an error otherwise.
#[verifier::external_body]
pub(crate) fn utf8_text(bytes: &[u8]) -> (r: Result<&str, core::str::Utf8Error>)
    ensures
        match r {
            Ok(text) => vstd::utf8::valid_utf8(bytes@) && text@ == vstd::utf8::decode_utf8(bytes@),
            Err(_) => !vstd::utf8::valid_utf8(bytes@),
        },
{
    core::str::from_utf8(bytes)
}

/// Lines joined with `\n`, each ended by it, read back as the same lines,
/// when none holds `\n` or ends with `\r`.
pub proof fn lemma_lines_of_joined(lines: Seq<Seq<char>>)
    requires
        lines.len() >= 1,
        forall|i: int|
            0 <= i < lines.len() ==> !(#[trigger] lines[i]).contains('\n') && strip_cr(lines[i])
                == lines[i],
    ensures
        lines_of(join_fields(lines, '\n').push('\n')) == lines,
{
    let all = lines.push(Seq::empty());
    assert(all.drop_last() =~= lines);
    assert(join_fields(all, '\n') =~= join_fields(lines, '\n').push('\n'));
    assert forall|i: int| 0 <= i < all.len() implies !(#[trigger] all[i]).contains('\n') by {
        if i < lines.len() {
            assert(all[i] == lines[i]);
        }
    }
    lemma_split_join(all, '\n');
    let f = split_fields(join_fields(lines, '\n').push('\n'), '\n');
    assert(f == all);
    assert(Seq::new((f.len() - 1) as nat, |i: int| strip_cr(f[i])) =~= lines);
}

/// Bytes as text: the UTF-8 encoding of text decodes back to it.
pub proof fn lemma_utf8_round_trip(text: Seq<char>)
    ensures
        vstd::utf8::valid_utf8(vstd::utf8::encode_utf8(text)),
        vstd::utf8::decode_utf8(vstd::utf8::encode_utf8(text)) == text,
{
    vstd::utf8::encode_utf8_valid_utf8(text);
    vstd::utf8::encode_utf8_decode_utf8(text);
}

/// The UTF-8 bytes of `s`.
pub fn utf8_bytes(s: &str) -> (b: Vec<u8>)
    ensures
        b@ == vstd::utf8::encode_utf8(s@),
{
    let bytes = s.as_bytes();
    let mut out: Vec<u8> = Vec::new();
    let mut i: usize = 0;
    while i < bytes.len()
        invariant
            i <= bytes@.len(),
            out@ == bytes@.take(i as int),
        decreases bytes@.len() - i,
    {
        out.push(bytes[i]);
        assert(bytes@.take(i + 1) =~= bytes@.take(i as int).push(bytes@[i as int]));
        i += 1;
    }
    assert(bytes@.take(bytes@.len() as int) =~= bytes@);
    out
}

/// Whether `chars[from..to]` is `word`.
pub fn range_is(chars: &Vec<char>, from: usize, to: usize, word: &str) -> (r: bool)
    requires
        from <= to <= chars.len(),
    ensures
        r == (chars@.subrange(from as int, to as int) == word@),
{
    let w = chars_of(word);
    if to - from != w.len() {
        return false;
    }
    let r = has_prefix_at(chars, from, word);
    assert(chars@.skip(from as int).take(w.len() as int) =~= chars@.subrange(from as int, to as int));
    r
}

/// Start of the text of `chars[from..to]` once leading whitespace is removed.
fn skip_leading_whitespace(chars: &Vec<char>, from: usize, to: usize) -> (r: usize)
    requires
        from <= to <= chars.len(),
    ensures
        from <= r <= to,
        r - from == leading_whitespace(chars@.subrange(from as int, to as int)),
    decreases to - from,
{
    if from < to && is_whitespace_exec(chars[from]) {
        let r = skip_leading_whitespace(chars, from + 1, to);
        assert(chars@.subrange(from as int, to as int).drop_first() == chars@.subrange(
            from + 1,
            to as int,
        ));
        r
    } else {
        from
    }
}

/// End of the text of `chars[from..to]` once trailing whitespace is removed.
fn skip_trailing_whitespace(chars: &Vec<char>, from: usize, to: usize) -> (r: usize)
    requires
        from <= to <= chars.len(),
    ensures
        from <= r <= to,
        to - r == trailing_whitespace(chars@.subrange(from as int, to as int)),
    decreases to - from,
{
    if from < to && is_whitespace_exec(chars[to - 1]) {
        let r = skip_trailing_whitespace(chars, from, to - 1);
        assert(chars@.subrange(from as int, to as int).drop_last() == chars@.subrange(
            from as int,
            to - 1,
        ));
        r
    } else {
        from.max(to)
    }
}

proof fn lemma_trailing_stops_at_text(s: Seq<char>)
    requires
        leading_whitespace(s) < s.len(),
    ensures
        leading_whitespace(s) <= s.len() - trailing_whitespace(s),
    decreases s.len(),
{
    lemma_whitespace_bounds(s);
    if s.len() > 0 && is_whitespace(s.last()) {
        let t = s.drop_last();
        lemma_leading_char(s);
        lemma_leading_drop_last(s);
        lemma_trailing_stops_at_text(t);
        lemma_whitespace_bounds(t);
    }
}

proof fn lemma_leading_char(s: Seq<char>)
    requires
        leading_whitespace(s) < s.len(),
    ensures
        !is_whitespace(s[leading_whitespace(s)]),
    decreases s.len(),
{
    if s.len() > 0 && is_whitespace(s[0]) {
        let f = s.drop_first();
        lemma_whitespace_bounds(f);
        lemma_leading_char(f);
        assert(s[leading_whitespace(s)] == f[leading_whitespace(f)]);
    }
}

proof fn lemma_whitespace_bounds(s: Seq<char>)
    ensures
        0 <= leading_whitespace(s) <= s.len(),
        0 <= trailing_whitespace(s) <= s.len(),
    decreases s.len(),
{
    if s.len() > 0 {
        lemma_whitespace_bounds(s.drop_first());
        lemma_whitespace_bounds(s.drop_last());
    }
}

proof fn lemma_leading_drop_last(s: Seq<char>)
    requires
        leading_whitespace(s) < s.len(),
        s.len() > 0,
        is_whitespace(s.last()),
    ensures
        leading_whitespace(s.drop_last()) == leading_whitespace(s),
    decreases s.len(),
{
    lemma_whitespace_bounds(s.drop_first());
    if is_whitespace(s[0]) {
        assert(s.len() > 1);
        let f = s.drop_first();
        assert(f.last() == s.last());
        lemma_leading_drop_last(f);
        assert(s.drop_last().drop_first() == f.drop_last());
        assert(s.drop_last()[0] == s[0]);
    } else {
        assert(s.len() > 1);
        assert(s.drop_last()[0] == s[0]);
    }
}

/// Bounds of `trim(chars[from..to])` within `chars`.
pub fn trim_bounds(chars: &Vec<char>, from: usize, to: usize) -> (r: (usize, usize))
    requires
        from <= to <= chars.len(),
    ensures
        from <= r.0 <= r.1 <= to,
        chars@.subrange(r.0 as int, r.1 as int) == trim(chars@.subrange(from as int, to as int)),
{
    let ghost s = chars@.subrange(from as int, to as int);
    let start = skip_leading_whitespace(chars, from, to);
    if start == to {
        return (to, to);
    }
    let end = skip_trailing_whitespace(chars, from, to);
    proof {
        lemma_trailing_stops_at_text(s);
        assert(chars@.subrange(start as int, end as int) == s.subrange(
            start - from,
            s.len() - trailing_whitespace(s),
        ));
    }
    (start, end)
}

} // verus!

verus! {

/// `i` is the first position of `x` in `s`.
pub proof fn lemma_first_index<A>(s: Seq<A>, x: A, i: int)
    requires
        0 <= i < s.len(),
        s[i] == x,
        forall|j: int| 0 <= j < i ==> s[j] != x,
    ensures
        s.index_of_first(x) == Some(i),
{
    s.index_of_first_ensures(x);
    assert(s.contains(x));
    match s.index_of_first(x) {
        Some(k) => {
            if k < i {
                assert(s[k] == x);
            } else if k > i {
                assert(s[i] != x);
            }
        },
        None => {},
    }
}

/// `x` does not occur in `s`.
pub proof fn lemma_no_index<A>(s: Seq<A>, x: A)
    requires
        forall|j: int| 0 <= j < s.len() ==> s[j] != x,
    ensures
        s.index_of_first(x) is None,
{
    s.index_of_first_ensures(x);
    if s.contains(x) {
        let k = choose|k: int| 0 <= k < s.len() && s[k] == x;
        assert(s[k] != x);
    }
}

} // verus!
