//! IP addresses as text, in the forms of the standard library's `IpAddr`:
//! dotted decimal for IPv4, and for IPv6 lowercase hexadecimal groups with
//! the longest run of zero groups written `::` (RFC 5952).
use vstd::prelude::*;

use crate::net::{v4_octet, IpAddress};
use crate::text::{
    all_digits, append_decimal, dec_text, decimal_value, is_digit, join_fields,
    lemma_dec_text, lemma_split_join, parse_unsigned, parse_unsigned_at, split_fields,
    split_ranges,
};

verus! {

broadcast use vstd::string::group_string_axioms;

// ---------------------------------------------------------------------------
// IPv4
// ---------------------------------------------------------------------------

/// The decimal fields of an IPv4 address.
pub open spec fn v4_fields(v: u32) -> Seq<Seq<char>> {
    seq![
        dec_text(v4_octet(v, 0) as nat),
        dec_text(v4_octet(v, 1) as nat),
        dec_text(v4_octet(v, 2) as nat),
        dec_text(v4_octet(v, 3) as nat),
    ]
}

/// An IPv4 address in dotted decimal.
pub open spec fn v4_text(v: u32) -> Seq<char> {
    join_fields(v4_fields(v), '.')
}

/// The value of one field of dotted decimal: one to three digits, no
/// leading zero, at most 255.
pub open spec fn octet_value(s: Seq<char>) -> Option<nat> {
    if 1 <= s.len() <= 3 && all_digits(s) && (s.len() == 1 || s[0] != '0') && decimal_value(s)
        <= 255 {
        Some(decimal_value(s))
    } else {
        None
    }
}

/// The IPv4 address written by `s` in dotted decimal, if any.
pub open spec fn parse_v4(s: Seq<char>) -> Option<u32> {
    let f = split_fields(s, '.');
    if f.len() == 4 && octet_value(f[0]) is Some && octet_value(f[1]) is Some && octet_value(f[2])
        is Some && octet_value(f[3]) is Some {
        Some(
            (octet_value(f[0])->0 * 0x100_0000 + octet_value(f[1])->0 * 0x1_0000 + octet_value(
                f[2],
            )->0 * 0x100 + octet_value(f[3])->0) as u32,
        )
    } else {
        None
    }
}

proof fn lemma_octets_recompose(v: u32)
    ensures
        v4_octet(v, 0) * 0x100_0000 + v4_octet(v, 1) * 0x1_0000 + v4_octet(v, 2) * 0x100
            + v4_octet(v, 3) == v,
        0 <= v4_octet(v, 0) <= 255,
        0 <= v4_octet(v, 1) <= 255,
        0 <= v4_octet(v, 2) <= 255,
        0 <= v4_octet(v, 3) <= 255,
{
    let x = v as int;
    assert(x / 0x100_0000 * 0x100_0000 + (x / 0x1_0000) % 0x100 * 0x1_0000 + (x / 0x100) % 0x100
        * 0x100 + x % 0x100 == x) by (nonlinear_arith)
        requires
            0 <= x < 0x1_0000_0000,
    ;
    assert(x / 0x100_0000 <= 255) by (nonlinear_arith)
        requires
            0 <= x < 0x1_0000_0000,
    ;
}

proof fn lemma_dec_octet(n: nat)
    requires
        n <= 255,
    ensures
        octet_value(dec_text(n)) == Some(n),
        !dec_text(n).contains('.'),
        !dec_text(n).contains(':'),
{
    lemma_dec_text(n);
    let t = dec_text(n);
    if t.contains('.') {
        let k = choose|k: int| 0 <= k < t.len() && t[k] == '.';
        assert(is_digit(t[k]));
    }
    if t.contains(':') {
        let k = choose|k: int| 0 <= k < t.len() && t[k] == ':';
        assert(is_digit(t[k]));
    }
}

/// Dotted decimal reads back as the address it was written from.
pub proof fn lemma_v4_round_trip(v: u32)
    ensures
        parse_v4(v4_text(v)) == Some(v),
        !v4_text(v).contains(':'),
{
    lemma_octets_recompose(v);
    let f = v4_fields(v);
    lemma_dec_octet(v4_octet(v, 0) as nat);
    lemma_dec_octet(v4_octet(v, 1) as nat);
    lemma_dec_octet(v4_octet(v, 2) as nat);
    lemma_dec_octet(v4_octet(v, 3) as nat);
    assert forall|i: int| 0 <= i < f.len() implies !(#[trigger] f[i]).contains('.') by {}
    lemma_split_join(f, '.');
    let t = v4_text(v);
    assert(t =~= f[0].push('.') + f[1] + seq!['.'] + f[2] + seq!['.'] + f[3]) by {
        reveal_with_fuel(join_fields, 4);
        assert(f.drop_last().drop_last().drop_last() =~= seq![f[0]]);
        assert(f.drop_last().drop_last() =~= seq![f[0], f[1]]);
        assert(f.drop_last() =~= seq![f[0], f[1], f[2]]);
    }
    if t.contains(':') {
        let k = choose|k: int| 0 <= k < t.len() && t[k] == ':';
        let a = f[0].len() as int;
        let b = a + 1 + f[1].len();
        let c = b + 1 + f[2].len();
        if k < a {
            assert(f[0][k] == ':');
        } else if a < k < b {
            assert(f[1][k - a - 1] == ':');
        } else if b < k < c {
            assert(f[2][k - b - 1] == ':');
        } else if c < k {
            assert(f[3][k - c - 1] == ':');
        }
    }
}

/// Appends `v` in dotted decimal to `s`.
pub fn append_ipv4(s: &mut String, v: u32)
    ensures
        final(s)@ == old(s)@ + v4_text(v),
{
    let ghost start = s@;
    append_decimal(s, (v / 0x100_0000) as u64);
    crate::text::append_str(s, ".");
    append_decimal(s, ((v / 0x1_0000) % 0x100) as u64);
    crate::text::append_str(s, ".");
    append_decimal(s, ((v / 0x100) % 0x100) as u64);
    crate::text::append_str(s, ".");
    append_decimal(s, (v % 0x100) as u64);
    proof {
        reveal_strlit(".");
        reveal_with_fuel(join_fields, 4);
        let f = v4_fields(v);
        assert(f.drop_last().drop_last().drop_last() =~= seq![f[0]]);
        assert(f.drop_last().drop_last() =~= seq![f[0], f[1]]);
        assert(f.drop_last() =~= seq![f[0], f[1], f[2]]);
        assert(s@ =~= start + v4_text(v));
    }
}

/// The characters `chars[from..to]` as a vector of their own.
pub fn sub_chars(chars: &Vec<char>, from: usize, to: usize) -> (r: Vec<char>)
    requires
        from <= to <= chars.len(),
    ensures
        r@ == chars@.subrange(from as int, to as int),
{
    let mut r: Vec<char> = Vec::new();
    let mut i = from;
    while i < to
        invariant
            from <= i <= to <= chars.len(),
            r@ == chars@.subrange(from as int, i as int),
        decreases to - i,
    {
        r.push(chars[i]);
        assert(chars@.subrange(from as int, i + 1) =~= chars@.subrange(from as int, i as int).push(
            chars@[i as int],
        ));
        i += 1;
    }
    r
}

/// The value of the field `chars[from..to]` of dotted decimal, if it is one.
fn octet_at(chars: &Vec<char>, from: usize, to: usize) -> (r: Option<u32>)
    requires
        from <= to <= chars.len(),
    ensures
        r == (match octet_value(chars@.subrange(from as int, to as int)) {
            Some(n) => Some(n as u32),
            None => None::<u32>,
        }),
{
    let ghost s = chars@.subrange(from as int, to as int);
    if to - from < 1 || to - from > 3 {
        return None;
    }
    let mut i = from;
    while i < to
        invariant
            from <= i <= to <= chars.len(),
            s == chars@.subrange(from as int, to as int),
            forall|j: int| from <= j < i ==> is_digit(chars@[j]),
        decreases to - i,
    {
        if !('0' <= chars[i] && chars[i] <= '9') {
            assert(!is_digit(s[i - from]));
            return None;
        }
        i += 1;
    }
    assert(all_digits(s)) by {
        assert forall|k: int| 0 <= k < s.len() implies is_digit(#[trigger] s[k]) by {
            assert(s[k] == chars@[from + k]);
        }
    }
    if to - from > 1 && chars[from] == '0' {
        return None;
    }
    assert(s.len() > 0 && s[0] != '+');
    match parse_unsigned_at(chars, from, to, 255) {
        Some(v) => Some(v as u32),
        None => None,
    }
}

/// The IPv4 address written by `chars` in dotted decimal, if any.
pub fn parse_ipv4(chars: &Vec<char>) -> (r: Option<u32>)
    ensures
        r == parse_v4(chars@),
{
    let ranges = split_ranges(chars, '.');
    if ranges.len() != 4 {
        return None;
    }
    let ghost f = split_fields(chars@, '.');
    let (a0, b0) = ranges[0];
    let (a1, b1) = ranges[1];
    let (a2, b2) = ranges[2];
    let (a3, b3) = ranges[3];
    assert(chars@.subrange(a0 as int, b0 as int) == f[0]);
    assert(chars@.subrange(a1 as int, b1 as int) == f[1]);
    assert(chars@.subrange(a2 as int, b2 as int) == f[2]);
    assert(chars@.subrange(a3 as int, b3 as int) == f[3]);
    let o0 = octet_at(chars, a0, b0)?;
    let o1 = octet_at(chars, a1, b1)?;
    let o2 = octet_at(chars, a2, b2)?;
    let o3 = octet_at(chars, a3, b3)?;
    Some(o0 * 0x100_0000 + o1 * 0x1_0000 + o2 * 0x100 + o3)
}


// ---------------------------------------------------------------------------
// IPv6
// ---------------------------------------------------------------------------

/// `65536` to the power `k`.
pub open spec fn pow65536(k: nat) -> nat
    decreases k,
{
    if k == 0 {
        1
    } else {
        65536 * pow65536((k - 1) as nat)
    }
}

/// The eight 16-bit groups of an IPv6 address, most significant first.
pub open spec fn v6_segments(v: u128) -> Seq<nat> {
    Seq::new(8, |i: int| ((v as nat) / pow65536((7 - i) as nat)) % 65536)
}

/// The number whose base-65536 digits are `segs`, most significant first.
pub open spec fn segments_value(segs: Seq<nat>) -> nat
    decreases segs.len(),
{
    if segs.len() == 0 {
        0
    } else {
        segments_value(segs.drop_last()) * 65536 + segs.last()
    }
}

/// The lowercase hexadecimal digit for `d` (below sixteen).
pub open spec fn hex_digit_char(d: nat) -> char {
    if d < 10 {
        (d + 48) as char
    } else {
        (d + 87) as char
    }
}

/// `n` in lowercase hexadecimal, without leading zeros.
pub open spec fn hex_text(n: nat) -> Seq<char>
    decreases n,
{
    if n < 16 {
        seq![hex_digit_char(n)]
    } else {
        hex_text(n / 16).push(hex_digit_char(n % 16))
    }
}

/// The value of a hexadecimal digit of either case.
pub open spec fn hex_digit_value(c: char) -> nat {
    if '0' <= c && c <= '9' {
        (c as u32 - 48) as nat
    } else if 'a' <= c && c <= 'f' {
        (c as u32 - 87) as nat
    } else {
        (c as u32 - 55) as nat
    }
}

/// The number written by the hexadecimal digits of `s`.
pub open spec fn hex_value(s: Seq<char>) -> nat
    decreases s.len(),
{
    if s.len() == 0 {
        0
    } else {
        hex_value(s.drop_last()) * 16 + hex_digit_value(s.last())
    }
}

/// The value of an IPv6 group: one to four hexadecimal digits.
pub open spec fn group_value(s: Seq<char>) -> Option<nat> {
    if 1 <= s.len() <= 4 && forall|i: int| 0 <= i < s.len() ==> crate::text::is_hex_digit(#[trigger] s[i]) {
        Some(hex_value(s))
    } else {
        None
    }
}

/// The values of `fields`, when every one is an IPv6 group.
pub open spec fn groups_value(fields: Seq<Seq<char>>) -> Option<Seq<nat>> {
    if forall|i: int| 0 <= i < fields.len() ==> (#[trigger] group_value(fields[i])) is Some {
        Some(Seq::new(fields.len(), |i: int| group_value(fields[i])->0))
    } else {
        None
    }
}

/// The groups written by `fields`, where the last field may be an IPv4
/// address in dotted decimal standing for two groups.
pub open spec fn tail_segments(fields: Seq<Seq<char>>) -> Option<Seq<nat>> {
    if fields.len() > 0 && fields.last().contains('.') {
        match (groups_value(fields.drop_last()), parse_v4(fields.last())) {
            (Some(g), Some(x)) => Some(g + seq![(x / 65536) as nat, (x % 65536) as nat]),
            _ => None,
        }
    } else {
        groups_value(fields)
    }
}

/// The colon-separated fields of `s`; none when `s` is empty.
pub open spec fn colon_fields(s: Seq<char>) -> Seq<Seq<char>> {
    if s.len() == 0 {
        Seq::empty()
    } else {
        split_fields(s, ':')
    }
}

/// Position of the first `::` in `s`.
pub open spec fn first_double_colon(s: Seq<char>) -> Option<int>
    decreases s.len(),
{
    if s.len() < 2 {
        None
    } else if s[0] == ':' && s[1] == ':' {
        Some(0)
    } else {
        match first_double_colon(s.drop_first()) {
            Some(i) => Some(i + 1),
            None => None,
        }
    }
}

/// `n` zero groups.
pub open spec fn zero_segments(n: nat) -> Seq<nat> {
    Seq::new(n, |i: int| 0nat)
}

/// The IPv6 address written by `s`, as the standard library reads it: eight
/// groups, or fewer around a single `::` standing for at least one zero
/// group, the last two groups possibly written as an IPv4 address.
pub open spec fn parse_v6(s: Seq<char>) -> Option<u128> {
    match first_double_colon(s) {
        Some(p) => match (groups_value(colon_fields(s.take(p))), tail_segments(
            colon_fields(s.skip(p + 2)),
        )) {
            (Some(h), Some(t)) => if h.len() + t.len() <= 7 {
                Some(
                    segments_value(h + zero_segments((8 - h.len() - t.len()) as nat) + t) as u128,
                )
            } else {
                None
            },
            _ => None,
        },
        None => match tail_segments(split_fields(s, ':')) {
            Some(t) => if t.len() == 8 {
                Some(segments_value(t) as u128)
            } else {
                None
            },
            None => None,
        },
    }
}

/// The address written by `s`: IPv4 when it reads as one, else IPv6.
pub open spec fn parse_ip(s: Seq<char>) -> Option<IpAddress> {
    match parse_v4(s) {
        Some(x) => Some(IpAddress::V4(x)),
        None => match parse_v6(s) {
            Some(y) => Some(IpAddress::V6(y)),
            None => None,
        },
    }
}

/// Groups `start..start + len` of `segs` are all zero.
pub open spec fn zeros_at(segs: Seq<nat>, start: int, len: int) -> bool {
    &&& 0 <= start
    &&& 0 <= len
    &&& start + len <= segs.len()
    &&& forall|j: int| start <= j < start + len ==> segs[j] == 0
}

/// The run of zero groups written as `::`: the longest run of at least two,
/// the first of the longest.
pub open spec fn compressed_run(segs: Seq<nat>, start: int, len: int) -> bool {
    &&& len >= 2
    &&& zeros_at(segs, start, len)
    &&& forall|s2: int, l2: int|
        #[trigger] zeros_at(segs, s2, l2) ==> l2 < len || (l2 == len && start <= s2)
}

pub open spec fn hex_fields(segs: Seq<nat>) -> Seq<Seq<char>> {
    segs.map_values(|n: nat| hex_text(n))
}

/// An IPv4-mapped IPv6 address (`::ffff:a.b.c.d`).
pub open spec fn is_v4_mapped(v: u128) -> bool {
    v as int / 0x1_0000_0000 == 0xffff
}

/// An IPv6 address as the standard library writes it.
pub open spec fn v6_text(v: u128) -> Seq<char> {
    let segs = v6_segments(v);
    if is_v4_mapped(v) {
        seq![':', ':', 'f', 'f', 'f', 'f', ':'] + v4_text((v as int % 0x1_0000_0000) as u32)
    } else if exists|s: int, l: int| compressed_run(segs, s, l) {
        let (s, l) = choose|s: int, l: int| compressed_run(segs, s, l);
        join_fields(hex_fields(segs.take(s)), ':') + seq![':', ':'] + join_fields(
            hex_fields(segs.skip(s + l)),
            ':',
        )
    } else {
        join_fields(hex_fields(segs), ':')
    }
}

/// An address as the standard library writes it.
pub open spec fn ip_text(a: IpAddress) -> Seq<char> {
    match a {
        IpAddress::V4(x) => v4_text(x),
        IpAddress::V6(y) => v6_text(y),
    }
}

} // verus!

verus! {

proof fn lemma_pow65536_positive(k: nat)
    ensures
        pow65536(k) > 0,
    decreases k,
{
    if k > 0 {
        lemma_pow65536_positive((k - 1) as nat);
    }
}

/// The eight groups of `v`.
fn segments_of(v: u128) -> (segs: Vec<u64>)
    ensures
        segs@.len() == 8,
        segs@.map_values(|x: u64| x as nat) == v6_segments(v),
{
    let mut segs: Vec<u64> = vec![0, 0, 0, 0, 0, 0, 0, 0];
    let mut x: u128 = v;
    let mut k: usize = 0;
    assert(pow65536(0) == 1);
    while k < 8
        invariant
            k <= 8,
            segs@.len() == 8,
            x as nat == (v as nat) / pow65536(k as nat),
            forall|j: int| 8 - k <= j < 8 ==> segs@[j] as nat == v6_segments(v)[j],
        decreases 8 - k,
    {
        let idx = 7 - k;
        proof {
            lemma_pow65536_positive(k as nat);
            vstd::arithmetic::div_mod::lemma_div_denominator(
                v as int,
                pow65536(k as nat) as int,
                65536,
            );
            assert(pow65536((k + 1) as nat) == 65536 * pow65536(k as nat));
            assert(v6_segments(v)[idx as int] == ((v as nat) / pow65536(k as nat)) % 65536);
        }
        segs.set(idx, (x % 65536) as u64);
        x = x / 65536;
        k += 1;
    }
    assert(segs@.map_values(|x: u64| x as nat) =~= v6_segments(v));
    segs
}

fn hex_digit_exec(d: u64) -> (c: char)
    requires
        d < 16,
    ensures
        c == hex_digit_char(d as nat),
{
    if d < 10 {
        ((d + 48) as u8) as char
    } else {
        ((d + 87) as u8) as char
    }
}

/// Appends `n` in lowercase hexadecimal to `s`.
fn append_hex(s: &mut String, n: u64)
    ensures
        final(s)@ == old(s)@ + hex_text(n as nat),
    decreases n,
{
    if n >= 16 {
        append_hex(s, n / 16);
    }
    let c = hex_digit_exec(n % 16);
    crate::text::push_char(s, c);
    proof {
        if n >= 16 {
            assert(hex_text(n as nat) == hex_text((n / 16) as nat).push(hex_digit_char((n % 16) as nat)));
        }
    }
}

/// Appends groups `from..to` of `segs` in hexadecimal, separated by `:`.
fn append_hex_groups(s: &mut String, segs: &Vec<u64>, from: usize, to: usize)
    requires
        from <= to <= segs.len(),
    ensures
        final(s)@ == old(s)@ + join_fields(
            hex_fields(segs@.map_values(|x: u64| x as nat).subrange(from as int, to as int)),
            ':',
        ),
{
    let ghost start = s@;
    let ghost all = segs@.map_values(|x: u64| x as nat).subrange(from as int, to as int);
    let mut k = from;
    assert(hex_fields(all.take(0)) =~= Seq::<Seq<char>>::empty());
    assert(start + Seq::<char>::empty() =~= start);
    while k < to
        invariant
            from <= k <= to <= segs.len(),
            all == segs@.map_values(|x: u64| x as nat).subrange(from as int, to as int),
            s@ == start + join_fields(hex_fields(all.take(k - from)), ':'),
        decreases to - k,
    {
        let ghost before = s@;
        let ghost f = hex_fields(all.take(k + 1 - from));
        assert(f.drop_last() =~= hex_fields(all.take(k - from)));
        assert(f.last() == hex_text(segs@[k as int] as nat));
        if k > from {
            crate::text::append_str(s, ":");
            proof {
                reveal_strlit(":");
            }
        }
        append_hex(s, segs[k]);
        proof {
            if k > from {
                assert(s@ =~= start + (join_fields(hex_fields(all.take(k - from)), ':').push(':')
                    + f.last()));
            } else {
                assert(f =~= seq![f[0]]);
                assert(s@ =~= start + f[0]);
            }
        }
        k += 1;
    }
    assert(all.take(to - from) =~= all);
}

proof fn lemma_compressed_unique(segs: Seq<nat>, s1: int, l1: int, s2: int, l2: int)
    requires
        compressed_run(segs, s1, l1),
        compressed_run(segs, s2, l2),
    ensures
        s1 == s2 && l1 == l2,
{
    assert(zeros_at(segs, s2, l2));
    assert(zeros_at(segs, s1, l1));
}

/// The run of zero groups to compress in `segs`, if one is to be.
fn find_compressed_run(segs: &Vec<u64>) -> (r: Option<(usize, usize)>)
    requires
        segs@.len() == 8,
    ensures
        ({
            let n = segs@.map_values(|x: u64| x as nat);
            match r {
                Some((start, len)) => compressed_run(n, start as int, len as int),
                None => !exists|s: int, l: int| compressed_run(n, s, l),
            }
        }),
{
    let ghost n = segs@.map_values(|x: u64| x as nat);
    let mut best_start: usize = 0;
    let mut best_len: usize = 0;
    let mut cur_start: usize = 0;
    let mut cur_len: usize = 0;
    let mut i: usize = 0;
    while i < 8
        invariant
            i <= 8,
            segs@.len() == 8,
            n == segs@.map_values(|x: u64| x as nat),
            cur_start + cur_len == i,
            zeros_at(n, cur_start as int, cur_len as int),
            cur_start == 0 || n[cur_start - 1] != 0,
            best_start + best_len <= i,
            zeros_at(n, best_start as int, best_len as int),
            forall|s2: int, l2: int|
                #[trigger] zeros_at(n, s2, l2) && s2 + l2 <= i ==> l2 < best_len || (l2 == best_len
                    && best_start <= s2),
        decreases 8 - i,
    {
        if segs[i] == 0 {
            cur_len = cur_len + 1;
            if cur_len > best_len {
                best_start = cur_start;
                best_len = cur_len;
            }
        } else {
            cur_start = i + 1;
            cur_len = 0;
        }
        i += 1;
        proof {
            assert forall|s2: int, l2: int|
                #[trigger] zeros_at(n, s2, l2) && s2 + l2 <= i implies l2 < best_len || (l2
                == best_len && best_start <= s2) by {
                if s2 + l2 == i && l2 > 0 {
                    if s2 < cur_start {
                        assert(n[cur_start - 1] == 0);
                    }
                }
            }
        }
    }
    if best_len >= 2 {
        Some((best_start, best_len))
    } else {
        proof {
            if exists|s: int, l: int| compressed_run(n, s, l) {
                let (s, l) = choose|s: int, l: int| compressed_run(n, s, l);
                assert(zeros_at(n, s, l));
            }
        }
        None
    }
}

/// Appends `v` to `s` as the standard library writes an IPv6 address.
pub fn append_ipv6(s: &mut String, v: u128)
    ensures
        final(s)@ == old(s)@ + v6_text(v),
{
    let ghost start = s@;
    if v / 0x1_0000_0000 == 0xffff {
        crate::text::append_str(s, "::ffff:");
        append_ipv4(s, (v % 0x1_0000_0000) as u32);
        proof {
            reveal_strlit("::ffff:");
            assert(s@ =~= start + v6_text(v));
        }
        return ;
    }
    let segs = segments_of(v);
    let ghost n = v6_segments(v);
    match find_compressed_run(&segs) {
        Some((run_start, run_len)) => {
            append_hex_groups(s, &segs, 0, run_start);
            crate::text::append_str(s, "::");
            append_hex_groups(s, &segs, run_start + run_len, 8);
            proof {
                reveal_strlit("::");
                let (cs, cl) = choose|a: int, b: int| compressed_run(n, a, b);
                lemma_compressed_unique(n, cs, cl, run_start as int, run_len as int);
                assert(n.subrange(0, run_start as int) =~= n.take(run_start as int));
                assert(n.subrange(run_start + run_len, 8) =~= n.skip(run_start + run_len));
                assert(s@ =~= start + v6_text(v));
            }
        },
        None => {
            append_hex_groups(s, &segs, 0, 8);
            proof {
                assert(n.subrange(0, 8) =~= n);
                assert(s@ =~= start + v6_text(v));
            }
        },
    }
}

/// Appends `address` to `s` as the standard library writes it.
pub fn append_ip(s: &mut String, address: IpAddress)
    ensures
        final(s)@ == old(s)@ + ip_text(address),
{
    match address {
        IpAddress::V4(x) => append_ipv4(s, x),
        IpAddress::V6(y) => append_ipv6(s, y),
    }
}

} // verus!

verus! {

proof fn lemma_first_double_colon(s: Seq<char>, p: int)
    requires
        0 <= p,
        p + 1 < s.len(),
        s[p] == ':' && s[p + 1] == ':',
        forall|j: int| 0 <= j < p ==> !(s[j] == ':' && #[trigger] s[j + 1] == ':'),
    ensures
        first_double_colon(s) == Some(p),
    decreases p,
{
    if p > 0 {
        let t = s.drop_first();
        assert forall|j: int| 0 <= j < p - 1 implies !(t[j] == ':' && #[trigger] t[j + 1] == ':') by {
            assert(t[j] == s[j + 1] && t[j + 1] == s[j + 2]);
            assert(!(s[j + 1] == ':' && s[(j + 1) + 1] == ':'));
        }
        lemma_first_double_colon(t, p - 1);
        assert(!(s[0] == ':' && s[0int + 1] == ':'));
    }
}

proof fn lemma_no_double_colon(s: Seq<char>)
    requires
        forall|j: int| 0 <= j && j + 1 < s.len() ==> !(s[j] == ':' && #[trigger] s[j + 1] == ':'),
    ensures
        first_double_colon(s) is None,
    decreases s.len(),
{
    if s.len() >= 2 {
        let t = s.drop_first();
        assert forall|j: int| 0 <= j && j + 1 < t.len() implies !(t[j] == ':' && #[trigger] t[j
            + 1] == ':') by {
            assert(t[j] == s[j + 1] && t[j + 1] == s[j + 2]);
            assert(!(s[j + 1] == ':' && s[(j + 1) + 1] == ':'));
        }
        lemma_no_double_colon(t);
        assert(!(s[0] == ':' && s[0int + 1] == ':'));
    }
}

fn find_double_colon(chars: &Vec<char>) -> (r: Option<usize>)
    ensures
        match first_double_colon(chars@) {
            Some(p) => r == Some(p as usize) && p + 1 < chars.len() && 0 <= p,
            None => r is None,
        },
{
    let mut i: usize = 0;
    while i < chars.len()
        invariant
            forall|j: int| 0 <= j < i && j + 1 < chars.len() ==> !(chars@[j] == ':' && #[trigger] chars@[j + 1] == ':'),
        decreases chars.len() - i,
    {
        if i + 1 < chars.len() && chars[i] == ':' && chars[i + 1] == ':' {
            proof {
                lemma_first_double_colon(chars@, i as int);
            }
            return Some(i);
        }
        i += 1;
    }
    proof {
        lemma_no_double_colon(chars@);
    }
    None
}

fn hex_digit_value_exec(c: char) -> (r: u64)
    requires
        crate::text::is_hex_digit(c),
    ensures
        r as nat == hex_digit_value(c),
        r < 16,
{
    if '0' <= c && c <= '9' {
        (c as u32 - 48) as u64
    } else if 'a' <= c && c <= 'f' {
        (c as u32 - 87) as u64
    } else {
        (c as u32 - 55) as u64
    }
}

/// The value of the group `chars[from..to]`, if it is one.
fn group_at(chars: &Vec<char>, from: usize, to: usize) -> (r: Option<u64>)
    requires
        from <= to <= chars.len(),
    ensures
        match group_value(chars@.subrange(from as int, to as int)) {
            Some(g) => r == Some(g as u64) && g < 65536,
            None => r is None,
        },
{
    let ghost s = chars@.subrange(from as int, to as int);
    if to - from < 1 || to - from > 4 {
        return None;
    }
    let mut value: u64 = 0;
    let mut i = from;
    while i < to
        invariant
            from <= i <= to <= chars.len(),
            to - from <= 4,
            s == chars@.subrange(from as int, to as int),
            forall|j: int| from <= j < i ==> crate::text::is_hex_digit(#[trigger] chars@[j]),
            value as nat == hex_value(chars@.subrange(from as int, i as int)),
            value < pow16((i - from) as nat),
        decreases to - i,
    {
        if !crate::text::is_hex_digit_exec(chars[i]) {
            assert(!crate::text::is_hex_digit(s[i - from]));
            return None;
        }
        let d = hex_digit_value_exec(chars[i]);
        proof {
            let next = chars@.subrange(from as int, i + 1);
            assert(next.drop_last() =~= chars@.subrange(from as int, i as int));
            assert(pow16((i + 1 - from) as nat) == 16 * pow16((i - from) as nat));
            assert(value * 16 + d < 16 * pow16((i - from) as nat)) by (nonlinear_arith)
                requires
                    value < pow16((i - from) as nat),
                    d < 16,
            ;
            assert(pow16((i - from) as nat) <= 4096) by {
                reveal_with_fuel(pow16, 5);
            }
        }
        value = value * 16 + d;
        i += 1;
    }
    proof {
        assert forall|k: int| 0 <= k < s.len() implies crate::text::is_hex_digit(#[trigger] s[k]) by {
            assert(s[k] == chars@[from + k]);
        }
        reveal_with_fuel(pow16, 5);
    }
    Some(value)
}

/// `16` to the power `k`.
pub open spec fn pow16(k: nat) -> nat
    decreases k,
{
    if k == 0 {
        1
    } else {
        16 * pow16((k - 1) as nat)
    }
}

/// The texts `part[start..end]` for the first `count` ranges.
pub open spec fn range_fields(part: Seq<char>, ranges: Seq<(usize, usize)>, count: nat) -> Seq<
    Seq<char>,
> {
    Seq::new(count, |i: int| part.subrange(ranges[i].0 as int, ranges[i].1 as int))
}

/// The values of the groups among `part`'s colon-separated fields, when
/// every field is one.
fn groups_in(part: &Vec<char>, ranges: &Vec<(usize, usize)>, count: usize) -> (r: Option<Vec<u64>>)
    requires
        count <= ranges@.len(),
        forall|i: int|
            0 <= i < ranges@.len() ==> (#[trigger] ranges@[i]).0 <= ranges@[i].1 <= part.len(),
    ensures
        ({
            let fields = range_fields(part@, ranges@, count as nat);
            match groups_value(fields) {
                Some(g) => r matches Some(v) && v@.map_values(|x: u64| x as nat) == g && forall|
                    i: int,
                | 0 <= i < v@.len() ==> #[trigger] v@[i] < 65536,
                None => r is None,
            }
        }),
{
    let ghost fields = range_fields(part@, ranges@, count as nat);
    let mut out: Vec<u64> = Vec::new();
    let mut k: usize = 0;
    while k < count
        invariant
            k <= count <= ranges@.len(),
            forall|i: int|
                0 <= i < ranges@.len() ==> (#[trigger] ranges@[i]).0 <= ranges@[i].1 <= part.len(),
            fields == range_fields(part@, ranges@, count as nat),
            out@.len() == k,
            forall|j: int|
                0 <= j < k ==> (#[trigger] group_value(fields[j])) is Some && out@[j] as nat
                    == group_value(fields[j])->0,
            forall|j: int| 0 <= j < k ==> #[trigger] out@[j] < 65536,
        decreases count - k,
    {
        let (a, b) = ranges[k];
        match group_at(part, a, b) {
            Some(g) => {
                out.push(g);
            },
            None => {
                assert(group_value(fields[k as int]) is None);
                return None;
            },
        }
        k += 1;
    }
    assert(out@.map_values(|x: u64| x as nat) =~= Seq::new(
        fields.len(),
        |i: int| group_value(fields[i])->0,
    ));
    assert(forall|i: int| 0 <= i < fields.len() ==> (#[trigger] group_value(fields[i])) is Some);
    assert(groups_value(fields) == Some(Seq::new(fields.len(), |i: int| group_value(fields[i])->0)));
    assert(out@.map_values(|x: u64| x as nat) == groups_value(fields)->0);
    assert(forall|i: int| 0 <= i < out@.len() ==> #[trigger] out@[i] < 65536);
    Some(out)
}

} // verus!

verus! {

/// The groups written by `part`'s colon-separated fields, the last of which
/// may be an IPv4 address standing for two groups.
fn segments_in(part: &Vec<char>) -> (r: Option<Vec<u64>>)
    ensures
        match tail_segments(colon_fields(part@)) {
            Some(t) => r matches Some(v) && v@.map_values(|x: u64| x as nat) == t && forall|i: int|
                0 <= i < v@.len() ==> #[trigger] v@[i] < 65536,
            None => r is None,
        },
{
    if part.len() == 0 {
        let v: Vec<u64> = Vec::new();
        proof {
            assert(colon_fields(part@) =~= Seq::<Seq<char>>::empty());
            assert(v@.map_values(|x: u64| x as nat) =~= Seq::new(0, |i: int| 0nat));
            assert(groups_value(Seq::<Seq<char>>::empty()) == Some(Seq::new(0, |i: int| group_value(Seq::<Seq<char>>::empty()[i])->0)));
            assert(Seq::new(0, |i: int| group_value(Seq::<Seq<char>>::empty()[i])->0) =~= Seq::<nat>::empty());
            assert(v@.map_values(|x: u64| x as nat) =~= Seq::<nat>::empty());
        }
        return Some(v);
    }
    let ranges = split_ranges(part, ':');
    let ghost fields = split_fields(part@, ':');
    proof {
        crate::text::lemma_split_nonempty(part@, ':');
        assert(range_fields(part@, ranges@, ranges@.len() as nat) =~= fields);
        assert(colon_fields(part@) == fields);
    }
    let n = ranges.len();
    let (a, b) = ranges[n - 1];
    assert(part@.subrange(a as int, b as int) == fields.last());
    if crate::text::contains_char(part, a, b, '.') {
        proof {
            assert(range_fields(part@, ranges@, (n - 1) as nat) =~= fields.drop_last());
        }
        let mut g = match groups_in(part, &ranges, n - 1) {
            Some(g) => g,
            None => return None,
        };
        let last = sub_chars(part, a, b);
        let x = match parse_ipv4(&last) {
            Some(x) => x,
            None => return None,
        };
        let ghost before = g@;
        g.push((x / 65536) as u64);
        g.push((x % 65536) as u64);
        proof {
            assert(g@.map_values(|y: u64| y as nat) =~= before.map_values(|y: u64| y as nat) + seq![
                (x / 65536) as nat,
                (x % 65536) as nat,
            ]);
            assert forall|i: int| 0 <= i < g@.len() implies #[trigger] g@[i] < 65536 by {
                if i < before.len() {
                    assert(g@[i] == before[i]);
                }
            }
        }
        Some(g)
    } else {
        groups_in(part, &ranges, n)
    }
}

proof fn lemma_segments_value_bound(segs: Seq<nat>)
    requires
        forall|i: int| 0 <= i < segs.len() ==> #[trigger] segs[i] < 65536,
    ensures
        segments_value(segs) < pow65536(segs.len()),
    decreases segs.len(),
{
    if segs.len() > 0 {
        let d = segs.drop_last();
        assert forall|i: int| 0 <= i < d.len() implies #[trigger] d[i] < 65536 by {
            assert(d[i] == segs[i]);
        }
        lemma_segments_value_bound(d);
        let a = segments_value(d);
        let p = pow65536(d.len());
        let x = segs.last();
        assert(x < 65536);
        assert(a * 65536 + x < p * 65536) by (nonlinear_arith)
            requires
                a < p,
                x < 65536,
        ;
        assert(pow65536(segs.len()) == 65536 * p);
    }
}

/// The number whose base-65536 digits are `segs`.
fn value_of(segs: &Vec<u64>) -> (r: u128)
    requires
        segs@.len() == 8,
        forall|i: int| 0 <= i < segs@.len() ==> #[trigger] segs@[i] < 65536,
    ensures
        r as nat == segments_value(segs@.map_values(|x: u64| x as nat)),
{
    let ghost n = segs@.map_values(|x: u64| x as nat);
    let mut acc: u128 = 0;
    let mut i: usize = 0;
    assert(n.take(0) =~= Seq::<nat>::empty());
    while i < 8
        invariant
            i <= 8,
            segs@.len() == 8,
            n == segs@.map_values(|x: u64| x as nat),
            forall|j: int| 0 <= j < segs@.len() ==> #[trigger] segs@[j] < 65536,
            acc as nat == segments_value(n.take(i as int)),
        decreases 8 - i,
    {
        proof {
            assert(n.take(i as int + 1).drop_last() =~= n.take(i as int));
            assert forall|j: int| 0 <= j < n.take(i as int).len() implies #[trigger] n.take(
                i as int,
            )[j] < 65536 by {
                assert(n.take(i as int)[j] == segs@[j] as nat);
            }
            lemma_segments_value_bound(n.take(i as int));
            assert(pow65536(i as nat) <= pow65536(7)) by {
                reveal_with_fuel(pow65536, 9);
            }
            assert(pow65536(7) == 0x1_0000_0000_0000_0000_0000_0000_0000) by {
                reveal_with_fuel(pow65536, 9);
            }
            assert(acc * 65536 + segs@[i as int] < 0x1_0000_0000_0000_0000_0000_0000_0000_0000)
                by (nonlinear_arith)
                requires
                    acc < 0x1_0000_0000_0000_0000_0000_0000_0000,
                    segs@[i as int] < 65536,
            ;
        }
        acc = acc * 65536 + segs[i] as u128;
        i += 1;
    }
    assert(n.take(8) =~= n);
    acc
}

/// The IPv6 address written by `chars`, as the standard library reads it.
pub fn parse_ipv6(chars: &Vec<char>) -> (r: Option<u128>)
    ensures
        r == parse_v6(chars@),
{
    match find_double_colon(chars) {
        Some(p) => {
            let head = sub_chars(chars, 0, p);
            let tail = sub_chars(chars, p + 2, chars.len());
            assert(head@ == chars@.take(p as int));
            assert(tail@ == chars@.skip(p + 2));
            let h = if head.len() == 0 {
                let v: Vec<u64> = Vec::new();
                proof {
                    assert(colon_fields(head@) =~= Seq::<Seq<char>>::empty());
                    assert(Seq::new(0, |i: int| group_value(Seq::<Seq<char>>::empty()[i])->0)
                        =~= Seq::<nat>::empty());
                    assert(v@.map_values(|x: u64| x as nat) =~= Seq::<nat>::empty());
                }
                v
            } else {
                let ranges = split_ranges(&head, ':');
                proof {
                    assert(range_fields(head@, ranges@, ranges@.len() as nat) =~= split_fields(
                        head@,
                        ':',
                    ));
                }
                match groups_in(&head, &ranges, ranges.len()) {
                    Some(v) => v,
                    None => return None,
                }
            };
            let t = match segments_in(&tail) {
                Some(t) => t,
                None => return None,
            };
            if h.len() > 7 || t.len() > 7 - h.len() {
                return None;
            }
            let gap = 8 - h.len() - t.len();
            let mut segs: Vec<u64> = Vec::new();
            let mut k: usize = 0;
            while k < h.len()
                invariant
                    k <= h.len(),
                    segs@ == h@.take(k as int),
                decreases h.len() - k,
            {
                segs.push(h[k]);
                assert(h@.take(k + 1) =~= h@.take(k as int).push(h@[k as int]));
                k += 1;
            }
            let mut z: usize = 0;
            assert(h@.take(h.len() as int) =~= h@);
            while z < gap
                invariant
                    z <= gap,
                    segs@ == h@ + Seq::new(z as nat, |i: int| 0u64),
                decreases gap - z,
            {
                segs.push(0);
                assert(h@ + Seq::new((z + 1) as nat, |i: int| 0u64) =~= (h@ + Seq::new(
                    z as nat,
                    |i: int| 0u64,
                )).push(0));
                z += 1;
            }
            let mut j: usize = 0;
            while j < t.len()
                invariant
                    j <= t.len(),
                    segs@ == h@ + Seq::new(gap as nat, |i: int| 0u64) + t@.take(j as int),
                decreases t.len() - j,
            {
                segs.push(t[j]);
                assert(t@.take(j + 1) =~= t@.take(j as int).push(t@[j as int]));
                j += 1;
            }
            proof {
                assert(t@.take(t.len() as int) =~= t@);
                let hs = h@.map_values(|x: u64| x as nat);
                let ts = t@.map_values(|x: u64| x as nat);
                assert(segs@.map_values(|x: u64| x as nat) =~= hs + zero_segments(gap as nat) + ts);
                assert forall|i: int| 0 <= i < segs@.len() implies #[trigger] segs@[i] < 65536 by {
                    if i < h.len() {
                        assert(segs@[i] == h@[i]);
                    } else if i < h.len() + gap {
                        assert(segs@[i] == 0);
                    } else {
                        assert(segs@[i] == t@[i - h.len() - gap]);
                    }
                }
            }
            Some(value_of(&segs))
        },
        None => {
            if chars.len() == 0 {
                proof {
                    assert(split_fields(chars@, ':') =~= seq![Seq::<char>::empty()]);
                    assert(group_value(Seq::<char>::empty()) is None);
                    assert(!Seq::<char>::empty().contains('.'));
                }
                return None;
            }
            let t = match segments_in(chars) {
                Some(t) => t,
                None => return None,
            };
            if t.len() != 8 {
                return None;
            }
            Some(value_of(&t))
        },
    }
}

/// The address written by `chars`: IPv4 when it reads as one, else IPv6.
pub fn parse_ip_chars(chars: &Vec<char>) -> (r: Option<IpAddress>)
    ensures
        r == parse_ip(chars@),
{
    match parse_ipv4(chars) {
        Some(x) => Some(IpAddress::V4(x)),
        None => match parse_ipv6(chars) {
            Some(y) => Some(IpAddress::V6(y)),
            None => None,
        },
    }
}

} // verus!

verus! {

// ---------------------------------------------------------------------------
// Reading back what was written
// ---------------------------------------------------------------------------

proof fn lemma_segments_recompose(v: u128, k: nat)
    requires
        k <= 8,
    ensures
        segments_value(v6_segments(v).take(k as int)) == (v as nat) / pow65536((8 - k) as nat),
    decreases k,
{
    let segs = v6_segments(v);
    if k == 0 {
        assert(segs.take(0) =~= Seq::<nat>::empty());
        assert(pow65536(8) == 0x1_0000_0000_0000_0000_0000_0000_0000_0000nat) by {
            reveal_with_fuel(pow65536, 9);
        }
        assert((v as nat) / 0x1_0000_0000_0000_0000_0000_0000_0000_0000nat == 0);
    } else {
        lemma_segments_recompose(v, (k - 1) as nat);
        assert(segs.take(k as int).drop_last() =~= segs.take(k - 1));
        let p = pow65536((8 - k) as nat);
        lemma_pow65536_positive((8 - k) as nat);
        assert(pow65536((9 - k) as nat) == 65536 * p);
        let q = (v as nat) / p;
        vstd::arithmetic::div_mod::lemma_div_denominator(v as int, p as int, 65536);
        vstd::arithmetic::div_mod::lemma_fundamental_div_mod(q as int, 65536);
        assert(segs[k - 1] == q % 65536);
        assert((v as nat) / pow65536((9 - k) as nat) == q / 65536);
        assert(q == 65536 * (q / 65536) + q % 65536);
        assert(segments_value(segs.take(k as int)) == segments_value(segs.take(k - 1)) * 65536
            + segs[k - 1]);
    }
}

proof fn lemma_segments_value_v6(v: u128)
    ensures
        segments_value(v6_segments(v)) == v as nat,
        v6_segments(v).len() == 8,
        forall|i: int| 0 <= i < 8 ==> #[trigger] v6_segments(v)[i] < 65536,
{
    lemma_segments_recompose(v, 8);
    assert(v6_segments(v).take(8) =~= v6_segments(v));
    assert(pow65536(0) == 1);
    assert((v as nat) / 1 == v as nat);
}

proof fn lemma_hex_text(n: nat)
    ensures
        hex_text(n).len() > 0,
        hex_value(hex_text(n)) == n,
        forall|i: int| 0 <= i < hex_text(n).len() ==> crate::text::is_hex_digit(#[trigger] hex_text(n)[i]),
        n < pow16(hex_text(n).len()),
        hex_text(n).len() == 1 || n >= pow16((hex_text(n).len() - 1) as nat),
    decreases n,
{
    let d = n % 16;
    assert(hex_digit_char(d) as u32 == if d < 10 { d + 48 } else { d + 87 });
    assert(hex_digit_value(hex_digit_char(d)) == d);
    if n >= 16 {
        lemma_hex_text(n / 16);
        let t = hex_text(n);
        let u = hex_text(n / 16);
        assert(t.drop_last() == u);
        assert(t.last() == hex_digit_char(d));
        assert(hex_value(t) == hex_value(u) * 16 + d);
        assert forall|i: int| 0 <= i < t.len() implies crate::text::is_hex_digit(#[trigger] t[i]) by {
            if i < u.len() {
                assert(t[i] == u[i]);
            }
        }
        assert(pow16(t.len()) == 16 * pow16(u.len()));
        assert(n < 16 * pow16(u.len())) by (nonlinear_arith)
            requires
                n / 16 < pow16(u.len()),
        ;
        if u.len() > 1 {
            assert(pow16((t.len() - 1) as nat) == pow16(u.len()));
            assert(pow16(u.len()) == 16 * pow16((u.len() - 1) as nat));
            assert(n >= 16 * pow16((u.len() - 1) as nat)) by (nonlinear_arith)
                requires
                    n / 16 >= pow16((u.len() - 1) as nat),
            ;
        } else {
            reveal_with_fuel(pow16, 2);
        }
    } else {
        assert(seq![hex_digit_char(n)].drop_last() =~= Seq::<char>::empty());
        assert(hex_value(seq![hex_digit_char(n)]) == hex_value(Seq::<char>::empty()) * 16 + d);
        reveal_with_fuel(pow16, 2);
    }
}

proof fn lemma_hex_group(n: nat)
    requires
        n < 65536,
    ensures
        group_value(hex_text(n)) == Some(n),
        !hex_text(n).contains(':'),
        !hex_text(n).contains('.'),
        hex_text(n).len() > 0,
{
    lemma_hex_text(n);
    let t = hex_text(n);
    if t.len() > 4 {
        assert(pow16(4) == 65536) by {
            reveal_with_fuel(pow16, 5);
        }
        lemma_pow16_monotone(4, (t.len() - 1) as nat);
    }
    if t.contains(':') {
        let k = choose|k: int| 0 <= k < t.len() && t[k] == ':';
        assert(crate::text::is_hex_digit(t[k]));
    }
    if t.contains('.') {
        let k = choose|k: int| 0 <= k < t.len() && t[k] == '.';
        assert(crate::text::is_hex_digit(t[k]));
    }
}

proof fn lemma_pow16_monotone(a: nat, b: nat)
    requires
        a <= b,
    ensures
        pow16(a) <= pow16(b),
    decreases b,
{
    if a < b {
        lemma_pow16_monotone(a, (b - 1) as nat);
    }
}

/// Texts joined with `:` from non-empty fields free of `:` have no `::`,
/// and start and end with a character other than `:`.
proof fn lemma_join_no_double(fields: Seq<Seq<char>>)
    requires
        forall|i: int|
            0 <= i < fields.len() ==> (#[trigger] fields[i]).len() > 0 && !fields[i].contains(':'),
    ensures
        ({
            let j = join_fields(fields, ':');
            &&& forall|k: int| 0 <= k && k + 1 < j.len() ==> !(j[k] == ':' && #[trigger] j[k + 1] == ':')
            &&& j.len() > 0 ==> j[0] != ':' && j.last() != ':'
            &&& fields.len() > 0 ==> j.len() > 0
        }),
    decreases fields.len(),
{
    if fields.len() >= 2 {
        let d = fields.drop_last();
        assert forall|i: int| 0 <= i < d.len() implies (#[trigger] d[i]).len() > 0 && !d[i].contains(
            ':',
        ) by {
            assert(d[i] == fields[i]);
        }
        lemma_join_no_double(d);
        let a = join_fields(d, ':');
        let f = fields.last();
        assert(f.len() > 0 && !f.contains(':'));
        let j = join_fields(fields, ':');
        assert(j == a.push(':') + f);
        assert forall|k: int| 0 <= k && k + 1 < j.len() implies !(j[k] == ':' && #[trigger] j[k
            + 1] == ':') by {
            if k + 1 < a.len() {
                assert(j[k] == a[k] && j[k + 1] == a[k + 1]);
            } else if k + 1 == a.len() {
                assert(j[k] == a.last());
            } else if k == a.len() {
                assert(j[k + 1] == f[0]);
            } else {
                assert(j[k] == f[k - a.len() - 1]);
            }
        }
        assert(j[0] == a[0]);
        assert(j.last() == f.last());
    } else if fields.len() == 1 {
        let f = fields[0];
        assert forall|k: int| 0 <= k && k + 1 < f.len() implies !(f[k] == ':' && #[trigger] f[k
            + 1] == ':') by {}
    }
}

proof fn lemma_colon_fields_join(fields: Seq<Seq<char>>)
    requires
        forall|i: int|
            0 <= i < fields.len() ==> (#[trigger] fields[i]).len() > 0 && !fields[i].contains(':'),
    ensures
        colon_fields(join_fields(fields, ':')) == fields,
{
    lemma_join_no_double(fields);
    if fields.len() == 0 {
        assert(colon_fields(join_fields(fields, ':')) =~= fields);
    } else {
        assert forall|i: int| 0 <= i < fields.len() implies !(#[trigger] fields[i]).contains(':') by {}
        crate::text::lemma_split_join(fields, ':');
    }
}

proof fn lemma_hex_fields(segs: Seq<nat>)
    requires
        forall|i: int| 0 <= i < segs.len() ==> #[trigger] segs[i] < 65536,
    ensures
        forall|i: int|
            0 <= i < hex_fields(segs).len() ==> (#[trigger] hex_fields(segs)[i]).len() > 0
                && !hex_fields(segs)[i].contains(':') && !hex_fields(segs)[i].contains('.'),
        groups_value(hex_fields(segs)) == Some(segs),
        tail_segments(hex_fields(segs)) == Some(segs),
{
    let f = hex_fields(segs);
    assert forall|i: int| 0 <= i < f.len() implies (#[trigger] f[i]).len() > 0 && !f[i].contains(
        ':',
    ) && !f[i].contains('.') && group_value(f[i]) == Some(segs[i]) by {
        lemma_hex_group(segs[i]);
    }
    assert(forall|i: int| 0 <= i < f.len() ==> (#[trigger] group_value(f[i])) is Some);
    assert(Seq::new(f.len(), |i: int| group_value(f[i])->0) =~= segs);
}

proof fn lemma_v6_segments_small(v: u128)
    ensures
        forall|i: int| 0 <= i < v6_segments(v).len() ==> #[trigger] v6_segments(v)[i] < 65536,
        v6_segments(v).len() == 8,
{
}

proof fn lemma_no_dot(s: Seq<char>)
    requires
        !s.contains('.'),
    ensures
        parse_v4(s) is None,
{
    crate::text::lemma_split_extend(Seq::empty(), s, '.');
    assert(Seq::<char>::empty() + s =~= s);
    assert(split_fields(Seq::<char>::empty(), '.') =~= seq![Seq::<char>::empty()]);
    assert(split_fields(s, '.').len() == 1);
}

proof fn lemma_mapped_segments(v: u128)
    requires
        is_v4_mapped(v),
    ensures
        ({
            let x = (v as int % 0x1_0000_0000) as u32;
            zero_segments(5) + seq![65535nat, (x / 65536) as nat, (x % 65536) as nat]
                == v6_segments(v)
        }),
{
    let x = (v as int % 0x1_0000_0000) as u32;
    let full = zero_segments(5) + seq![65535nat, (x / 65536) as nat, (x % 65536) as nat];
    let segs = v6_segments(v);
    let vv = v as nat;
    assert(vv / 0x1_0000_0000 == 0xffff);
    assert(vv < 0x1_0000_0000_0000) by (nonlinear_arith)
        requires
            vv / 0x1_0000_0000 == 0xffff,
    ;
    reveal_with_fuel(pow65536, 9);
    assert(pow65536(0) == 1);
    assert(pow65536(1) == 0x1_0000);
    assert(pow65536(2) == 0x1_0000_0000);
    assert(pow65536(3) == 0x1_0000_0000_0000);
    assert(pow65536(4) == 0x1_0000_0000_0000_0000);
    assert(pow65536(5) == 0x1_0000_0000_0000_0000_0000);
    assert(pow65536(6) == 0x1_0000_0000_0000_0000_0000_0000);
    assert(pow65536(7) == 0x1_0000_0000_0000_0000_0000_0000_0000);
    assert(vv / 0x1_0000_0000_0000_0000_0000_0000_0000 == 0);
    assert(vv / 0x1_0000_0000_0000_0000_0000_0000 == 0);
    assert(vv / 0x1_0000_0000_0000_0000_0000 == 0);
    assert(vv / 0x1_0000_0000_0000_0000 == 0);
    assert(vv / 0x1_0000_0000_0000 == 0);
    assert(segs[0] == 0 && segs[1] == 0 && segs[2] == 0 && segs[3] == 0 && segs[4] == 0);
    assert(segs[5] == 0xffff);
    assert(vv / 0x1_0000 % 0x1_0000 == (vv % 0x1_0000_0000) / 0x1_0000) by (nonlinear_arith)
        requires
            vv < 0x1_0000_0000_0000,
    ;
    assert(vv % 0x1_0000 == (vv % 0x1_0000_0000) % 0x1_0000) by (nonlinear_arith);
    assert(segs[6] == (x / 65536) as nat);
    assert(vv / 1 == vv);
    assert(x as nat == vv % 0x1_0000_0000);
    assert(segs[7] == (x % 65536) as nat);
    assert(full =~= segs);
}

proof fn lemma_v6_mapped_round_trip(v: u128)
    requires
        is_v4_mapped(v),
    ensures
        parse_v6(v6_text(v)) == Some(v),
        parse_v4(v6_text(v)) is None,
{
    let segs = v6_segments(v);
    lemma_segments_value_v6(v);
    let t = v6_text(v);
    let x = (v as int % 0x1_0000_0000) as u32;
    let w = v4_text(x);
    lemma_v4_round_trip(x);
    let pre = seq![':', ':', 'f', 'f', 'f', 'f', ':'];
    assert(t == pre + w);
    lemma_first_double_colon(t, 0);
    assert(t.take(0) =~= Seq::<char>::empty());
    assert(colon_fields(t.take(0)) =~= Seq::<Seq<char>>::empty());
    let rest = t.skip(2);
    let ffff = seq!['f', 'f', 'f', 'f'];
    assert(rest =~= ffff.push(':') + w);
    let fields = seq![ffff, w];
    assert(join_fields(fields, ':') =~= rest) by {
        reveal_with_fuel(join_fields, 2);
        assert(fields.drop_last() =~= seq![ffff]);
    }
    assert(!ffff.contains(':')) by {
        if ffff.contains(':') {
            let k = choose|k: int| 0 <= k < 4 && ffff[k] == ':';
        }
    }
    assert(forall|i: int| 0 <= i < fields.len() ==> !(#[trigger] fields[i]).contains(':'));
    crate::text::lemma_split_join(fields, ':');
    assert(colon_fields(rest) == fields);
    assert(w.contains('.')) by {
        let f = v4_fields(x);
        assert(w == f[0].push('.') + f[1] + seq!['.'] + f[2] + seq!['.'] + f[3]) by {
            reveal_with_fuel(join_fields, 4);
            assert(f.drop_last().drop_last().drop_last() =~= seq![f[0]]);
            assert(f.drop_last().drop_last() =~= seq![f[0], f[1]]);
            assert(f.drop_last() =~= seq![f[0], f[1], f[2]]);
        }
        assert(w[f[0].len() as int] == '.');
    }
    assert(hex_value(ffff) == 65535) by {
        reveal_with_fuel(hex_value, 5);
        assert(ffff.drop_last() =~= seq!['f', 'f', 'f']);
        assert(ffff.drop_last().drop_last() =~= seq!['f', 'f']);
        assert(ffff.drop_last().drop_last().drop_last() =~= seq!['f']);
        assert(ffff.drop_last().drop_last().drop_last().drop_last() =~= Seq::<char>::empty());
    }
    assert(group_value(ffff) == Some(65535nat));
    let g = seq![ffff];
    assert(fields.drop_last() =~= g);
    assert(forall|i: int| 0 <= i < g.len() ==> (#[trigger] group_value(g[i])) is Some);
    assert(Seq::new(g.len(), |i: int| group_value(g[i])->0) =~= seq![65535nat]);
    let tail = seq![65535nat, (x / 65536) as nat, (x % 65536) as nat];
    assert(tail_segments(fields) == Some(tail));
    let e = Seq::<Seq<char>>::empty();
    assert(groups_value(e) == Some(Seq::<nat>::empty())) by {
        assert(Seq::new(0, |i: int| group_value(e[i])->0) =~= Seq::<nat>::empty());
    }
    lemma_mapped_segments(v);
    assert(Seq::<nat>::empty() + zero_segments(5) + tail =~= zero_segments(5) + tail);
    lemma_no_dot_colon_first(t);
}

proof fn lemma_v6_compressed_round_trip(v: u128, s: int, l: int)
    requires
        !is_v4_mapped(v),
        compressed_run(v6_segments(v), s, l),
    ensures
        parse_v6(v6_text(v)) == Some(v),
        parse_v4(v6_text(v)) is None,
{
    let segs = v6_segments(v);
    lemma_segments_value_v6(v);
    let (cs, cl) = choose|a: int, b: int| compressed_run(segs, a, b);
    lemma_compressed_unique(segs, cs, cl, s, l);
    let t = v6_text(v);
    let hs = segs.take(s);
    let ts = segs.skip(s + l);
    let hf = hex_fields(hs);
    let tf = hex_fields(ts);
    lemma_hex_fields(hs);
    lemma_hex_fields(ts);
    let a = join_fields(hf, ':');
    let b = join_fields(tf, ':');
    assert(t == a + seq![':', ':'] + b);
    lemma_join_no_double(hf);
    assert forall|j: int| 0 <= j < a.len() implies !(t[j] == ':' && #[trigger] t[j + 1] == ':') by {
        if j + 1 < a.len() {
            assert(t[j] == a[j] && t[j + 1] == a[j + 1]);
        } else {
            assert(t[j] == a.last());
        }
    }
    lemma_first_double_colon(t, a.len() as int);
    assert(t.take(a.len() as int) =~= a);
    assert(t.skip(a.len() as int + 2) =~= b);
    lemma_colon_fields_join(hf);
    lemma_colon_fields_join(tf);
    assert(hs + zero_segments((8 - hs.len() - ts.len()) as nat) + ts =~= segs);
    assert(!t.contains('.')) by {
        if t.contains('.') {
            let k = choose|k: int| 0 <= k < t.len() && t[k] == '.';
            lemma_join_dot_free(hf);
            lemma_join_dot_free(tf);
            if k < a.len() {
                assert(a[k] == '.');
            } else if k >= a.len() + 2 {
                assert(b[k - a.len() - 2] == '.');
            }
        }
    }
    lemma_no_dot(t);
}

proof fn lemma_v6_plain_round_trip(v: u128)
    requires
        !is_v4_mapped(v),
        !exists|s: int, l: int| compressed_run(v6_segments(v), s, l),
    ensures
        parse_v6(v6_text(v)) == Some(v),
        parse_v4(v6_text(v)) is None,
{
    let segs = v6_segments(v);
    lemma_segments_value_v6(v);
    let t = v6_text(v);
    let hf = hex_fields(segs);
    lemma_hex_fields(segs);
    lemma_join_no_double(hf);
    lemma_no_double_colon(t);
    assert forall|i: int| 0 <= i < hf.len() implies !(#[trigger] hf[i]).contains(':') by {}
    crate::text::lemma_split_join(hf, ':');
    lemma_join_dot_free(hf);
    lemma_no_dot(t);
}

/// An IPv6 address as written reads back as itself.
pub proof fn lemma_v6_round_trip(v: u128)
    ensures
        parse_v6(v6_text(v)) == Some(v),
        parse_v4(v6_text(v)) is None,
{
    if is_v4_mapped(v) {
        lemma_v6_mapped_round_trip(v);
    } else if exists|s: int, l: int| compressed_run(v6_segments(v), s, l) {
        let (s, l) = choose|s: int, l: int| compressed_run(v6_segments(v), s, l);
        lemma_v6_compressed_round_trip(v, s, l);
    } else {
        lemma_v6_plain_round_trip(v);
    }
}

proof fn lemma_join_dot_free(fields: Seq<Seq<char>>)
    requires
        forall|i: int| 0 <= i < fields.len() ==> !(#[trigger] fields[i]).contains('.'),
    ensures
        !join_fields(fields, ':').contains('.'),
    decreases fields.len(),
{
    if fields.len() >= 2 {
        let d = fields.drop_last();
        assert forall|i: int| 0 <= i < d.len() implies !(#[trigger] d[i]).contains('.') by {
            assert(d[i] == fields[i]);
        }
        lemma_join_dot_free(d);
        let a = join_fields(d, ':');
        let f = fields.last();
        let j = join_fields(fields, ':');
        if j.contains('.') {
            let k = choose|k: int| 0 <= k < j.len() && j[k] == '.';
            if k < a.len() {
                assert(a[k] == '.');
            } else if k > a.len() {
                assert(f[k - a.len() - 1] == '.');
            }
        }
    }
}

proof fn lemma_no_dot_colon_first(t: Seq<char>)
    requires
        t.len() > 7,
        t[0] == ':',
    ensures
        parse_v4(t) is None,
{
    let f = split_fields(t, '.');
    crate::text::lemma_split_nonempty(t, '.');
    if f.len() == 4 && octet_value(f[0]) is Some {
        lemma_split_first_char(t, '.');
        assert(f[0][0] == ':');
        assert(crate::text::is_digit(f[0][0]));
    }
}

/// The first field of a split starts with the text's first character,
/// unless that character is the separator.
proof fn lemma_split_first_char(s: Seq<char>, sep: char)
    requires
        s.len() > 0,
        s[0] != sep,
    ensures
        split_fields(s, sep)[0].len() > 0,
        split_fields(s, sep)[0][0] == s[0],
    decreases s.len(),
{
    crate::text::lemma_split_nonempty(s, sep);
    if s.len() > 1 {
        let d = s.drop_last();
        lemma_split_first_char(d, sep);
        crate::text::lemma_split_nonempty(d, sep);
        let f = split_fields(d, sep);
        if s.last() != sep && f.len() == 1 {
            assert(split_fields(s, sep)[0] == f[0].push(s.last()));
        }
    } else {
        assert(s.drop_last() =~= Seq::<char>::empty());
        assert(split_fields(s.drop_last(), sep) =~= seq![Seq::<char>::empty()]);
    }
}

/// Every address as written reads back as itself.
pub proof fn lemma_ip_round_trip(a: IpAddress)
    ensures
        parse_ip(ip_text(a)) == Some(a),
{
    match a {
        IpAddress::V4(x) => lemma_v4_round_trip(x),
        IpAddress::V6(y) => lemma_v6_round_trip(y),
    }
}

} // verus!

verus! {

/// A character of written addresses: hexadecimal digits, `:` and `.`.
pub open spec fn is_ip_char(c: char) -> bool {
    crate::text::is_hex_digit(c) || c == ':' || c == '.'
}

proof fn lemma_join_chars(fields: Seq<Seq<char>>, sep: char)
    requires
        is_ip_char(sep),
        forall|i: int, k: int|
            0 <= i < fields.len() && 0 <= k < fields[i].len() ==> is_ip_char(#[trigger] fields[i][k]),
    ensures
        forall|k: int|
            0 <= k < join_fields(fields, sep).len() ==> is_ip_char(#[trigger] join_fields(fields, sep)[k]),
    decreases fields.len(),
{
    if fields.len() >= 2 {
        let d = fields.drop_last();
        assert forall|i: int, k: int| 0 <= i < d.len() && 0 <= k < d[i].len() implies is_ip_char(
            #[trigger] d[i][k],
        ) by {
            assert(d[i] == fields[i]);
        }
        lemma_join_chars(d, sep);
        let a = join_fields(d, sep);
        let f = fields.last();
        let j = join_fields(fields, sep);
        assert forall|k: int| 0 <= k < j.len() implies is_ip_char(#[trigger] j[k]) by {
            if k < a.len() {
                assert(j[k] == a[k]);
            } else if k > a.len() {
                assert(j[k] == f[k - a.len() - 1]);
                assert(is_ip_char(fields[fields.len() - 1][k - a.len() - 1]));
            }
        }
    } else if fields.len() == 1 {
        assert forall|k: int| 0 <= k < join_fields(fields, sep).len() implies is_ip_char(
            #[trigger] join_fields(fields, sep)[k],
        ) by {
            assert(is_ip_char(fields[0][k]));
        }
    }
}

proof fn lemma_v4_text_chars(v: u32)
    ensures
        v4_text(v).len() > 0,
        forall|k: int| 0 <= k < v4_text(v).len() ==> is_ip_char(#[trigger] v4_text(v)[k]),
{
    let f = v4_fields(v);
    lemma_dec_text(crate::net::v4_octet(v, 0) as nat);
    lemma_dec_text(crate::net::v4_octet(v, 1) as nat);
    lemma_dec_text(crate::net::v4_octet(v, 2) as nat);
    lemma_dec_text(crate::net::v4_octet(v, 3) as nat);
    assert forall|i: int, k: int| 0 <= i < f.len() && 0 <= k < f[i].len() implies is_ip_char(
        #[trigger] f[i][k],
    ) by {
        assert(is_digit(f[i][k]));
    }
    lemma_join_chars(f, '.');
    reveal_with_fuel(join_fields, 4);
    assert(f.drop_last().drop_last().drop_last() =~= seq![f[0]]);
    assert(v4_text(v).len() >= f[0].len());
}

proof fn lemma_hex_fields_chars(segs: Seq<nat>)
    ensures
        forall|i: int, k: int|
            0 <= i < hex_fields(segs).len() && 0 <= k < hex_fields(segs)[i].len() ==> is_ip_char(
                #[trigger] hex_fields(segs)[i][k],
            ),
{
    assert forall|i: int, k: int|
        0 <= i < hex_fields(segs).len() && 0 <= k < hex_fields(segs)[i].len() implies is_ip_char(
        #[trigger] hex_fields(segs)[i][k],
    ) by {
        lemma_hex_text(segs[i]);
    }
}

/// Written addresses are not empty and use only hexadecimal digits, `:`
/// and `.`.
pub proof fn lemma_ip_text_chars(a: IpAddress)
    ensures
        ip_text(a).len() > 0,
        forall|k: int| 0 <= k < ip_text(a).len() ==> is_ip_char(#[trigger] ip_text(a)[k]),
{
    match a {
        IpAddress::V4(x) => lemma_v4_text_chars(x),
        IpAddress::V6(v) => {
            let segs = v6_segments(v);
            let t = v6_text(v);
            if is_v4_mapped(v) {
                let x = (v as int % 0x1_0000_0000) as u32;
                lemma_v4_text_chars(x);
                let pre = seq![':', ':', 'f', 'f', 'f', 'f', ':'];
                assert forall|k: int| 0 <= k < t.len() implies is_ip_char(#[trigger] t[k]) by {
                    if k >= 7 {
                        assert(t[k] == v4_text(x)[k - 7]);
                    }
                }
            } else if exists|s: int, l: int| compressed_run(segs, s, l) {
                let (s, l) = choose|s: int, l: int| compressed_run(segs, s, l);
                let hf = hex_fields(segs.take(s));
                let tf = hex_fields(segs.skip(s + l));
                lemma_hex_fields_chars(segs.take(s));
                lemma_hex_fields_chars(segs.skip(s + l));
                lemma_join_chars(hf, ':');
                lemma_join_chars(tf, ':');
                let x = join_fields(hf, ':');
                let y = join_fields(tf, ':');
                assert(t == x + seq![':', ':'] + y);
                assert forall|k: int| 0 <= k < t.len() implies is_ip_char(#[trigger] t[k]) by {
                    if k < x.len() {
                        assert(t[k] == x[k]);
                    } else if k >= x.len() + 2 {
                        assert(t[k] == y[k - x.len() - 2]);
                    }
                }
            } else {
                let hf = hex_fields(segs);
                lemma_hex_fields_chars(segs);
                lemma_join_chars(hf, ':');
                lemma_hex_text(segs[0]);
                reveal_with_fuel(join_fields, 1);
                lemma_join_nonempty_first(hf);
            }
        },
    }
}

proof fn lemma_join_nonempty_first(fields: Seq<Seq<char>>)
    requires
        fields.len() >= 1,
        fields[0].len() > 0,
    ensures
        join_fields(fields, ':').len() > 0,
    decreases fields.len(),
{
    if fields.len() >= 2 {
        lemma_join_nonempty_first(fields.drop_last());
    }
}

} // verus!

verus! {

/// The address written by `text`, as the standard library's `IpAddr`
/// reads it.
pub fn parse_ip_address(text: &str) -> (r: Option<IpAddress>)
    ensures
        r == parse_ip(text@),
{
    let chars = crate::text::chars_of(text);
    parse_ip_chars(&chars)
}

/// `address` as the standard library's `IpAddr` writes it.
pub fn ip_address_string(address: IpAddress) -> (s: String)
    ensures
        s@ == ip_text(address),
{
    let mut s = String::new();
    append_ip(&mut s, address);
    assert(s@ =~= ip_text(address));
    s
}

} // verus!
