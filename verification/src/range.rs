//! Parsing of a single HTTP `Range` header value for Direct Play streaming.
use vstd::prelude::*;

use crate::text::{
    dec_text, is_digit, lemma_dec_text, chars_of, contains_char, find_char, has_prefix_at, parse_unsigned, parse_unsigned_at,
    split_once, starts_with,
};

verus! {

/// An inclusive byte range `start..=end` of a resource.
#[derive(Debug, Clone, Copy, PartialEq, Eq, Structural)]
pub struct ByteRange {
    pub start: u64,
    pub end: u64,
}

/// The header value does not describe one satisfiable range.
#[derive(Debug, Clone, Copy, PartialEq, Eq, Structural)]
pub struct InvalidRange;

impl ByteRange {
    /// Number of bytes in the range.
    pub fn length(self) -> (len: u64)
        requires
            self.start <= self.end,
            self.end - self.start + 1 <= u64::MAX,
        ensures
            len == self.end - self.start + 1,
    {
        self.end - self.start + 1
    }
}

/// The unit prefix every accepted header value carries.
pub open spec fn bytes_unit() -> Seq<char> {
    seq!['b', 'y', 't', 'e', 's', '=']
}

/// The range that `bytes=<spec>` selects of a resource of `size` bytes, where
/// `spec` is `first-last`, `first-` or `-suffix`; `None` when the value is not
/// exactly one such satisfiable range.
pub open spec fn selected_range(value: Seq<char>, size: u64) -> Option<(u64, u64)> {
    if !starts_with(value, bytes_unit()) {
        None
    } else {
        let rest = value.skip(6);
        if rest.contains(',') || size == 0 {
            None
        } else {
            match split_once(rest, '-') {
                None => None,
                Some((first, last)) => {
                    if first.len() == 0 {
                        match parse_unsigned(last, u64::MAX as nat) {
                            None => None,
                            Some(suffix) => {
                                if suffix == 0 {
                                    None
                                } else {
                                    let length = if suffix < size {
                                        suffix
                                    } else {
                                        size as nat
                                    };
                                    Some(((size - length) as u64, (size - 1) as u64))
                                }
                            },
                        }
                    } else {
                        match parse_unsigned(first, u64::MAX as nat) {
                            None => None,
                            Some(start) => {
                                if start >= size {
                                    None
                                } else if last.len() == 0 {
                                    Some((start as u64, (size - 1) as u64))
                                } else {
                                    match parse_unsigned(last, u64::MAX as nat) {
                                        None => None,
                                        Some(e) => {
                                            let end = if e < size - 1 {
                                                e
                                            } else {
                                                (size - 1) as nat
                                            };
                                            if end < start {
                                                None
                                            } else {
                                                Some((start as u64, end as u64))
                                            }
                                        },
                                    }
                                }
                            },
                        }
                    }
                },
            }
        }
    }
}

/// Parses a `Range` header value that names one byte range of a resource of
/// `size` bytes.
pub fn parse_single_range(value: &str, size: u64) -> (r: Result<ByteRange, InvalidRange>)
    ensures
        match r {
            Ok(range) => selected_range(value@, size) == Some((range.start, range.end)),
            Err(_) => selected_range(value@, size) is None,
        },
        r matches Ok(range) ==> range.start <= range.end < size,
{
    let chars = chars_of(value);
    let n = chars.len();
    if !has_prefix_at(&chars, 0, "bytes=") {
        proof {
            reveal_strlit("bytes=");
            assert("bytes="@ == bytes_unit());
            assert(chars@.skip(0) == value@);
        }
        return Err(InvalidRange);
    }
    proof {
        reveal_strlit("bytes=");
        assert("bytes="@ == bytes_unit());
        assert(chars@.skip(0) == value@);
    }
    let ghost rest = value@.skip(6);
    assert(chars@.subrange(6, n as int) == rest);
    if contains_char(&chars, 6, n, ',') || size == 0 {
        return Err(InvalidRange);
    }
    let dash = match find_char(&chars, 6, n, '-') {
        Some(d) => 6 + d,
        None => {
            return Err(InvalidRange);
        },
    };
    let ghost first = rest.take(dash - 6);
    let ghost last = rest.skip(dash - 6 + 1);
    assert(chars@.subrange(6, dash as int) == first);
    assert(chars@.subrange(dash + 1, n as int) == last);
    proof {
        rest.index_of_first_ensures('-');
        assert(rest.index_of_first('-') == Some((dash - 6) as int));
        assert(split_once(rest, '-') == Some((first, last)));
    }
    if dash == 6 {
        let suffix = match parse_unsigned_at(&chars, dash + 1, n, u64::MAX) {
            Some(v) => v,
            None => {
                return Err(InvalidRange);
            },
        };
        if suffix == 0 {
            return Err(InvalidRange);
        }
        let length = if suffix < size {
            suffix
        } else {
            size
        };
        return Ok(ByteRange { start: size - length, end: size - 1 });
    }
    let start = match parse_unsigned_at(&chars, 6, dash, u64::MAX) {
        Some(v) => v,
        None => {
            return Err(InvalidRange);
        },
    };
    if start >= size {
        return Err(InvalidRange);
    }
    let end = if dash + 1 == n {
        size - 1
    } else {
        match parse_unsigned_at(&chars, dash + 1, n, u64::MAX) {
            Some(e) => if e < size - 1 {
                e
            } else {
                size - 1
            },
            None => {
                return Err(InvalidRange);
            },
        }
    };
    if end < start {
        return Err(InvalidRange);
    }
    Ok(ByteRange { start, end })
}


/// A closed range `bytes=a-b` whose first byte `a` lies inside a resource of
/// `size` bytes and whose last byte `b` is not before it selects exactly the
/// bytes `a` to `b`, the last one cut to the resource's last byte: the first
/// byte never changes what the last one is.
pub proof fn lemma_closed_range_selects_its_bytes(a: u64, b: u64, size: u64)
    requires
        a < size,
        a <= b,
    ensures
        selected_range(bytes_unit() + dec_text(a as nat) + seq!['-'] + dec_text(b as nat), size)
            == Some((
            a,
            if b < size {
                b
            } else {
                (size - 1) as u64
            },
        )),
{
    let da = dec_text(a as nat);
    let db = dec_text(b as nat);
    lemma_dec_text(a as nat);
    lemma_dec_text(b as nat);
    let value = bytes_unit() + da + seq!['-'] + db;
    let rest = da + seq!['-'] + db;
    assert(value.take(6) =~= bytes_unit());
    assert(value.skip(6) =~= rest);
    assert(rest[da.len() as int] == '-');
    assert forall|j: int| 0 <= j < rest.len() implies rest[j] != ',' by {
        if j < da.len() {
            assert(rest[j] == da[j]);
            assert(is_digit(da[j]));
        } else if j > da.len() {
            assert(rest[j] == db[j - da.len() - 1]);
            assert(is_digit(db[j - da.len() - 1]));
        }
    }
    assert(!rest.contains(','));
    rest.index_of_first_ensures('-');
    assert(rest.contains('-'));
    let i = rest.index_of_first('-')->0;
    assert(i == da.len()) by {
        if i < da.len() {
            assert(rest[i] == da[i]);
            assert(is_digit(da[i]));
        }
    }
    assert(rest.take(i) =~= da);
    assert(rest.skip(i + 1) =~= db);
    assert(da[0] != '+' && db[0] != '+') by {
        assert(is_digit(da[0]));
        assert(is_digit(db[0]));
    }
}


/// `bytes=a-` with its first byte inside the resource selects from `a` to
/// the last byte.
pub proof fn lemma_open_range_runs_to_the_end(a: u64, size: u64)
    requires
        a < size,
    ensures
        selected_range(bytes_unit() + dec_text(a as nat) + seq!['-'], size) == Some(
            (a, (size - 1) as u64),
        ),
{
    let da = dec_text(a as nat);
    lemma_dec_text(a as nat);
    let value = bytes_unit() + da + seq!['-'];
    let rest = da + seq!['-'];
    assert(value.take(6) =~= bytes_unit());
    assert(value.skip(6) =~= rest);
    assert(rest[da.len() as int] == '-');
    assert forall|j: int| 0 <= j < rest.len() implies rest[j] != ',' by {
        if j < da.len() {
            assert(rest[j] == da[j]);
            assert(is_digit(da[j]));
        }
    }
    assert(!rest.contains(','));
    rest.index_of_first_ensures('-');
    assert(rest.contains('-'));
    let i = rest.index_of_first('-')->0;
    assert(i == da.len()) by {
        if i < da.len() {
            assert(rest[i] == da[i]);
            assert(is_digit(da[i]));
        }
    }
    assert(rest.take(i) =~= da);
    assert(rest.skip(i + 1) =~= Seq::<char>::empty());
    assert(is_digit(da[0]));
}

/// `bytes=-n` with `n > 0` selects the last `n` bytes, or the whole
/// resource when it is shorter.
pub proof fn lemma_suffix_range_takes_the_tail(n: u64, size: u64)
    requires
        n > 0,
        size > 0,
    ensures
        selected_range(bytes_unit() + seq!['-'] + dec_text(n as nat), size) == Some(
            (
                if n < size {
                    (size - n) as u64
                } else {
                    0
                },
                (size - 1) as u64,
            ),
        ),
{
    let dn = dec_text(n as nat);
    lemma_dec_text(n as nat);
    let value = bytes_unit() + seq!['-'] + dn;
    let rest = seq!['-'] + dn;
    assert(value.take(6) =~= bytes_unit());
    assert(value.skip(6) =~= rest);
    assert forall|j: int| 0 <= j < rest.len() implies rest[j] != ',' by {
        if j > 0 {
            assert(rest[j] == dn[j - 1]);
            assert(is_digit(dn[j - 1]));
        }
    }
    assert(!rest.contains(','));
    rest.index_of_first_ensures('-');
    assert(rest[0] == '-');
    assert(rest.contains('-'));
    assert(rest.index_of_first('-') == Some(0int));
    assert(rest.take(0) =~= Seq::<char>::empty());
    assert(rest.skip(1) =~= dn);
    assert(is_digit(dn[0]));
}

} // verus!
