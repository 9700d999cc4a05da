//! What a native client keeps about a trusted node: the node's identity, the
//! pinned fingerprint of its root certificate, where to reach it, and the
//! client's bearer credential.  Records are kept in a protected store as a
//! small length-prefixed text format.
use vstd::prelude::*;

use crate::ip_text::sub_chars;
use crate::text::{
    append_decimal, append_str, chars_of, dec_text, find_char, has_prefix_at, is_hex_digit,
    is_hex_digit_exec, join_fields, lemma_dec_text, lemma_lines_of_joined, lemma_utf8_round_trip,
    line_ranges, lines_of, parse_unsigned, parse_unsigned_at, range_is, split_fields, split_once,
    split_ranges, starts_with, str_eq, string_from, strip_cr, utf8_bytes, utf8_text,
};

verus! {

broadcast use vstd::string::group_string_axioms;

/// Most endpoint hints a record may hold.
pub const MAX_ENDPOINT_HINTS: usize = 16;

/// Longest node identifier, in bytes.
pub const MAX_NODE_ID_BYTES: usize = 96;

/// Longest bearer credential, in bytes.
pub const MAX_CREDENTIAL_BYTES: usize = 512;

/// Length of a root fingerprint: 32 hexadecimal pairs separated by colons.
pub const FINGERPRINT_CHARS: usize = 95;

#[derive(Debug, Clone, PartialEq, Eq)]
pub struct NativePeerTrust {
    pub node_id: String,
    pub root_fingerprint: String,
    pub endpoint_hints: Vec<String>,
    pub bearer_credential: String,
}

#[derive(Debug, Clone, Copy, PartialEq, Eq, Structural)]
pub enum NativeTrustError {
    InvalidRecord,
    StoreUnavailable,
    CorruptRecord,
    PinMismatch,
    ReplacementApprovalRequired,
}

impl NativeTrustError {
    /// The message shown for this error.
    pub fn message(&self) -> (r: &'static str)
        ensures
            r == (match self {
                NativeTrustError::InvalidRecord => "the native peer trust record is invalid",
                NativeTrustError::StoreUnavailable => "the protected native peer trust store is unavailable",
                NativeTrustError::CorruptRecord => "the protected native peer trust record is corrupt",
                NativeTrustError::PinMismatch => "the node identity does not match the verified pin",
                NativeTrustError::ReplacementApprovalRequired => "replacing a trusted node requires explicit approval",
            }),
    {
        match self {
            NativeTrustError::InvalidRecord => "the native peer trust record is invalid",
            NativeTrustError::StoreUnavailable => "the protected native peer trust store is unavailable",
            NativeTrustError::CorruptRecord => "the protected native peer trust record is corrupt",
            NativeTrustError::PinMismatch => "the node identity does not match the verified pin",
            NativeTrustError::ReplacementApprovalRequired => "replacing a trusted node requires explicit approval",
        }
    }
}

pub ghost struct TrustView {
    pub node_id: Seq<char>,
    pub fingerprint: Seq<char>,
    pub endpoints: Seq<Seq<char>>,
    pub credential: Seq<char>,
}

impl View for NativePeerTrust {
    type V = TrustView;

    open spec fn view(&self) -> TrustView {
        TrustView {
            node_id: self.node_id@,
            fingerprint: self.root_fingerprint@,
            endpoints: self.endpoint_hints@.map_values(|e: String| e@),
            credential: self.bearer_credential@,
        }
    }
}

// ---------------------------------------------------------------------------
// Rules
// ---------------------------------------------------------------------------

/// Length of `s` in UTF-8 bytes, as `str::len` gives it.
pub open spec fn byte_len(s: Seq<char>) -> nat {
    (vstd::utf8::encode_utf8(s).len() as usize) as nat
}

pub open spec fn node_prefix() -> Seq<char> {
    seq!['l', 's', '_', 'n', 'o', 'd', 'e', '_']
}

pub open spec fn https_prefix() -> Seq<char> {
    seq!['h', 't', 't', 'p', 's', ':', '/', '/']
}

/// A root fingerprint: 95 characters, pairs of hexadecimal digits separated
/// by colons.
pub open spec fn valid_fingerprint(f: Seq<char>) -> bool {
    &&& f.len() == FINGERPRINT_CHARS
    &&& forall|i: int|
        0 <= i < split_fields(f, ':').len() ==> {
            let pair = #[trigger] split_fields(f, ':')[i];
            pair.len() == 2 && is_hex_digit(pair[0]) && is_hex_digit(pair[1])
        }
}

/// An endpoint hint: `https://` and a non-empty authority without `/`, `@`,
/// `#` or `?`.
pub open spec fn valid_endpoint(e: Seq<char>) -> bool {
    let rest = e.skip(8);
    &&& starts_with(e, https_prefix())
    &&& rest.len() > 0
    &&& !rest.contains('/')
    &&& !rest.contains('@')
    &&& !rest.contains('#')
    &&& !rest.contains('?')
}

/// A record is accepted when its node identifier starts with `ls_node_` and
/// has at most 96 bytes, its fingerprint is well formed, it has 1 to 16
/// valid endpoint hints, and its credential starts with `ls_peer_` and has at
/// most 512 bytes.
pub open spec fn valid_trust(r: TrustView) -> bool {
    &&& starts_with(r.node_id, node_prefix())
    &&& byte_len(r.node_id) <= MAX_NODE_ID_BYTES
    &&& valid_fingerprint(r.fingerprint)
    &&& 1 <= r.endpoints.len() <= MAX_ENDPOINT_HINTS
    &&& forall|i: int| 0 <= i < r.endpoints.len() ==> valid_endpoint(#[trigger] r.endpoints[i])
    &&& starts_with(r.credential, crate::auth::peer_token_prefix())
    &&& byte_len(r.credential) <= MAX_CREDENTIAL_BYTES
}

// ---------------------------------------------------------------------------
// The record format
// ---------------------------------------------------------------------------

pub open spec fn trust_header() -> Seq<char> {
    seq!['L', 'S', 'T', 'R', 'U', 'S', 'T', '1']
}

pub open spec fn node_key() -> Seq<char> {
    seq!['n', 'o', 'd', 'e']
}

pub open spec fn fingerprint_key() -> Seq<char> {
    seq!['f', 'i', 'n', 'g', 'e', 'r', 'p', 'r', 'i', 'n', 't']
}

pub open spec fn credential_key() -> Seq<char> {
    seq!['c', 'r', 'e', 'd', 'e', 'n', 't', 'i', 'a', 'l']
}

pub open spec fn endpoint_key() -> Seq<char> {
    seq!['e', 'n', 'd', 'p', 'o', 'i', 'n', 't']
}

/// One field line: its name, the byte length of its value, and the value.
pub open spec fn field_line(name: Seq<char>, value: Seq<char>) -> Seq<char> {
    name + seq![':'] + dec_text(byte_len(value)) + seq![':'] + value
}

/// The lines of the record of `r`: the header, the credential, the
/// fingerprint and the node (in name order), then each endpoint in order.
pub open spec fn trust_lines(r: TrustView) -> Seq<Seq<char>> {
    seq![
        trust_header(),
        field_line(credential_key(), r.credential),
        field_line(fingerprint_key(), r.fingerprint),
        field_line(node_key(), r.node_id),
    ] + r.endpoints.map_values(|e: Seq<char>| field_line(endpoint_key(), e))
}

/// The record of `r`, each line ended by a newline.
pub open spec fn trust_text(r: TrustView) -> Seq<char> {
    join_fields(trust_lines(r), '\n').push('\n')
}

/// Fields read so far from a record.
pub ghost struct TrustFields {
    pub node_id: Option<Seq<char>>,
    pub fingerprint: Option<Seq<char>>,
    pub credential: Option<Seq<char>>,
    pub endpoints: Seq<Seq<char>>,
}

pub open spec fn no_fields() -> TrustFields {
    TrustFields { node_id: None, fingerprint: None, credential: None, endpoints: Seq::empty() }
}

/// The fields after one more line: `name:length:value`, where the length is
/// the value's byte length; node, fingerprint and credential at most once;
/// endpoints any number of times; anything else is corrupt.
pub open spec fn add_field(f: TrustFields, line: Seq<char>) -> Option<TrustFields> {
    match split_once(line, ':') {
        None => None,
        Some((name, rest)) => match split_once(rest, ':') {
            None => None,
            Some((length, value)) => if parse_unsigned(length, usize::MAX as nat) != Some(
                byte_len(value),
            ) {
                None
            } else if name == node_key() && f.node_id is None {
                Some(TrustFields { node_id: Some(value), ..f })
            } else if name == fingerprint_key() && f.fingerprint is None {
                Some(TrustFields { fingerprint: Some(value), ..f })
            } else if name == credential_key() && f.credential is None {
                Some(TrustFields { credential: Some(value), ..f })
            } else if name == endpoint_key() {
                Some(TrustFields { endpoints: f.endpoints.push(value), ..f })
            } else {
                None
            },
        },
    }
}

/// The fields of `lines`, read in order.
pub open spec fn read_fields(lines: Seq<Seq<char>>) -> Option<TrustFields>
    decreases lines.len(),
{
    if lines.len() == 0 {
        Some(no_fields())
    } else {
        match read_fields(lines.drop_last()) {
            Some(f) => add_field(f, lines.last()),
            None => None,
        }
    }
}

/// What stored bytes read as: the record they hold when they are a
/// well-formed record of an accepted trust, `CorruptRecord` otherwise.
pub open spec fn decode_trust(bytes: Seq<u8>) -> Result<TrustView, NativeTrustError> {
    if !vstd::utf8::valid_utf8(bytes) {
        Err(NativeTrustError::CorruptRecord)
    } else {
        let ls = lines_of(vstd::utf8::decode_utf8(bytes));
        if ls.len() == 0 || ls[0] != trust_header() {
            Err(NativeTrustError::CorruptRecord)
        } else {
            match read_fields(ls.drop_first()) {
                Some(f) => match (f.node_id, f.fingerprint, f.credential) {
                    (Some(n), Some(p), Some(c)) => {
                        let r = TrustView {
                            node_id: n,
                            fingerprint: p,
                            endpoints: f.endpoints,
                            credential: c,
                        };
                        if valid_trust(r) {
                            Ok(r)
                        } else {
                            Err(NativeTrustError::CorruptRecord)
                        }
                    },
                    _ => Err(NativeTrustError::CorruptRecord),
                },
                None => Err(NativeTrustError::CorruptRecord),
            }
        }
    }
}

} // verus!

verus! {

// ---------------------------------------------------------------------------
// Checking records
// ---------------------------------------------------------------------------

/// Whether `f` is a well-formed root fingerprint.
pub fn is_valid_fingerprint(f: &str) -> (r: bool)
    ensures
        r == valid_fingerprint(f@),
{
    let chars = chars_of(f);
    if chars.len() != FINGERPRINT_CHARS {
        return false;
    }
    let pairs = split_ranges(&chars, ':');
    let ghost fields = split_fields(f@, ':');
    let mut k: usize = 0;
    while k < pairs.len()
        invariant
            chars@ == f@,
            fields == split_fields(f@, ':'),
            pairs@.len() == fields.len(),
            k <= pairs.len(),
            forall|i: int|
                0 <= i < pairs@.len() ==> (#[trigger] pairs@[i]).0 <= pairs@[i].1 <= chars.len()
                    && chars@.subrange(pairs@[i].0 as int, pairs@[i].1 as int) == fields[i],
            forall|i: int|
                0 <= i < k ==> {
                    let pair = #[trigger] fields[i];
                    pair.len() == 2 && is_hex_digit(pair[0]) && is_hex_digit(pair[1])
                },
        decreases pairs.len() - k,
    {
        let (a, b) = pairs[k];
        let ghost pair = fields[k as int];
        if b - a != 2 || !is_hex_digit_exec(chars[a]) || !is_hex_digit_exec(chars[a + 1]) {
            assert(pair.len() != 2 || !is_hex_digit(pair[0]) || !is_hex_digit(pair[1]));
            return false;
        }
        assert(pair[0] == chars@[a as int] && pair[1] == chars@[a + 1]);
        k += 1;
    }
    true
}

/// Whether `e` is a valid endpoint hint.
pub fn is_valid_endpoint(e: &str) -> (r: bool)
    ensures
        r == valid_endpoint(e@),
{
    let chars = chars_of(e);
    proof {
        reveal_strlit("https://");
        assert("https://"@ == https_prefix());
    }
    if !has_prefix_at(&chars, 0, "https://") {
        assert(chars@.skip(0) == e@);
        return false;
    }
    assert(chars@.skip(0) == e@);
    let n = chars.len();
    assert(chars@.subrange(8, n as int) == e@.skip(8));
    if n <= 8 {
        return false;
    }
    !(crate::text::contains_char(&chars, 8, n, '/') || crate::text::contains_char(&chars, 8, n, '@')
        || crate::text::contains_char(&chars, 8, n, '#') || crate::text::contains_char(
        &chars,
        8,
        n,
        '?',
    ))
}

/// Whether `record` may be kept, and `InvalidRecord` when it may not.
pub fn validate_record(record: &NativePeerTrust) -> (r: Result<(), NativeTrustError>)
    ensures
        r == (if valid_trust(record@) {
            Ok::<(), NativeTrustError>(())
        } else {
            Err(NativeTrustError::InvalidRecord)
        }),
{
    let fingerprint_valid = is_valid_fingerprint(record.root_fingerprint.as_str());
    let count = record.endpoint_hints.len();
    let mut endpoints_valid = count >= 1 && count <= MAX_ENDPOINT_HINTS;
    let ghost eps = record@.endpoints;
    let mut k: usize = 0;
    while k < count
        invariant
            count == record.endpoint_hints@.len(),
            eps == record@.endpoints,
            k <= count,
            endpoints_valid == (1 <= count <= MAX_ENDPOINT_HINTS && forall|i: int|
                0 <= i < k ==> valid_endpoint(#[trigger] eps[i])),
        decreases count - k,
    {
        let ok = is_valid_endpoint(record.endpoint_hints[k].as_str());
        assert(eps[k as int] == record.endpoint_hints@[k as int]@);
        if !ok {
            endpoints_valid = false;
        }
        k += 1;
    }
    assert(eps.len() == count);
    let node = chars_of(record.node_id.as_str());
    let credential = chars_of(record.bearer_credential.as_str());
    proof {
        reveal_strlit("ls_node_");
        assert("ls_node_"@ == node_prefix());
        reveal_strlit("ls_peer_");
        assert("ls_peer_"@ == crate::auth::peer_token_prefix());
        assert(node@.skip(0) == record.node_id@);
        assert(credential@.skip(0) == record.bearer_credential@);
    }
    if !has_prefix_at(&node, 0, "ls_node_") || record.node_id.as_str().len()
        > MAX_NODE_ID_BYTES || !fingerprint_valid || !endpoints_valid || !has_prefix_at(
        &credential,
        0,
        "ls_peer_",
    ) || record.bearer_credential.as_str().len() > MAX_CREDENTIAL_BYTES {
        return Err(NativeTrustError::InvalidRecord);
    }
    Ok(())
}

// ---------------------------------------------------------------------------
// Writing and reading records
// ---------------------------------------------------------------------------

/// Appends a newline and the field line for `value` to `s`.
fn append_field(s: &mut String, name: &str, value: &str)
    ensures
        final(s)@ == old(s)@.push('\n') + field_line(name@, value@),
{
    append_str(s, "\n");
    append_str(s, name);
    append_str(s, ":");
    append_decimal(s, value.len() as u64);
    append_str(s, ":");
    append_str(s, value);
    proof {
        reveal_strlit("\n");
        reveal_strlit(":");
    }
    assert(s@ =~= old(s)@.push('\n') + field_line(name@, value@));
}

/// The record of `record` as text.
pub fn encode_record_text(record: &NativePeerTrust) -> (s: String)
    ensures
        s@ == trust_text(record@),
{
    let ghost r = record@;
    let ghost lines = trust_lines(r);
    proof {
        reveal_strlit("LSTRUST1");
        reveal_strlit("credential");
        reveal_strlit("fingerprint");
        reveal_strlit("node");
        reveal_strlit("endpoint");
        assert("credential"@ == credential_key());
        assert("fingerprint"@ == fingerprint_key());
        assert("node"@ == node_key());
        assert("endpoint"@ == endpoint_key());
    }
    let mut s = String::new();
    append_str(&mut s, "LSTRUST1");
    assert(s@ =~= join_fields(lines.take(1), '\n')) by {
        assert(lines.take(1) =~= seq![trust_header()]);
    }
    assert(lines[1] == field_line(credential_key(), r.credential));
    assert(lines[2] == field_line(fingerprint_key(), r.fingerprint));
    assert(lines[3] == field_line(node_key(), r.node_id));
    append_field(&mut s, "credential", record.bearer_credential.as_str());
    assert(lines.take(2).drop_last() =~= lines.take(1));
    assert(s@ == join_fields(lines.take(2), '\n'));
    append_field(&mut s, "fingerprint", record.root_fingerprint.as_str());
    assert(lines.take(3).drop_last() =~= lines.take(2));
    assert(s@ == join_fields(lines.take(3), '\n'));
    append_field(&mut s, "node", record.node_id.as_str());
    assert(lines.take(4).drop_last() =~= lines.take(3));
    assert(s@ == join_fields(lines.take(4), '\n'));
    let mut k: usize = 0;
    while k < record.endpoint_hints.len()
        invariant
            r == record@,
            lines == trust_lines(r),
            k <= record.endpoint_hints.len(),
            lines.len() == 4 + record.endpoint_hints.len(),
            s@ == join_fields(lines.take(4 + k), '\n'),
        decreases record.endpoint_hints.len() - k,
    {
        proof {
            reveal_strlit("endpoint");
        }
        append_field(&mut s, "endpoint", record.endpoint_hints[k].as_str());
        assert(lines.take(4 + k + 1).drop_last() =~= lines.take(4 + k));
        assert(lines[4 + k] == field_line(endpoint_key(), record.endpoint_hints@[k as int]@));
        k += 1;
    }
    assert(lines.take(lines.len() as int) =~= lines);
    append_str(&mut s, "\n");
    proof {
        reveal_strlit("\n");
    }
    assert(s@ =~= trust_text(r));
    s
}

/// The record of `record` as bytes.
pub fn encode_record(record: &NativePeerTrust) -> (b: Vec<u8>)
    ensures
        b@ == vstd::utf8::encode_utf8(trust_text(record@)),
{
    let s = encode_record_text(record);
    utf8_bytes(s.as_str())
}

} // verus!

verus! {

/// Positions of the first two colons of the line `chars[from..to]`.
fn field_colons(chars: &Vec<char>, from: usize, to: usize) -> (r: Option<(usize, usize)>)
    requires
        from <= to <= chars.len(),
    ensures
        match split_once(chars@.subrange(from as int, to as int), ':') {
            None => r is None,
            Some((name, rest)) => match split_once(rest, ':') {
                None => r is None,
                Some((length, value)) => r matches Some((p, q)) && from <= p < q < to
                    && chars@.subrange(from as int, p as int) == name && chars@.subrange(
                    p + 1,
                    q as int,
                ) == length && chars@.subrange(q + 1, to as int) == value,
            },
        },
{
    let ghost line = chars@.subrange(from as int, to as int);
    proof {
        line.index_of_first_ensures(':');
    }
    let c1 = match find_char(chars, from, to, ':') {
        Some(c) => c,
        None => return None,
    };
    let p = from + c1;
    assert(line.take(c1 as int) =~= chars@.subrange(from as int, p as int));
    assert(line.skip(c1 + 1) =~= chars@.subrange(p + 1, to as int));
    let ghost rest = chars@.subrange(p + 1, to as int);
    proof {
        rest.index_of_first_ensures(':');
    }
    let c2 = match find_char(chars, p + 1, to, ':') {
        Some(c) => c,
        None => return None,
    };
    let q = p + 1 + c2;
    assert(rest.take(c2 as int) =~= chars@.subrange(p + 1, q as int));
    assert(rest.skip(c2 + 1) =~= chars@.subrange(q + 1, to as int));
    Some((p, q))
}

pub open spec fn opt_view(o: Option<String>) -> Option<Seq<char>> {
    match o {
        Some(s) => Some(s@),
        None => None,
    }
}

pub open spec fn fields_view(
    node: Option<String>,
    fingerprint: Option<String>,
    credential: Option<String>,
    endpoints: Seq<String>,
) -> TrustFields {
    TrustFields {
        node_id: opt_view(node),
        fingerprint: opt_view(fingerprint),
        credential: opt_view(credential),
        endpoints: endpoints.map_values(|e: String| e@),
    }
}

proof fn lemma_read_fields_stays_none(lines: Seq<Seq<char>>, k: int)
    requires
        0 <= k <= lines.len(),
        read_fields(lines.take(k)) is None,
    ensures
        read_fields(lines) is None,
    decreases lines.len() - k,
{
    if k < lines.len() {
        assert(lines.take(k + 1).drop_last() =~= lines.take(k));
        lemma_read_fields_stays_none(lines, k + 1);
    } else {
        assert(lines.take(k) =~= lines);
    }
}

/// The record held by stored bytes, or `CorruptRecord`.
#[verifier::rlimit(60)]
pub fn decode_record(bytes: &[u8]) -> (r: Result<NativePeerTrust, NativeTrustError>)
    ensures
        match decode_trust(bytes@) {
            Ok(v) => r matches Ok(t) && t@ == v,
            Err(e) => r matches Err(x) && x == e,
        },
{
    let text = match utf8_text(bytes) {
        Ok(t) => t,
        Err(_) => return Err(NativeTrustError::CorruptRecord),
    };
    let chars = chars_of(text);
    let lines = line_ranges(&chars);
    let ghost ls = lines_of(chars@);
    proof {
        reveal_strlit("LSTRUST1");
        assert("LSTRUST1"@ == trust_header());
        reveal_strlit("node");
        reveal_strlit("fingerprint");
        reveal_strlit("credential");
        reveal_strlit("endpoint");
        assert("node"@ == node_key());
        assert("fingerprint"@ == fingerprint_key());
        assert("credential"@ == credential_key());
        assert("endpoint"@ == endpoint_key());
    }
    if lines.len() == 0 {
        return Err(NativeTrustError::CorruptRecord);
    }
    let (h0, h1) = lines[0];
    if !range_is(&chars, h0, h1, "LSTRUST1") {
        return Err(NativeTrustError::CorruptRecord);
    }
    let ghost body = ls.drop_first();
    let mut node: Option<String> = None;
    let mut fingerprint: Option<String> = None;
    let mut credential: Option<String> = None;
    let mut endpoints: Vec<String> = Vec::new();
    let mut k: usize = 1;
    assert(body.take(0) =~= Seq::<Seq<char>>::empty());
    assert(endpoints@.map_values(|e: String| e@) =~= Seq::<Seq<char>>::empty());
    while k < lines.len()
        invariant
            1 <= k <= lines.len(),
            lines@.len() == ls.len(),
            vstd::utf8::valid_utf8(bytes@),
            ls == lines_of(vstd::utf8::decode_utf8(bytes@)),
            ls.len() > 0 && ls[0] == trust_header(),
            body == ls.drop_first(),
            "node"@ == node_key(),
            "fingerprint"@ == fingerprint_key(),
            "credential"@ == credential_key(),
            "endpoint"@ == endpoint_key(),
            forall|i: int|
                0 <= i < lines@.len() ==> (#[trigger] lines@[i]).0 <= lines@[i].1 <= chars.len()
                    && chars@.subrange(lines@[i].0 as int, lines@[i].1 as int) == ls[i],
            read_fields(body.take(k - 1)) == Some(
                fields_view(node, fingerprint, credential, endpoints@),
            ),
        decreases lines.len() - k,
    {
        let (a, b) = lines[k];
        let ghost line = ls[k as int];
        let ghost prev = fields_view(node, fingerprint, credential, endpoints@);
        assert(body.take(k as int).drop_last() =~= body.take(k - 1));
        assert(body.take(k as int).last() == line);
        let (p, q) = match field_colons(&chars, a, b) {
            Some(pq) => pq,
            None => {
                proof {
                    assert(chars@.subrange(a as int, b as int) == line);
                    assert(add_field(prev, line) is None);
                    assert(read_fields(body.take(k as int)) is None);
                    lemma_read_fields_stays_none(body, k as int);
                }
                return Err(NativeTrustError::CorruptRecord);
            },
        };
        let value = string_from(&chars, q + 1, b);
        let value_len = value.as_str().len();
        let length = parse_unsigned_at(&chars, p + 1, q, usize::MAX as u64);
        let ghost vtext = chars@.subrange(q + 1, b as int);
        assert(value@ == vtext);
        assert(value_len as nat == byte_len(vtext));
        assert((usize::MAX as u64) as nat == usize::MAX as nat);
        if length != Some(value_len as u64) {
            proof {
                assert(add_field(prev, line) is None);
                lemma_read_fields_stays_none(body, k as int);
            }
            return Err(NativeTrustError::CorruptRecord);
        }
        assert(parse_unsigned(chars@.subrange(p + 1, q as int), usize::MAX as nat) == Some(
            byte_len(vtext),
        ));
        if range_is(&chars, a, p, "node") && node.is_none() {
            node = Some(value);
        } else if range_is(&chars, a, p, "fingerprint") && fingerprint.is_none() {
            fingerprint = Some(value);
        } else if range_is(&chars, a, p, "credential") && credential.is_none() {
            credential = Some(value);
        } else if range_is(&chars, a, p, "endpoint") {
            let ghost before = endpoints@;
            endpoints.push(value);
            assert(endpoints@.map_values(|e: String| e@) =~= before.map_values(|e: String| e@).push(
                chars@.subrange(q + 1, b as int),
            ));
        } else {
            proof {
                assert(chars@.subrange(a as int, b as int) == line);
                assert(add_field(prev, line) is None);
                lemma_read_fields_stays_none(body, k as int);
            }
            return Err(NativeTrustError::CorruptRecord);
        }
        k += 1;
    }
    assert(body.take(lines.len() - 1) =~= body);
    let (node_id, root_fingerprint, bearer_credential) = match (node, fingerprint, credential) {
        (Some(n), Some(f), Some(c)) => (n, f, c),
        _ => return Err(NativeTrustError::CorruptRecord),
    };
    let record = NativePeerTrust {
        node_id,
        root_fingerprint,
        endpoint_hints: endpoints,
        bearer_credential,
    };
    match validate_record(&record) {
        Ok(()) => Ok(record),
        Err(_) => Err(NativeTrustError::CorruptRecord),
    }
}

} // verus!

verus! {

// ---------------------------------------------------------------------------
// The trust service
// ---------------------------------------------------------------------------

/// The protected store records are kept in, by node identifier.
/// Implementations do I/O; nothing is assumed of what they return.
pub trait NativePeerTrustStore {
    fn load(&self, node_id: &str) -> Result<Option<Vec<u8>>, NativeTrustError>;

    fn store(&self, node_id: &str, secret: &[u8]) -> Result<(), NativeTrustError>;

    fn delete(&self, node_id: &str) -> Result<(), NativeTrustError>;
}

/// What a store's answer reads as.
pub open spec fn stored_outcome(stored: Result<Option<Seq<u8>>, NativeTrustError>) -> Result<
    Option<TrustView>,
    NativeTrustError,
> {
    match stored {
        Err(e) => Err(e),
        Ok(None) => Ok(None),
        Ok(Some(bytes)) => match decode_trust(bytes) {
            Ok(r) => Ok(Some(r)),
            Err(e) => Err(e),
        },
    }
}

/// Whether saving `record` over `existing` needs approval: when the pinned
/// fingerprint or the credential would change.
pub open spec fn needs_approval(existing: Option<TrustView>, record: TrustView) -> bool {
    match existing {
        Some(e) => e.fingerprint != record.fingerprint || e.credential != record.credential,
        None => false,
    }
}

/// The answer to a pin check of `presented` against what was loaded.
pub open spec fn pin_outcome(loaded: Result<Option<TrustView>, NativeTrustError>, presented: Seq<char>) -> Result<
    TrustView,
    NativeTrustError,
> {
    match loaded {
        Err(e) => Err(e),
        Ok(None) => Err(NativeTrustError::PinMismatch),
        Ok(Some(r)) => if r.fingerprint == presented {
            Ok(r)
        } else {
            Err(NativeTrustError::PinMismatch)
        },
    }
}

/// What a store's answer reads as.
pub fn trust_from_stored(stored: Result<Option<Vec<u8>>, NativeTrustError>) -> (r: Result<
    Option<NativePeerTrust>,
    NativeTrustError,
>)
    ensures
        match stored_outcome(
            match stored {
                Ok(Some(b)) => Ok(Some(b@)),
                Ok(None) => Ok(None),
                Err(e) => Err(e),
            },
        ) {
            Ok(Some(v)) => r matches Ok(Some(t)) && t@ == v,
            Ok(None) => r matches Ok(None),
            Err(e) => r matches Err(x) && x == e,
        },
{
    match stored {
        Err(e) => Err(e),
        Ok(None) => Ok(None),
        Ok(Some(bytes)) => match decode_record(bytes.as_slice()) {
            Ok(record) => Ok(Some(record)),
            Err(e) => Err(e),
        },
    }
}

/// Refuses to replace the trust in `existing` by `record` without approval.
pub fn check_replacement(existing: &Option<NativePeerTrust>, record: &NativePeerTrust, allow_replacement: bool) -> (r: Result<
    (),
    NativeTrustError,
>)
    ensures
        r == (if needs_approval(
            match existing {
                Some(e) => Some(e@),
                None => None,
            },
            record@,
        ) && !allow_replacement {
            Err(NativeTrustError::ReplacementApprovalRequired)
        } else {
            Ok::<(), NativeTrustError>(())
        }),
{
    if let Some(existing) = existing {
        let changed = existing.root_fingerprint != record.root_fingerprint
            || existing.bearer_credential != record.bearer_credential;
        if changed && !allow_replacement {
            return Err(NativeTrustError::ReplacementApprovalRequired);
        }
    }
    Ok(())
}

/// The pinned record, when `presented` is its fingerprint.
pub fn pinned_record(loaded: Result<Option<NativePeerTrust>, NativeTrustError>, presented: &str) -> (r: Result<
    NativePeerTrust,
    NativeTrustError,
>)
    ensures
        match pin_outcome(
            match loaded {
                Ok(Some(t)) => Ok(Some(t@)),
                Ok(None) => Ok(None),
                Err(e) => Err(e),
            },
            presented@,
        ) {
            Ok(v) => r matches Ok(t) && t@ == v,
            Err(e) => r matches Err(x) && x == e,
        },
{
    match loaded {
        Err(e) => Err(e),
        Ok(None) => Err(NativeTrustError::PinMismatch),
        Ok(Some(record)) => {
            if str_eq(record.root_fingerprint.as_str(), presented) {
                Ok(record)
            } else {
                Err(NativeTrustError::PinMismatch)
            }
        },
    }
}

/// What saving `record` over what the store held (`loaded`) comes to: the
/// load's error is passed on; replacing a kept fingerprint or credential
/// without `allow_replacement` is refused; otherwise the bytes to store are
/// the record's encoding.
pub fn save_plan(
    loaded: Result<Option<NativePeerTrust>, NativeTrustError>,
    record: &NativePeerTrust,
    allow_replacement: bool,
) -> (r: Result<Vec<u8>, NativeTrustError>)
    ensures
        match loaded {
            Err(e) => r == Err::<Vec<u8>, NativeTrustError>(e),
            Ok(existing) => if needs_approval(
                match existing {
                    Some(t) => Some(t@),
                    None => None,
                },
                record@,
            ) && !allow_replacement {
                r == Err::<Vec<u8>, NativeTrustError>(NativeTrustError::ReplacementApprovalRequired)
            } else {
                r matches Ok(b) && b@ == vstd::utf8::encode_utf8(trust_text(record@))
            },
        },
{
    let existing = loaded?;
    check_replacement(&existing, record, allow_replacement)?;
    Ok(encode_record(record))
}

/// Keeps the trust of a native client in its protected store.
pub struct NativePeerTrustService<S> {
    store: S,
}

impl<S> NativePeerTrustService<S> {
    /// The store the service works through.
    pub closed spec fn held_store(&self) -> S {
        self.store
    }
}

impl<S: NativePeerTrustStore> NativePeerTrustService<S> {
    pub fn new(store: S) -> (r: Self)
        ensures
            r.held_store() == store,
    {
        NativePeerTrustService { store }
    }

    /// The trust kept for `node_id`, if any.  Whatever the store answers, a
    /// loaded record is an accepted one.
    pub fn load(&self, node_id: &str) -> (r: Result<Option<NativePeerTrust>, NativeTrustError>)
        ensures
            r matches Ok(Some(t)) ==> valid_trust(t@),
    {
        let stored = self.store.load(node_id);
        trust_from_stored(stored)
    }

    /// Keeps `record` once it has been verified.  An invalid record is
    /// refused with `InvalidRecord` before the store is asked; otherwise
    /// what the store holds for the node is read, and `save_plan` decides
    /// what, if anything, is stored: the record's encoding, once.
    pub fn save_verified(&self, record: &NativePeerTrust, allow_replacement: bool) -> (r: Result<
        (),
        NativeTrustError,
    >)
        ensures
            !valid_trust(record@) ==> r == Err::<(), NativeTrustError>(NativeTrustError::InvalidRecord),
    {
        validate_record(record)?;
        let loaded = self.load(record.node_id.as_str());
        let bytes = save_plan(loaded, record, allow_replacement)?;
        self.store.store(record.node_id.as_str(), bytes.as_slice())
    }

    /// The record kept for `node_id` when `presented_fingerprint` is the
    /// pinned one; `PinMismatch` when no record is kept or the pin differs.
    pub fn verify_pin(&self, node_id: &str, presented_fingerprint: &str) -> (r: Result<
        NativePeerTrust,
        NativeTrustError,
    >)
        ensures
            r matches Ok(t) ==> t@.fingerprint == presented_fingerprint@ && valid_trust(t@),
    {
        let loaded = self.load(node_id);
        pinned_record(loaded, presented_fingerprint)
    }

    /// Forgets the trust kept for `node_id`; the store's answer is returned
    /// as it is.
    pub fn delete(&self, node_id: &str) -> (r: Result<(), NativeTrustError>) {
        self.store.delete(node_id)
    }
}

} // verus!

verus! {

// ---------------------------------------------------------------------------
// Reading back what was written
// ---------------------------------------------------------------------------

proof fn lemma_no_colon_digits(n: nat)
    ensures
        !dec_text(n).contains(':'),
        !dec_text(n).contains('\n'),
{
    lemma_dec_text(n);
    let t = dec_text(n);
    if t.contains(':') {
        let k = choose|k: int| 0 <= k < t.len() && t[k] == ':';
        assert(crate::text::is_digit(t[k]));
    }
    if t.contains('\n') {
        let k = choose|k: int| 0 <= k < t.len() && t[k] == '\n';
        assert(crate::text::is_digit(t[k]));
    }
}

proof fn lemma_split_field_line(name: Seq<char>, value: Seq<char>)
    requires
        !name.contains(':'),
    ensures
        ({
            let len = dec_text(byte_len(value));
            &&& split_once(field_line(name, value), ':') == Some((name, len + seq![':'] + value))
            &&& split_once(len + seq![':'] + value, ':') == Some((len, value))
            &&& parse_unsigned(len, usize::MAX as nat) == Some(byte_len(value))
        }),
{
    let len = dec_text(byte_len(value));
    lemma_no_colon_digits(byte_len(value));
    lemma_dec_text(byte_len(value));
    let line = field_line(name, value);
    assert(line[name.len() as int] == ':');
    assert forall|j: int| 0 <= j < name.len() implies line[j] != ':' by {
        assert(line[j] == name[j]);
        assert(name.contains(name[j]));
    }
    crate::text::lemma_first_index(line, ':', name.len() as int);
    assert(line.take(name.len() as int) =~= name);
    assert(line.skip(name.len() as int + 1) =~= len + seq![':'] + value);
    let rest = len + seq![':'] + value;
    assert(rest[len.len() as int] == ':');
    assert forall|j: int| 0 <= j < len.len() implies rest[j] != ':' by {
        assert(rest[j] == len[j]);
        assert(len.contains(len[j]));
    }
    crate::text::lemma_first_index(rest, ':', len.len() as int);
    assert(rest.take(len.len() as int) =~= len);
    assert(rest.skip(len.len() as int + 1) =~= value);
    assert(len[0] != '+') by {
        assert(crate::text::is_digit(len[0]));
    }
}

proof fn lemma_keys_distinct()
    ensures
        node_key() != fingerprint_key(),
        node_key() != credential_key(),
        node_key() != endpoint_key(),
        fingerprint_key() != credential_key(),
        fingerprint_key() != endpoint_key(),
        credential_key() != endpoint_key(),
        !node_key().contains(':'),
        !fingerprint_key().contains(':'),
        !credential_key().contains(':'),
        !endpoint_key().contains(':'),
{
    assert(node_key().len() != fingerprint_key().len());
    assert(node_key().len() != credential_key().len());
    assert(node_key().len() != endpoint_key().len());
    assert(fingerprint_key().len() != credential_key().len());
    assert(fingerprint_key().len() != endpoint_key().len());
    assert(credential_key().len() != endpoint_key().len());
    let keys = seq![node_key(), fingerprint_key(), credential_key(), endpoint_key()];
    assert forall|i: int| 0 <= i < 4 implies !(#[trigger] keys[i]).contains(':') by {
        if keys[i].contains(':') {
            let k = choose|k: int| 0 <= k < keys[i].len() && keys[i][k] == ':';
        }
    }
    assert(keys[0] == node_key());
    assert(keys[1] == fingerprint_key());
    assert(keys[2] == credential_key());
    assert(keys[3] == endpoint_key());
}

/// A value that can stand on a record line: not empty, no line break in it,
/// no carriage return at its end.
pub open spec fn line_safe(v: Seq<char>) -> bool {
    v.len() > 0 && !v.contains('\n') && v.last() != '\r'
}

proof fn lemma_field_line_clean(name: Seq<char>, value: Seq<char>)
    requires
        line_safe(value),
        !name.contains('\n'),
    ensures
        !field_line(name, value).contains('\n'),
        strip_cr(field_line(name, value)) == field_line(name, value),
{
    let len = dec_text(byte_len(value));
    lemma_no_colon_digits(byte_len(value));
    let line = field_line(name, value);
    if line.contains('\n') {
        let k = choose|k: int| 0 <= k < line.len() && line[k] == '\n';
        if k < name.len() {
            assert(name[k] == '\n');
            assert(name.contains(name[k]));
        } else if name.len() < k < name.len() + 1 + len.len() {
            assert(len[k - name.len() - 1] == '\n');
            assert(len.contains(len[k - name.len() - 1]));
        } else if k > name.len() + 1 + len.len() {
            assert(value[k - name.len() - 2 - len.len()] == '\n');
            assert(value.contains(value[k - name.len() - 2 - len.len()]));
        }
    }
    assert(line.last() == value.last());
}

proof fn lemma_fingerprint_safe(f: Seq<char>)
    requires
        valid_fingerprint(f),
    ensures
        line_safe(f),
{
    let fields = split_fields(f, ':');
    lemma_fields_cover(f, ':');
    if f.contains('\n') {
        let k = choose|k: int| 0 <= k < f.len() && f[k] == '\n';
        let (i, j) = choose|i: int, j: int| 0 <= i < fields.len() && 0 <= j < fields[i].len() && fields[i][j] == f[k];
        let pair = fields[i];
        assert(pair.len() == 2 && is_hex_digit(pair[0]) && is_hex_digit(pair[1]));
        assert(j == 0 || j == 1);
    }
    let last = f[f.len() - 1];
    if last == '\r' {
        let (i, j) = choose|i: int, j: int| 0 <= i < fields.len() && 0 <= j < fields[i].len() && fields[i][j] == last;
        let pair = fields[i];
        assert(pair.len() == 2 && is_hex_digit(pair[0]) && is_hex_digit(pair[1]));
        assert(j == 0 || j == 1);
    }
}

/// Every character of `s` other than `sep` stands in one of its fields.
proof fn lemma_fields_cover(s: Seq<char>, sep: char)
    ensures
        forall|k: int|
            0 <= k < s.len() && s[k] != sep ==> exists|i: int, j: int|
                0 <= i < split_fields(s, sep).len() && 0 <= j < split_fields(s, sep)[i].len()
                    && #[trigger] split_fields(s, sep)[i][j] == #[trigger] s[k],
    decreases s.len(),
{
    if s.len() > 0 {
        let d = s.drop_last();
        lemma_fields_cover(d, sep);
        crate::text::lemma_split_nonempty(d, sep);
        let f = split_fields(d, sep);
        let g = split_fields(s, sep);
        assert forall|k: int| 0 <= k < s.len() && s[k] != sep implies exists|i: int, j: int|
            0 <= i < g.len() && 0 <= j < g[i].len() && #[trigger] g[i][j] == #[trigger] s[k] by {
            if k < d.len() {
                assert(d[k] == s[k]);
                let (i, j) = choose|i: int, j: int|
                    0 <= i < f.len() && 0 <= j < f[i].len() && f[i][j] == d[k];
                if s.last() == sep {
                    assert(g[i] == f[i]);
                } else if i < f.len() - 1 {
                    assert(g[i] == f[i]);
                } else {
                    assert(g[i] == f[i].push(s.last()));
                    assert(g[i][j] == f[i][j]);
                }
            } else {
                assert(s.last() != sep);
                let i = f.len() - 1;
                assert(g[i] == f[i].push(s.last()));
                assert(g[i][f[i].len() as int] == s[k]);
            }
        }
    }
}

proof fn lemma_read_endpoints(r: TrustView, body: Seq<Seq<char>>, k: nat)
    requires
        body.len() == 3 + r.endpoints.len(),
        k <= r.endpoints.len(),
        forall|i: int| 0 <= i < r.endpoints.len() ==> body[3 + i] == field_line(endpoint_key(), #[trigger] r.endpoints[i]),
        read_fields(body.take(3)) == Some(
            TrustFields {
                node_id: Some(r.node_id),
                fingerprint: Some(r.fingerprint),
                credential: Some(r.credential),
                endpoints: Seq::empty(),
            },
        ),
    ensures
        read_fields(body.take(3 + k as int)) == Some(
            TrustFields {
                node_id: Some(r.node_id),
                fingerprint: Some(r.fingerprint),
                credential: Some(r.credential),
                endpoints: r.endpoints.take(k as int),
            },
        ),
    decreases k,
{
    if k == 0 {
        assert(r.endpoints.take(0) =~= Seq::<Seq<char>>::empty());
    } else {
        lemma_read_endpoints(r, body, (k - 1) as nat);
        lemma_keys_distinct();
        let e = r.endpoints[k - 1];
        lemma_split_field_line(endpoint_key(), e);
        assert(body.take(3 + k as int).drop_last() =~= body.take(3 + k as int - 1));
        assert(body.take(3 + k as int).last() == body[3 + k as int - 1]);
        assert(r.endpoints.take(k - 1).push(e) =~= r.endpoints.take(k as int));
    }
}

/// A record written for an accepted trust reads back as that trust, when
/// its node identifier, credential and endpoint hints are safe on a line.
pub proof fn lemma_trust_round_trip(r: TrustView)
    requires
        valid_trust(r),
        line_safe(r.node_id),
        line_safe(r.credential),
        forall|i: int| 0 <= i < r.endpoints.len() ==> line_safe(#[trigger] r.endpoints[i]),
    ensures
        decode_trust(vstd::utf8::encode_utf8(trust_text(r))) == Ok::<TrustView, NativeTrustError>(r),
{
    let text = trust_text(r);
    lemma_utf8_round_trip(text);
    lemma_keys_distinct();
    lemma_fingerprint_safe(r.fingerprint);
    let ls = trust_lines(r);
    let keys_no_break = seq![trust_header(), node_key(), fingerprint_key(), credential_key(), endpoint_key()];
    assert forall|i: int| 0 <= i < 5 implies !(#[trigger] keys_no_break[i]).contains('\n') by {
        if keys_no_break[i].contains('\n') {
            let k = choose|k: int| 0 <= k < keys_no_break[i].len() && keys_no_break[i][k] == '\n';
        }
    }
    assert(keys_no_break[0] == trust_header());
    assert(keys_no_break[1] == node_key());
    assert(keys_no_break[2] == fingerprint_key());
    assert(keys_no_break[3] == credential_key());
    assert(keys_no_break[4] == endpoint_key());
    lemma_field_line_clean(credential_key(), r.credential);
    lemma_field_line_clean(fingerprint_key(), r.fingerprint);
    lemma_field_line_clean(node_key(), r.node_id);
    assert forall|i: int| 0 <= i < ls.len() implies !(#[trigger] ls[i]).contains('\n') && strip_cr(
        ls[i],
    ) == ls[i] by {
        if i >= 4 {
            lemma_field_line_clean(endpoint_key(), r.endpoints[i - 4]);
        }
    }
    lemma_lines_of_joined(ls);
    let body = ls.drop_first();
    lemma_split_field_line(credential_key(), r.credential);
    lemma_split_field_line(fingerprint_key(), r.fingerprint);
    lemma_split_field_line(node_key(), r.node_id);
    assert(body.take(1).drop_last() =~= Seq::<Seq<char>>::empty());
    assert(body.take(2).drop_last() =~= body.take(1));
    assert(body.take(3).drop_last() =~= body.take(2));
    assert(body[0] == field_line(credential_key(), r.credential));
    assert(body[1] == field_line(fingerprint_key(), r.fingerprint));
    assert(body[2] == field_line(node_key(), r.node_id));
    assert(read_fields(body.take(1).drop_last()) == Some(no_fields()));
    let f1 = TrustFields { credential: Some(r.credential), ..no_fields() };
    assert(add_field(no_fields(), body[0]) == Some(f1));
    assert(read_fields(body.take(1)) == Some(f1));
    let f2 = TrustFields { fingerprint: Some(r.fingerprint), ..f1 };
    assert(add_field(f1, body[1]) == Some(f2));
    assert(read_fields(body.take(2)) == Some(f2));
    let f3 = TrustFields { node_id: Some(r.node_id), ..f2 };
    assert(add_field(f2, body[2]) == Some(f3));
    assert(read_fields(body.take(3)) == Some(
        TrustFields {
            node_id: Some(r.node_id),
            fingerprint: Some(r.fingerprint),
            credential: Some(r.credential),
            endpoints: Seq::empty(),
        },
    ));
    assert forall|i: int| 0 <= i < r.endpoints.len() implies body[3 + i] == field_line(
        endpoint_key(),
        #[trigger] r.endpoints[i],
    ) by {}
    lemma_read_endpoints(r, body, r.endpoints.len());
    assert(body.take(3 + r.endpoints.len() as int) =~= body);
    assert(r.endpoints.take(r.endpoints.len() as int) =~= r.endpoints);
}

} // verus!
