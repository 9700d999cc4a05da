//! The LAN server: its configuration, the rules a configuration must meet,
//! the record it is persisted as, the audit that gates its activation, and
//! the lifetime of its TLS leaf certificate.
use vstd::prelude::*;

use crate::ip_text::{append_ip, ip_text, lemma_ip_round_trip, parse_ip, parse_ip_chars, sub_chars};
use crate::net::{is_safe_lan, is_safe_lan_address, IpAddress};
use crate::text::{
    append_decimal, append_str, chars_of, contains_char, dec_text, has_prefix_at, is_ascii_alphanumeric,
    join_fields, lemma_dec_text, lemma_lines_of_joined, lemma_split_nonempty, lemma_utf8_round_trip,
    line_ranges, lines_of, parse_unsigned, parse_unsigned_at, split_fields, split_ranges,
    starts_with, string_from, strip_cr, trim, trim_bounds, utf8_text,
};

verus! {

broadcast use vstd::string::group_string_axioms;

pub const DEFAULT_HTTPS_PORT: u16 = 8443;

/// Days before its expiry at which a TLS leaf is renewed.
pub const LEAF_RENEWAL_DAYS: i64 = 7;

/// Days a TLS leaf is valid for.
pub const LEAF_LIFETIME_DAYS: i64 = 30;

pub const SECONDS_PER_DAY: i64 = 86_400;

pub struct LanServerConfig {
    pub enabled: bool,
    pub address: Option<IpAddress>,
    pub port: u16,
    pub dns_name: Option<String>,
}

#[derive(Debug, Clone, PartialEq, Eq)]
pub struct LanServerStatus {
    pub configured: bool,
    pub active: bool,
    pub endpoint: Option<String>,
    pub failure: Option<&'static str>,
}

#[derive(Debug, Clone, Copy, PartialEq, Eq, Structural)]
pub enum LeafLifecycleError {
    InvalidConfiguration,
    IssuanceFailed,
    Unavailable,
}

impl LeafLifecycleError {
    /// The message shown for this error.
    pub fn message(&self) -> (r: &'static str)
        ensures
            r == (match self {
                LeafLifecycleError::InvalidConfiguration => "the TLS leaf configuration is invalid",
                LeafLifecycleError::IssuanceFailed => "the TLS leaf could not be issued",
                LeafLifecycleError::Unavailable => "the TLS leaf lifecycle is unavailable",
            }),
    {
        match self {
            LeafLifecycleError::InvalidConfiguration => "the TLS leaf configuration is invalid",
            LeafLifecycleError::IssuanceFailed => "the TLS leaf could not be issued",
            LeafLifecycleError::Unavailable => "the TLS leaf lifecycle is unavailable",
        }
    }
}

#[derive(Debug, Clone, Copy, PartialEq, Eq, Structural)]
pub struct LanSecurityEvidence {
    pub browser_trust_onboarding: bool,
    pub native_protected_storage: bool,
    pub negative_security_suite: bool,
}

#[derive(Debug, Clone, PartialEq, Eq)]
pub struct LanSecurityAudit {
    pub passed: bool,
    pub failed_gates: Vec<&'static str>,
}

/// Proof that the activation audit passed; only `audit_activation` makes one.
#[derive(Debug)]
pub struct LanActivationPermit(());

#[derive(Debug, Clone, Copy, PartialEq, Eq, Structural)]
pub enum LanConfigError {
    Invalid,
    Unavailable,
    Corrupt,
}

impl LanConfigError {
    /// The message shown for this error.
    pub fn message(&self) -> (r: &'static str)
        ensures
            r == (match self {
                LanConfigError::Invalid => "the LAN server configuration is invalid",
                LanConfigError::Unavailable => "the LAN server configuration store is unavailable",
                LanConfigError::Corrupt => "the stored LAN server configuration is corrupt",
            }),
    {
        match self {
            LanConfigError::Invalid => "the LAN server configuration is invalid",
            LanConfigError::Unavailable => "the LAN server configuration store is unavailable",
            LanConfigError::Corrupt => "the stored LAN server configuration is corrupt",
        }
    }
}

// ---------------------------------------------------------------------------
// Model and rules
// ---------------------------------------------------------------------------

pub ghost struct LanConfigView {
    pub enabled: bool,
    pub address: Option<IpAddress>,
    pub port: u16,
    pub dns_name: Option<Seq<char>>,
}

impl View for LanServerConfig {
    type V = LanConfigView;

    open spec fn view(&self) -> LanConfigView {
        LanConfigView {
            enabled: self.enabled,
            address: self.address,
            port: self.port,
            dns_name: match self.dns_name {
                Some(n) => Some(n@),
                None => None,
            },
        }
    }
}

/// The configuration used when none is stored: disabled, on port 8443.
pub open spec fn default_view() -> LanConfigView {
    LanConfigView { enabled: false, address: None, port: DEFAULT_HTTPS_PORT, dns_name: None }
}

/// A DNS label: 1 to 63 letters, digits or `-`, not starting or ending
/// with `-`.
pub open spec fn valid_dns_label(label: Seq<char>) -> bool {
    &&& 1 <= label.len() <= 63
    &&& forall|i: int| 0 <= i < label.len() ==> is_ascii_alphanumeric(#[trigger] label[i]) || label[i] == '-'
    &&& label[0] != '-'
    &&& label.last() != '-'
}

/// A name the LAN server may be reached under: trimmed, 1 to 253
/// characters, no `*`, not an IP address, and every dot-separated label
/// valid.
pub open spec fn valid_dns_name(name: Seq<char>) -> bool {
    let t = trim(name);
    &&& 1 <= t.len() <= 253
    &&& !t.contains('*')
    &&& parse_ip(t) is None
    &&& forall|i: int|
        0 <= i < split_fields(t, '.').len() ==> valid_dns_label(#[trigger] split_fields(t, '.')[i])
}

/// A configuration is accepted when its port is 1024 to 65534, an enabled
/// server has an address, the address is one a LAN server may bind, and the
/// DNS name, if any, is valid.
pub open spec fn valid_view(c: LanConfigView) -> bool {
    &&& 1024 <= c.port < 65535
    &&& !(c.enabled && c.address is None)
    &&& c.address matches Some(a) ==> is_safe_lan(a)
    &&& c.dns_name matches Some(n) ==> valid_dns_name(n)
}

// ---------------------------------------------------------------------------
// The persisted record
// ---------------------------------------------------------------------------

pub open spec fn header_line() -> Seq<char> {
    seq!['L', 'S', 'L', 'A', 'N', '1']
}

pub open spec fn enabled_key() -> Seq<char> {
    seq!['e', 'n', 'a', 'b', 'l', 'e', 'd', '=']
}

pub open spec fn address_key() -> Seq<char> {
    seq!['a', 'd', 'd', 'r', 'e', 's', 's', '=']
}

pub open spec fn port_key() -> Seq<char> {
    seq!['p', 'o', 'r', 't', '=']
}

pub open spec fn dns_key() -> Seq<char> {
    seq!['d', 'n', 's', '=']
}

pub open spec fn bool_text(b: bool) -> Seq<char> {
    if b {
        seq!['t', 'r', 'u', 'e']
    } else {
        seq!['f', 'a', 'l', 's', 'e']
    }
}

/// What `bool`'s `FromStr` reads from `s`.
pub open spec fn bool_named(s: Seq<char>) -> Option<bool> {
    if s == bool_text(true) {
        Some(true)
    } else if s == bool_text(false) {
        Some(false)
    } else {
        None
    }
}

/// The five lines of the record of `c`.
pub open spec fn record_lines(c: LanConfigView) -> Seq<Seq<char>> {
    seq![
        header_line(),
        enabled_key() + bool_text(c.enabled),
        address_key() + match c.address {
            Some(a) => ip_text(a),
            None => Seq::empty(),
        },
        port_key() + dec_text(c.port as nat),
        dns_key() + match c.dns_name {
            Some(n) => n,
            None => Seq::empty(),
        },
    ]
}

/// The record of `c` as one text.
pub open spec fn record_concat(c: LanConfigView) -> Seq<char> {
    let ls = record_lines(c);
    ls[0] + seq!['\n'] + ls[1] + seq!['\n'] + ls[2] + seq!['\n'] + ls[3] + seq!['\n'] + ls[4]
        + seq!['\n']
}

/// The record of `c`: its lines, each ended by a newline.
pub open spec fn record_text(c: LanConfigView) -> Seq<char> {
    join_fields(record_lines(c), '\n').push('\n')
}

/// The rest of `line` after `key`, when it starts with it.
pub open spec fn after_key(line: Seq<char>, key: Seq<char>) -> Option<Seq<char>> {
    if starts_with(line, key) {
        Some(line.skip(key.len() as int))
    } else {
        None
    }
}

/// The address written in a record: none when empty.
pub open spec fn address_named(s: Seq<char>) -> Option<Option<IpAddress>> {
    if s.len() == 0 {
        Some(None)
    } else {
        match parse_ip(s) {
            Some(a) => Some(Some(a)),
            None => None,
        }
    }
}

/// The configuration a record text holds, if it has the record's form.
pub open spec fn record_fields(text: Seq<char>) -> Option<LanConfigView> {
    let ls = lines_of(text);
    if ls.len() == 5 && ls[0] == header_line() {
        match (after_key(ls[1], enabled_key()), after_key(ls[2], address_key()), after_key(
            ls[3],
            port_key(),
        ), after_key(ls[4], dns_key())) {
            (Some(e), Some(a), Some(p), Some(d)) => match (bool_named(e), address_named(a), parse_unsigned(p, 65535)) {
                (Some(en), Some(addr), Some(port)) => Some(
                    LanConfigView {
                        enabled: en,
                        address: addr,
                        port: port as u16,
                        dns_name: if d.len() == 0 {
                            None
                        } else {
                            Some(d)
                        },
                    },
                ),
                _ => None,
            },
            _ => None,
        }
    } else {
        None
    }
}

/// What stored bytes load as: the configuration they hold when they are a
/// well-formed record of an accepted configuration, `Corrupt` otherwise.
pub open spec fn decode_outcome(bytes: Seq<u8>) -> Result<LanConfigView, LanConfigError> {
    if !vstd::utf8::valid_utf8(bytes) {
        Err(LanConfigError::Corrupt)
    } else {
        match record_fields(vstd::utf8::decode_utf8(bytes)) {
            Some(c) => if valid_view(c) {
                Ok(c)
            } else {
                Err(LanConfigError::Corrupt)
            },
            None => Err(LanConfigError::Corrupt),
        }
    }
}

/// What a configuration store's answer loads as: the default when nothing is
/// stored.
pub open spec fn load_outcome(stored: Result<Option<Seq<u8>>, LanConfigError>) -> Result<
    LanConfigView,
    LanConfigError,
> {
    match stored {
        Err(e) => Err(e),
        Ok(None) => Ok(default_view()),
        Ok(Some(bytes)) => decode_outcome(bytes),
    }
}

} // verus!

verus! {

// ---------------------------------------------------------------------------
// Rules
// ---------------------------------------------------------------------------

impl Default for LanServerConfig {
    /// Disabled, with no address or name, on port 8443.
    fn default() -> (r: Self)
        ensures
            r@ == default_view(),
    {
        LanServerConfig { enabled: false, address: None, port: DEFAULT_HTTPS_PORT, dns_name: None }
    }
}

/// Whether `chars[from..to]` is a valid DNS label.
pub(crate) fn dns_label_at(chars: &Vec<char>, from: usize, to: usize) -> (r: bool)
    requires
        from <= to <= chars.len(),
    ensures
        r == valid_dns_label(chars@.subrange(from as int, to as int)),
{
    let ghost l = chars@.subrange(from as int, to as int);
    if to - from < 1 || to - from > 63 {
        return false;
    }
    let mut i = from;
    while i < to
        invariant
            from <= i <= to <= chars.len(),
            l == chars@.subrange(from as int, to as int),
            forall|j: int| 0 <= j < i - from ==> is_ascii_alphanumeric(#[trigger] l[j]) || l[j] == '-',
        decreases to - i,
    {
        let c = chars[i];
        assert(l[i - from] == c);
        if !(crate::text::is_ascii_alphanumeric_exec(c) || c == '-') {
            return false;
        }
        i += 1;
    }
    assert(l[0] == chars@[from as int]);
    assert(l.last() == chars@[to - 1]);
    chars[from] != '-' && chars[to - 1] != '-'
}

/// Whether `name` is a valid DNS name for the LAN server.
pub fn is_valid_lan_dns_name(name: &str) -> (r: bool)
    ensures
        r == valid_dns_name(name@),
{
    let all = chars_of(name);
    let (start, end) = trim_bounds(&all, 0, all.len());
    assert(all@.subrange(0, all.len() as int) == name@);
    let chars = sub_chars(&all, start, end);
    let ghost t = trim(name@);
    assert(chars@ == t);
    if chars.len() < 1 || chars.len() > 253 {
        return false;
    }
    if contains_char(&chars, 0, chars.len(), '*') {
        assert(chars@.subrange(0, chars.len() as int) == t);
        return false;
    }
    assert(chars@.subrange(0, chars.len() as int) == t);
    if parse_ip_chars(&chars).is_some() {
        return false;
    }
    let labels = split_ranges(&chars, '.');
    let ghost f = split_fields(t, '.');
    let mut k: usize = 0;
    while k < labels.len()
        invariant
            chars@ == t,
            t == trim(name@),
            f == split_fields(t, '.'),
            labels@.len() == f.len(),
            k <= labels.len(),
            forall|i: int|
                0 <= i < labels@.len() ==> (#[trigger] labels@[i]).0 <= labels@[i].1 <= chars.len()
                    && chars@.subrange(labels@[i].0 as int, labels@[i].1 as int) == f[i],
            forall|i: int| 0 <= i < k ==> valid_dns_label(#[trigger] f[i]),
        decreases labels.len() - k,
    {
        let (a, b) = labels[k];
        if !dns_label_at(&chars, a, b) {
            assert(!valid_dns_label(split_fields(trim(name@), '.')[k as int]));
            return false;
        }
        k += 1;
    }
    true
}

/// Whether `config` may be used, and `Invalid` when it may not.
pub fn validate(config: &LanServerConfig) -> (r: Result<(), LanConfigError>)
    ensures
        r == (if valid_view(config@) {
            Ok::<(), LanConfigError>(())
        } else {
            Err(LanConfigError::Invalid)
        }),
{
    if config.port < 1024 || config.port == u16::MAX {
        return Err(LanConfigError::Invalid);
    }
    if config.enabled && config.address.is_none() {
        return Err(LanConfigError::Invalid);
    }
    if let Some(address) = config.address {
        if !is_safe_lan_address(address) {
            return Err(LanConfigError::Invalid);
        }
    }
    if let Some(name) = &config.dns_name {
        if !is_valid_lan_dns_name(name.as_str()) {
            return Err(LanConfigError::Invalid);
        }
    }
    Ok(())
}

/// The names of the activation gates that `evidence` leaves open, in order.
pub open spec fn failed_gate_names(evidence: LanSecurityEvidence) -> Seq<Seq<char>> {
    (if evidence.browser_trust_onboarding {
        Seq::empty()
    } else {
        seq![browser_gate()]
    }) + (if evidence.native_protected_storage {
        Seq::empty()
    } else {
        seq![storage_gate()]
    }) + (if evidence.negative_security_suite {
        Seq::empty()
    } else {
        seq![negative_gate()]
    })
}

pub open spec fn browser_gate() -> Seq<char> {
    seq![
        'b',
        'r',
        'o',
        'w',
        's',
        'e',
        'r',
        '_',
        't',
        'r',
        'u',
        's',
        't',
        '_',
        'o',
        'n',
        'b',
        'o',
        'a',
        'r',
        'd',
        'i',
        'n',
        'g',
    ]
}

pub open spec fn storage_gate() -> Seq<char> {
    seq![
        'n',
        'a',
        't',
        'i',
        'v',
        'e',
        '_',
        'p',
        'r',
        'o',
        't',
        'e',
        'c',
        't',
        'e',
        'd',
        '_',
        's',
        't',
        'o',
        'r',
        'a',
        'g',
        'e',
    ]
}

pub open spec fn negative_gate() -> Seq<char> {
    seq![
        'n',
        'e',
        'g',
        'a',
        't',
        'i',
        'v',
        'e',
        '_',
        's',
        'e',
        'c',
        'u',
        'r',
        'i',
        't',
        'y',
        '_',
        's',
        'u',
        'i',
        't',
        'e',
    ]
}

/// Audits the evidence for activating the LAN server: every gate must be
/// evidenced; the permit is granted only then.
pub fn audit_activation(evidence: LanSecurityEvidence) -> (r: (
    LanSecurityAudit,
    Option<LanActivationPermit>,
))
    ensures
        r.0.failed_gates@.map_values(|g: &'static str| g@) == failed_gate_names(evidence),
        r.0.passed == (evidence.browser_trust_onboarding && evidence.native_protected_storage
            && evidence.negative_security_suite),
        r.1 is Some == r.0.passed,
{
    proof {
        reveal_strlit("browser_trust_onboarding");
        reveal_strlit("native_protected_storage");
        reveal_strlit("negative_security_suite");
        assert("browser_trust_onboarding"@ == browser_gate());
        assert("native_protected_storage"@ == storage_gate());
        assert("negative_security_suite"@ == negative_gate());
    }
    let mut failed: Vec<&'static str> = Vec::new();
    let ghost names = Seq::<Seq<char>>::empty();
    if !evidence.browser_trust_onboarding {
        failed.push("browser_trust_onboarding");
    }
    let ghost first = failed@;
    assert(first.map_values(|g: &'static str| g@) =~= (if evidence.browser_trust_onboarding {
        Seq::empty()
    } else {
        seq![browser_gate()]
    }));
    if !evidence.native_protected_storage {
        failed.push("native_protected_storage");
    }
    let ghost second = failed@;
    assert(second.map_values(|g: &'static str| g@) =~= (if evidence.browser_trust_onboarding {
        Seq::empty()
    } else {
        seq![browser_gate()]
    }) + (if evidence.native_protected_storage {
        Seq::empty()
    } else {
        seq![storage_gate()]
    }));
    if !evidence.negative_security_suite {
        failed.push("negative_security_suite");
    }
    assert(failed@.map_values(|g: &'static str| g@) =~= failed_gate_names(evidence));
    let passed = failed.len() == 0;
    let permit = if passed {
        Some(LanActivationPermit(()))
    } else {
        None
    };
    (LanSecurityAudit { passed, failed_gates: failed }, permit)
}

// ---------------------------------------------------------------------------
// The persisted record
// ---------------------------------------------------------------------------

/// The record of `config`.
#[verifier::rlimit(40)]
pub fn encode_config(config: &LanServerConfig) -> (s: String)
    ensures
        s@ == record_text(config@),
{
    proof {
        reveal_strlit("LSLAN1\nenabled=");
        reveal_strlit("true");
        reveal_strlit("false");
        reveal_strlit("\naddress=");
        reveal_strlit("\nport=");
        reveal_strlit("\ndns=");
        reveal_strlit("\n");
    }
    let mut s = String::new();
    append_str(&mut s, "LSLAN1\nenabled=");
    append_str(&mut s, if config.enabled { "true" } else { "false" });
    append_str(&mut s, "\naddress=");
    if let Some(address) = config.address {
        append_ip(&mut s, address);
    }
    append_str(&mut s, "\nport=");
    append_decimal(&mut s, config.port as u64);
    append_str(&mut s, "\ndns=");
    if let Some(name) = &config.dns_name {
        append_str(&mut s, name.as_str());
    }
    append_str(&mut s, "\n");
    proof {
        let c = config@;
        lemma_record_concat(c);
        assert(s@ =~= record_concat(c));
    }
    s
}

proof fn lemma_record_concat(c: LanConfigView)
    ensures
        record_text(c) == record_concat(c),
{
    let ls = record_lines(c);
    reveal_with_fuel(join_fields, 6);
    assert(ls.drop_last().drop_last().drop_last().drop_last() =~= seq![ls[0]]);
    assert(ls.drop_last().drop_last().drop_last() =~= seq![ls[0], ls[1]]);
    assert(ls.drop_last().drop_last() =~= seq![ls[0], ls[1], ls[2]]);
    assert(ls.drop_last() =~= seq![ls[0], ls[1], ls[2], ls[3]]);
    assert(record_text(c) =~= record_concat(c));
}

/// The record of `config` as bytes.
pub fn encode_config_bytes(config: &LanServerConfig) -> (b: Vec<u8>)
    ensures
        b@ == vstd::utf8::encode_utf8(record_text(config@)),
{
    let s = encode_config(config);
    let bytes = s.as_str().as_bytes();
    let mut out: Vec<u8> = Vec::new();
    let mut i: usize = 0;
    while i < bytes.len()
        invariant
            i <= bytes@.len(),
            out@ == bytes@.take(i as int),
        decreases bytes@.len() - i,
    {
        out.push(bytes[i]);
        assert(bytes@.take(i + 1) =~= bytes@.take(i as int).push(bytes@[i as int]));
        i += 1;
    }
    assert(bytes@.take(bytes@.len() as int) =~= bytes@);
    out
}

/// The start of the value in line `chars[from..to]` after `key`, if the
/// line starts with it.
fn value_start(chars: &Vec<char>, from: usize, to: usize, key: &str) -> (r: Option<usize>)
    requires
        from <= to <= chars.len(),
    ensures
        match after_key(chars@.subrange(from as int, to as int), key@) {
            Some(v) => r matches Some(k) && from <= k <= to && chars@.subrange(k as int, to as int) == v,
            None => r is None,
        },
{
    let line = sub_chars(chars, from, to);
    let k = chars_of(key);
    if !has_prefix_at(&line, 0, key) {
        assert(line@.skip(0) == line@);
        return None;
    }
    assert(line@.skip(0) == line@);
    assert(chars@.subrange(from + k.len(), to as int) =~= line@.skip(key@.len() as int));
    Some(from + k.len())
}

/// Whether `chars[from..to]` is `word`.
fn range_is(chars: &Vec<char>, from: usize, to: usize, word: &str) -> (r: bool)
    requires
        from <= to <= chars.len(),
    ensures
        r == (chars@.subrange(from as int, to as int) == word@),
{
    let w = chars_of(word);
    if to - from != w.len() {
        return false;
    }
    let r = has_prefix_at(chars, from, word);
    assert(chars@.skip(from as int).take(w.len() as int) =~= chars@.subrange(from as int, to as int));
    r
}

/// The configuration held by stored bytes, or `Corrupt`.
#[verifier::rlimit(40)]
pub fn decode_config(bytes: &[u8]) -> (r: Result<LanServerConfig, LanConfigError>)
    ensures
        match decode_outcome(bytes@) {
            Ok(v) => r matches Ok(c) && c@ == v,
            Err(e) => r matches Err(x) && x == e,
        },
        r matches Ok(c) ==> valid_view(c@),
        r matches Err(e) ==> e == LanConfigError::Corrupt,
{
    let text = match utf8_text(bytes) {
        Ok(t) => t,
        Err(_) => return Err(LanConfigError::Corrupt),
    };
    let chars = chars_of(text);
    let lines = line_ranges(&chars);
    let ghost ls = lines_of(chars@);
    if lines.len() != 5 {
        return Err(LanConfigError::Corrupt);
    }
    proof {
        reveal_strlit("LSLAN1");
        reveal_strlit("enabled=");
        reveal_strlit("address=");
        reveal_strlit("port=");
        reveal_strlit("dns=");
        reveal_strlit("true");
        reveal_strlit("false");
        assert("LSLAN1"@ == header_line());
        assert("enabled="@ == enabled_key());
        assert("address="@ == address_key());
        assert("port="@ == port_key());
        assert("dns="@ == dns_key());
        assert("true"@ == bool_text(true));
        assert("false"@ == bool_text(false));
    }
    let (h0, h1) = lines[0];
    if !range_is(&chars, h0, h1, "LSLAN1") {
        return Err(LanConfigError::Corrupt);
    }
    let (e0, e1) = lines[1];
    let (a0, a1) = lines[2];
    let (p0, p1) = lines[3];
    let (d0, d1) = lines[4];
    let ev = match value_start(&chars, e0, e1, "enabled=") {
        Some(k) => k,
        None => return Err(LanConfigError::Corrupt),
    };
    let av = match value_start(&chars, a0, a1, "address=") {
        Some(k) => k,
        None => return Err(LanConfigError::Corrupt),
    };
    let pv = match value_start(&chars, p0, p1, "port=") {
        Some(k) => k,
        None => return Err(LanConfigError::Corrupt),
    };
    let dv = match value_start(&chars, d0, d1, "dns=") {
        Some(k) => k,
        None => return Err(LanConfigError::Corrupt),
    };
    let enabled = if range_is(&chars, ev, e1, "true") {
        true
    } else if range_is(&chars, ev, e1, "false") {
        false
    } else {
        return Err(LanConfigError::Corrupt);
    };
    let address = if av == a1 {
        None
    } else {
        let part = sub_chars(&chars, av, a1);
        match parse_ip_chars(&part) {
            Some(a) => Some(a),
            None => return Err(LanConfigError::Corrupt),
        }
    };
    let port = match parse_unsigned_at(&chars, pv, p1, 65535) {
        Some(p) => p as u16,
        None => return Err(LanConfigError::Corrupt),
    };
    let dns_name = if dv == d1 {
        None
    } else {
        Some(string_from(&chars, dv, d1))
    };
    let config = LanServerConfig { enabled, address, port, dns_name };
    proof {
        let v = config@;
        assert(record_fields(chars@) == Some(v));
    }
    match validate(&config) {
        Ok(()) => Ok(config),
        Err(_) => Err(LanConfigError::Corrupt),
    }
}

/// What a configuration store's answer loads as.
pub fn config_from_stored(stored: Result<Option<Vec<u8>>, LanConfigError>) -> (r: Result<
    LanServerConfig,
    LanConfigError,
>)
    ensures
        match load_outcome(
            match stored {
                Ok(Some(b)) => Ok(Some(b@)),
                Ok(None) => Ok(None),
                Err(e) => Err(e),
            },
        ) {
            Ok(v) => r matches Ok(c) && c@ == v,
            Err(e) => r matches Err(x) && x == e,
        },
{
    match stored {
        Err(e) => Err(e),
        Ok(None) => Ok(LanServerConfig::default()),
        Ok(Some(bytes)) => decode_config(bytes.as_slice()),
    }
}

/// A stored record of an accepted configuration loads back as that
/// configuration, provided its DNS name holds no line break (a name may
/// carry surrounding whitespace, which the rules trim away before checking
/// it, but a line break would split the record).
pub proof fn lemma_saved_config_loads_back(c: LanConfigView)
    requires
        valid_view(c),
        c.dns_name matches Some(n) ==> !n.contains('\n') && !n.contains('\r'),
    ensures
        decode_outcome(vstd::utf8::encode_utf8(record_text(c))) == Ok::<
            LanConfigView,
            LanConfigError,
        >(c),
{
    let text = record_text(c);
    lemma_utf8_round_trip(text);
    let ls = record_lines(c);
    lemma_record_lines_clean(c);
    lemma_lines_of_joined(ls);
    assert(lines_of(text) == ls);
    lemma_record_fields(c);
}

proof fn lemma_keyed_clean(key: Seq<char>, value: Seq<char>)
    requires
        key.len() > 0,
        key.last() != '\r',
        !key.contains('\n'),
        !value.contains('\n'),
        !value.contains('\r'),
    ensures
        !(key + value).contains('\n'),
        strip_cr(key + value) == key + value,
{
    let l = key + value;
    if l.contains('\n') {
        let k = choose|k: int| 0 <= k < l.len() && l[k] == '\n';
        if k < key.len() {
            assert(key[k] == '\n');
        } else {
            assert(value[k - key.len()] == '\n');
        }
    }
    if value.len() > 0 {
        assert(l.last() == value.last());
        assert(value.contains(value.last()));
    } else {
        assert(l.last() == key.last());
    }
}

proof fn lemma_no_break(s: Seq<char>)
    requires
        forall|k: int| 0 <= k < s.len() ==> crate::ip_text::is_ip_char(#[trigger] s[k]),
    ensures
        !s.contains('\n'),
        !s.contains('\r'),
{
    if s.contains('\n') {
        let k = choose|k: int| 0 <= k < s.len() && s[k] == '\n';
        assert(crate::ip_text::is_ip_char(s[k]));
    }
    if s.contains('\r') {
        let k = choose|k: int| 0 <= k < s.len() && s[k] == '\r';
        assert(crate::ip_text::is_ip_char(s[k]));
    }
}

proof fn lemma_record_lines_clean(c: LanConfigView)
    requires
        c.dns_name matches Some(n) ==> !n.contains('\n') && !n.contains('\r'),
    ensures
        forall|i: int|
            0 <= i < record_lines(c).len() ==> !(#[trigger] record_lines(c)[i]).contains('\n')
                && strip_cr(record_lines(c)[i]) == record_lines(c)[i],
{
    let ls = record_lines(c);
    let e = Seq::<char>::empty();
    assert(!e.contains('\n') && !e.contains('\r'));
    let h = header_line();
    assert(!h.contains('\n')) by {
        if h.contains('\n') {
            let k = choose|k: int| 0 <= k < h.len() && h[k] == '\n';
        }
    }
    assert(ls[0] == h);
    let keys = seq![enabled_key(), address_key(), port_key(), dns_key()];
    assert forall|i: int| 0 <= i < 4 implies !(#[trigger] keys[i]).contains('\n') by {
        if keys[i].contains('\n') {
            let k = choose|k: int| 0 <= k < keys[i].len() && keys[i][k] == '\n';
        }
    }
    let b = bool_text(c.enabled);
    assert(!b.contains('\n') && !b.contains('\r')) by {
        if b.contains('\n') {
            let k = choose|k: int| 0 <= k < b.len() && b[k] == '\n';
        }
        if b.contains('\r') {
            let k = choose|k: int| 0 <= k < b.len() && b[k] == '\r';
        }
    }
    lemma_keyed_clean(keys[0], b);
    match c.address {
        Some(a) => {
            crate::ip_text::lemma_ip_text_chars(a);
            lemma_no_break(ip_text(a));
            lemma_keyed_clean(keys[1], ip_text(a));
        },
        None => {
            lemma_keyed_clean(keys[1], e);
        },
    }
    let p = dec_text(c.port as nat);
    lemma_dec_text(c.port as nat);
    assert forall|k: int| 0 <= k < p.len() implies crate::ip_text::is_ip_char(#[trigger] p[k]) by {
        assert(crate::text::is_digit(p[k]));
    }
    lemma_no_break(p);
    lemma_keyed_clean(keys[2], p);
    match c.dns_name {
        Some(n) => lemma_keyed_clean(keys[3], n),
        None => lemma_keyed_clean(keys[3], e),
    }
    assert(ls[1] == keys[0] + b);
    assert(ls[3] == keys[2] + p);
}

proof fn lemma_after_key(key: Seq<char>, value: Seq<char>)
    ensures
        after_key(key + value, key) == Some(value),
{
    assert((key + value).take(key.len() as int) =~= key);
    assert((key + value).skip(key.len() as int) =~= value);
}

proof fn lemma_record_fields(c: LanConfigView)
    requires
        valid_view(c),
        lines_of(record_text(c)) == record_lines(c),
    ensures
        record_fields(record_text(c)) == Some(c),
{
    let ls = record_lines(c);
    lemma_after_key(enabled_key(), bool_text(c.enabled));
    let at = match c.address {
        Some(a) => ip_text(a),
        None => Seq::<char>::empty(),
    };
    lemma_after_key(address_key(), at);
    let p = dec_text(c.port as nat);
    lemma_after_key(port_key(), p);
    let d = match c.dns_name {
        Some(n) => n,
        None => Seq::<char>::empty(),
    };
    lemma_after_key(dns_key(), d);
    assert(bool_text(true) != bool_text(false)) by {
        assert(bool_text(true).len() != bool_text(false).len());
    }
    match c.address {
        Some(a) => {
            crate::ip_text::lemma_ip_text_chars(a);
            lemma_ip_round_trip(a);
        },
        None => {},
    }
    lemma_dec_text(c.port as nat);
    assert(p[0] != '+') by {
        assert(crate::text::is_digit(p[0]));
    }
    match c.dns_name {
        Some(n) => {
            if n.len() == 0 {
                assert(trim(n).len() == 0);
            }
        },
        None => {},
    }
}

} // verus!

verus! {

// ---------------------------------------------------------------------------
// The configuration service
// ---------------------------------------------------------------------------

/// Where the configuration record is kept.  Implementations do I/O; nothing
/// is assumed of what they return.
pub trait LanConfigStore {
    fn load(&self) -> Result<Option<Vec<u8>>, LanConfigError>;

    fn store(&self, value: &[u8]) -> Result<(), LanConfigError>;
}

/// Loads and saves the LAN server configuration through a store.
pub struct LanConfigService<S> {
    store: S,
}

proof fn lemma_default_valid()
    ensures
        valid_view(default_view()),
{
}

impl<S> LanConfigService<S> {
    /// The store the service works through.
    pub closed spec fn held_store(&self) -> S {
        self.store
    }
}

impl<S: LanConfigStore> LanConfigService<S> {
    pub fn new(store: S) -> (r: Self)
        ensures
            r.held_store() == store,
    {
        LanConfigService { store }
    }

    /// The stored configuration, the default when none is stored.  Whatever
    /// the store answers, a loaded configuration is an accepted one.
    pub fn load(&self) -> (r: Result<LanServerConfig, LanConfigError>)
        ensures
            r matches Ok(c) ==> valid_view(c@),
    {
        let stored = self.store.load();
        proof {
            lemma_default_valid();
        }
        config_from_stored(stored)
    }

    /// Saves `config` as its record; an unaccepted configuration is refused
    /// with `Invalid` before the store is asked.
    pub fn save(&self, config: &LanServerConfig) -> (r: Result<(), LanConfigError>)
        ensures
            !valid_view(config@) ==> r == Err::<(), LanConfigError>(LanConfigError::Invalid),
    {
        validate(config)?;
        let bytes = encode_config_bytes(config);
        self.store.store(bytes.as_slice())
    }
}

// ---------------------------------------------------------------------------
// The TLS leaf
// ---------------------------------------------------------------------------

/// The TLS leaf in use: its generation, the names it was issued for, and its
/// expiry in Unix seconds.
pub struct LeafRecord {
    pub generation: u64,
    pub names: Vec<String>,
    pub expires_at: i64,
}

#[derive(Debug, Clone, Copy, PartialEq, Eq, Structural)]
pub enum LeafPlan {
    /// The current leaf serves on.
    Reuse,
    /// A new leaf is issued with this generation and expiry.
    Issue { generation: u64, expires_at: i64 },
}

pub open spec fn names_view(names: Seq<String>) -> Seq<Seq<char>> {
    names.map_values(|n: String| n@)
}

/// The names a leaf for `c` is issued for: the DNS name in lowercase, then
/// the address.
pub open spec fn leaf_names_of(c: LanConfigView) -> Seq<Seq<char>> {
    (match c.dns_name {
        Some(n) => seq![crate::text::ascii_lower_seq(n)],
        None => Seq::empty(),
    }) + (match c.address {
        Some(a) => seq![ip_text(a)],
        None => Seq::empty(),
    })
}

/// What to do with the current leaf at `now` for a leaf over `names`: reuse
/// it while it has the same names and is more than seven days from expiry;
/// otherwise issue the next generation, valid for thirty days.
pub open spec fn leaf_plan(current: Option<(u64, Seq<Seq<char>>, i64)>, names: Seq<Seq<char>>, now: i64) -> LeafPlan {
    match current {
        Some((generation, held, expires_at)) => if held == names && now < expires_at
            - LEAF_RENEWAL_DAYS * SECONDS_PER_DAY {
            LeafPlan::Reuse
        } else {
            LeafPlan::Issue {
                generation: (generation + 1) as u64,
                expires_at: (now + LEAF_LIFETIME_DAYS * SECONDS_PER_DAY) as i64,
            }
        },
        None => LeafPlan::Issue {
            generation: 1,
            expires_at: (now + LEAF_LIFETIME_DAYS * SECONDS_PER_DAY) as i64,
        },
    }
}

/// `s` with ASCII letters in lowercase.
pub fn ascii_lowercase(s: &str) -> (r: String)
    ensures
        r@ == crate::text::ascii_lower_seq(s@),
{
    let chars = chars_of(s);
    let mut out = String::new();
    let mut i: usize = 0;
    while i < chars.len()
        invariant
            i <= chars.len(),
            chars@ == s@,
            out@ == crate::text::ascii_lower_seq(s@).take(i as int),
        decreases chars.len() - i,
    {
        crate::text::push_char(&mut out, crate::text::ascii_lower_exec(chars[i]));
        assert(crate::text::ascii_lower_seq(s@).take(i + 1) =~= crate::text::ascii_lower_seq(s@).take(
            i as int,
        ).push(crate::text::ascii_lower(chars@[i as int])));
        i += 1;
    }
    assert(crate::text::ascii_lower_seq(s@).take(chars.len() as int) =~= crate::text::ascii_lower_seq(
        s@,
    ));
    out
}

/// The names a leaf for `config` is issued for.
pub fn leaf_names(config: &LanServerConfig) -> (names: Vec<String>)
    ensures
        names_view(names@) == leaf_names_of(config@),
{
    let mut names: Vec<String> = Vec::new();
    if let Some(name) = &config.dns_name {
        names.push(ascii_lowercase(name.as_str()));
    }
    let ghost first = names@;
    if let Some(address) = config.address {
        let mut text = String::new();
        append_ip(&mut text, address);
        assert(text@ =~= ip_text(address));
        names.push(text);
    }
    assert(names_view(names@) =~= leaf_names_of(config@));
    names
}

fn same_names(a: &Vec<String>, b: &Vec<String>) -> (r: bool)
    ensures
        r == (names_view(a@) == names_view(b@)),
{
    if a.len() != b.len() {
        assert(names_view(a@).len() != names_view(b@).len());
        return false;
    }
    let mut i: usize = 0;
    while i < a.len()
        invariant
            a.len() == b.len(),
            i <= a.len(),
            forall|j: int| 0 <= j < i ==> a@[j]@ == b@[j]@,
        decreases a.len() - i,
    {
        if a[i] != b[i] {
            assert(names_view(a@)[i as int] != names_view(b@)[i as int]);
            return false;
        }
        i += 1;
    }
    assert(names_view(a@) =~= names_view(b@));
    true
}

/// The plan for the TLS leaf serving `config` at `now` (Unix seconds), with
/// the names the leaf must carry; an unaccepted configuration is refused.
pub fn plan_leaf(current: &Option<LeafRecord>, config: &LanServerConfig, now: i64) -> (r: Result<
    (LeafPlan, Vec<String>),
    LeafLifecycleError,
>)
    requires
        now <= i64::MAX - LEAF_LIFETIME_DAYS * SECONDS_PER_DAY,
        current matches Some(l) ==> l.generation < u64::MAX && l.expires_at >= i64::MIN
            + LEAF_RENEWAL_DAYS * SECONDS_PER_DAY,
    ensures
        match r {
            Ok((plan, names)) => valid_view(config@) && names_view(names@) == leaf_names_of(config@)
                && plan == leaf_plan(
                match current {
                    Some(l) => Some((l.generation, names_view(l.names@), l.expires_at)),
                    None => None,
                },
                leaf_names_of(config@),
                now,
            ),
            Err(e) => !valid_view(config@) && e == LeafLifecycleError::InvalidConfiguration,
        },
{
    if validate(config).is_err() {
        return Err(LeafLifecycleError::InvalidConfiguration);
    }
    let names = leaf_names(config);
    let expires_at = now + LEAF_LIFETIME_DAYS * SECONDS_PER_DAY;
    let plan = match current {
        Some(leaf) => {
            if same_names(&leaf.names, &names) && now < leaf.expires_at - LEAF_RENEWAL_DAYS
                * SECONDS_PER_DAY {
                LeafPlan::Reuse
            } else {
                LeafPlan::Issue { generation: leaf.generation + 1, expires_at }
            }
        },
        None => LeafPlan::Issue { generation: 1, expires_at },
    };
    Ok((plan, names))
}

/// The LAN server's status once startup is over.  A disabled server is
/// neither configured nor active.  For an enabled one, `activation` is
/// `None` when the security preflight failed (the server was never
/// started), or the outcome of starting it: its endpoint, or a failure.
pub fn startup_status(enabled: bool, activation: Option<Result<String, ()>>) -> (r: LanServerStatus)
    ensures
        r.configured == enabled,
        !enabled ==> !r.active && r.endpoint is None && r.failure is None,
        enabled ==> match activation {
            None => !r.active && r.endpoint is None && r.failure == Some(
                "security_preflight_failed",
            ),
            Some(Err(_)) => !r.active && r.endpoint is None && r.failure == Some(
                "secure_start_failed",
            ),
            Some(Ok(endpoint)) => r.active && r.endpoint == Some(endpoint) && r.failure is None,
        },
{
    if !enabled {
        return LanServerStatus { configured: false, active: false, endpoint: None, failure: None };
    }
    match activation {
        None => LanServerStatus {
            configured: true,
            active: false,
            endpoint: None,
            failure: Some("security_preflight_failed"),
        },
        Some(Err(_)) => LanServerStatus {
            configured: true,
            active: false,
            endpoint: None,
            failure: Some("secure_start_failed"),
        },
        Some(Ok(endpoint)) => LanServerStatus {
            configured: true,
            active: true,
            endpoint: Some(endpoint),
            failure: None,
        },
    }
}


/// What one route probe learned: the probe socket could not be bound or
/// routed (`Unroutable`), the socket was routed but could not report its
/// local address (`AddressUnknown`), or the local address the system chose.
#[derive(Debug, Clone, Copy, PartialEq, Eq)]
pub enum RouteProbe {
    Unroutable,
    AddressUnknown,
    Routed(IpAddress),
}

/// The primary LAN address found by `probes`, taken in order: an
/// unroutable probe or an unsafe address is passed over, a probe that
/// cannot report its address ends the search with nothing, and the first
/// safe address is the answer.
pub open spec fn primary_address_of(probes: Seq<RouteProbe>) -> Option<IpAddress>
    decreases probes.len(),
{
    if probes.len() == 0 {
        None
    } else {
        match probes[0] {
            RouteProbe::AddressUnknown => None,
            RouteProbe::Routed(a) if is_safe_lan(a) => Some(a),
            _ => primary_address_of(probes.drop_first()),
        }
    }
}

/// The primary LAN address among the outcomes of the route probes, which
/// are made towards an IPv4 and then an IPv6 documentation address.
pub fn primary_lan_address(probes: &Vec<RouteProbe>) -> (r: Option<IpAddress>)
    ensures
        r == primary_address_of(probes@),
        r matches Some(a) ==> is_safe_lan(a),
{
    let mut i: usize = 0;
    proof {
        assert(probes@.skip(0) =~= probes@);
    }
    while i < probes.len()
        invariant
            i <= probes.len(),
            primary_address_of(probes@) == primary_address_of(probes@.skip(i as int)),
        decreases probes.len() - i,
    {
        proof {
            assert(probes@.skip(i as int).drop_first() =~= probes@.skip(i + 1));
        }
        match probes[i] {
            RouteProbe::AddressUnknown => {
                return None;
            },
            RouteProbe::Routed(a) => {
                if is_safe_lan_address(a) {
                    return Some(a);
                }
            },
            RouteProbe::Unroutable => {},
        }
        i += 1;
    }
    proof {
        assert(probes@.skip(i as int).len() == 0);
    }
    None
}


/// Total order of addresses: every IPv4 address before every IPv6 address,
/// then by numeric value (the order of the standard library's `IpAddr`).
pub open spec fn address_le(a: IpAddress, b: IpAddress) -> bool {
    match (a, b) {
        (IpAddress::V4(x), IpAddress::V4(y)) => x <= y,
        (IpAddress::V4(_), IpAddress::V6(_)) => true,
        (IpAddress::V6(_), IpAddress::V4(_)) => false,
        (IpAddress::V6(x), IpAddress::V6(y)) => x <= y,
    }
}

/// The addresses stand in strictly increasing order.
pub open spec fn strictly_sorted(addresses: Seq<IpAddress>) -> bool {
    forall|i: int, j: int|
        0 <= i < j < addresses.len() ==> address_le(#[trigger] addresses[i], #[trigger] addresses[j])
            && addresses[i] != addresses[j]
}

fn address_le_exec(a: IpAddress, b: IpAddress) -> (r: bool)
    ensures
        r == address_le(a, b),
{
    match (a, b) {
        (IpAddress::V4(x), IpAddress::V4(y)) => x <= y,
        (IpAddress::V4(_), IpAddress::V6(_)) => true,
        (IpAddress::V6(_), IpAddress::V4(_)) => false,
        (IpAddress::V6(x), IpAddress::V6(y)) => x <= y,
    }
}

/// The first position of `sorted` whose address does not sort before `a`.
fn insertion_point(sorted: &Vec<IpAddress>, a: IpAddress) -> (pos: usize)
    ensures
        pos <= sorted.len(),
        forall|k: int| 0 <= k < pos ==> !address_le(a, #[trigger] sorted@[k]),
        pos < sorted.len() ==> address_le(a, sorted@[pos as int]),
{
    let mut pos: usize = 0;
    while pos < sorted.len() && !address_le_exec(a, sorted[pos])
        invariant
            pos <= sorted.len(),
            forall|k: int| 0 <= k < pos ==> !address_le(a, #[trigger] sorted@[k]),
        decreases sorted.len() - pos,
    {
        pos += 1;
    }
    pos
}

proof fn lemma_take_next(s: Seq<IpAddress>, i: int, x: IpAddress)
    requires
        0 <= i < s.len(),
    ensures
        s.take(i + 1).contains(x) <==> (s.take(i).contains(x) || s[i] == x),
{
    let n = s.take(i + 1);
    let t = s.take(i);
    if n.contains(x) {
        let k = choose|k: int| 0 <= k < n.len() && n[k] == x;
        if k < i {
            assert(t[k] == x);
        }
    }
    if t.contains(x) {
        let k = choose|k: int| 0 <= k < t.len() && t[k] == x;
        assert(n[k] == x);
    }
    if s[i] == x {
        assert(n[i] == x);
    }
}

/// The addresses among `addresses` that a LAN server may bind, each once,
/// in increasing order.
pub fn safe_lan_addresses(addresses: Vec<IpAddress>) -> (r: Vec<IpAddress>)
    ensures
        strictly_sorted(r@),
        forall|x: IpAddress| r@.contains(x) <==> (addresses@.contains(x) && is_safe_lan(x)),
{
    let mut out: Vec<IpAddress> = Vec::new();
    let mut i: usize = 0;
    while i < addresses.len()
        invariant
            i <= addresses.len(),
            strictly_sorted(out@),
            forall|x: IpAddress|
                #[trigger] out@.contains(x) <==> (addresses@.take(i as int).contains(x) && is_safe_lan(
                    x,
                )),
        decreases addresses.len() - i,
    {
        let a = addresses[i];
        if is_safe_lan_address(a) {
            let pos = insertion_point(&out, a);
            if pos < out.len() && out[pos] == a {
                proof {
                    assert forall|x: IpAddress| #[trigger] out@.contains(x) <==> (addresses@.take(i + 1).contains(
                        x,
                    ) && is_safe_lan(x)) by {
                        if x == a {
                            assert(out@[pos as int] == a);
                        }
                        lemma_take_next(addresses@, i as int, x);
                    }
                }
            } else {
                let ghost before = out@;
                out.insert(pos, a);
                proof {
                    assert forall|p: int, q: int| 0 <= p < q < out@.len() implies address_le(
                        #[trigger] out@[p],
                        #[trigger] out@[q],
                    ) && out@[p] != out@[q] by {
                        if q < pos {
                            assert(out@[p] == before[p] && out@[q] == before[q]);
                        } else if q == pos {
                            assert(out@[p] == before[p]);
                            assert(!address_le(a, before[p]));
                        } else if p < pos {
                            assert(out@[p] == before[p] && out@[q] == before[q - 1]);
                        } else if p == pos {
                            assert(out@[q] == before[q - 1]);
                            assert(address_le(a, before[pos as int]));
                            assert(before[pos as int] != a);
                            if q - 1 > pos {
                                assert(address_le(before[pos as int], before[q - 1]));
                                assert(before[pos as int] != before[q - 1]);
                            }
                        } else {
                            assert(out@[p] == before[p - 1] && out@[q] == before[q - 1]);
                        }
                    }
                    assert forall|x: IpAddress| #[trigger] out@.contains(x) <==> (addresses@.take(i + 1).contains(
                        x,
                    ) && is_safe_lan(x)) by {
                        if out@.contains(x) {
                            let k = choose|k: int| 0 <= k < out@.len() && out@[k] == x;
                            if k < pos {
                                assert(before[k] == x);
                            } else if k > pos {
                                assert(before[k - 1] == x);
                            }
                        }
                        if before.contains(x) {
                            let k = choose|k: int| 0 <= k < before.len() && before[k] == x;
                            if k < pos {
                                assert(out@[k] == x);
                            } else {
                                assert(out@[k + 1] == x);
                            }
                        }
                        assert(out@[pos as int] == a);
                        lemma_take_next(addresses@, i as int, x);
                    }
                }
            }
        } else {
            proof {
                assert forall|x: IpAddress| #[trigger] out@.contains(x) <==> (addresses@.take(i + 1).contains(x)
                    && is_safe_lan(x)) by {
                    lemma_take_next(addresses@, i as int, x);
                }
            }
        }
        i += 1;
    }
    proof {
        assert(addresses@.take(addresses.len() as int) =~= addresses@);
    }
    out
}

} // verus!
