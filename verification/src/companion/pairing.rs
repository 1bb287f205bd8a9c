//! The phone side of QR-code pairing: reading the QR payload, checking the
//! token's age and that phone and desktop share a subnet, and building the
//! handshake.
use vstd::prelude::*;

use crate::clock::now_secs_u64;
use crate::companion::types::{ConnectionType, TrustLevel};
use crate::ids::{hex_lower, lemma_hyphenated_reads_back, new_uuid, nibble, parse_uuid, uuid_hyphenated, uuid_parse_result};
use crate::text::{
    all_digits, decimal, digit_char, digit_val, digits_value, find_char, is_digit, lemma_find_char_props, chars_eq_str, chars_of, owned, parse_unsigned, parse_unsigned_bounded, push_chars, push_str, split_all,
    split_once, split_once_seq, split_seq, starts_with_seq, str_starts_with, string_from_chars, sub_vec,
};

verus! {

/// Errors of pairing.
#[derive(Debug, Clone, PartialEq)]
pub enum PairingClientError {
    /// The pairing token is more than five minutes old.
    TokenExpired,
    /// Phone and desktop are on different subnets.
    SubnetMismatch { phone: String, desktop: String },
    /// The coordinator cannot be reached.
    NetworkUnreachable,
    /// The QR payload is malformed.
    InvalidQrData(String),
    /// The coordinator refused the handshake.
    HandshakeRejected(String),
}

/// The message of a pairing error.
pub open spec fn pairing_error_text(e: PairingClientError) -> Seq<char> {
    match e {
        PairingClientError::TokenExpired => "Pairing token has expired (>5 minutes old)"@,
        PairingClientError::SubnetMismatch { phone, desktop } => "Subnet mismatch: phone="@ + phone@ + ", desktop="@
            + desktop@,
        PairingClientError::NetworkUnreachable => "Coordinator is not reachable"@,
        PairingClientError::InvalidQrData(m) => "Invalid QR data: "@ + m@,
        PairingClientError::HandshakeRejected(m) => "Handshake rejected: "@ + m@,
    }
}

impl PairingClientError {
    /// The human-readable message of the error.
    pub fn to_text(&self) -> (s: String)
        ensures
            s@ == pairing_error_text(*self),
    {
        let mut out: Vec<char> = Vec::new();
        match self {
            PairingClientError::TokenExpired => push_str(&mut out, "Pairing token has expired (>5 minutes old)"),
            PairingClientError::SubnetMismatch { phone, desktop } => {
                push_str(&mut out, "Subnet mismatch: phone=");
                push_str(&mut out, phone.as_str());
                push_str(&mut out, ", desktop=");
                push_str(&mut out, desktop.as_str());
            },
            PairingClientError::NetworkUnreachable => push_str(&mut out, "Coordinator is not reachable"),
            PairingClientError::InvalidQrData(m) => {
                push_str(&mut out, "Invalid QR data: ");
                push_str(&mut out, m.as_str());
            },
            PairingClientError::HandshakeRejected(m) => {
                push_str(&mut out, "Handshake rejected: ");
                push_str(&mut out, m.as_str());
            },
        }
        string_from_chars(&out)
    }
}

/// What the phone reports of itself in the handshake.
#[derive(Debug, Clone)]
pub struct PhoneCapabilities {
    pub os: String,
    pub npu: String,
    pub ram_mb: u64,
    pub battery_percent: u8,
    pub connection_type: ConnectionType,
}

/// The fields of a pairing QR code.
#[derive(Debug, Clone)]
pub struct QrCodeData {
    /// Single-use pairing token.
    pub token: String,
    /// The coordinator's address (`ip:port`).
    pub coordinator_addr: String,
    /// The desktop's subnet.
    pub desktop_subnet: String,
    /// When the token was created (seconds since the Unix epoch).
    pub created_at_secs: u64,
    /// The mesh network to join.
    pub network_id: u128,
}

/// The message the phone sends the coordinator to pair.
#[derive(Debug, Clone)]
pub struct HandshakeMessage {
    pub pairing_token: String,
    pub phone_node_id: u128,
    pub capabilities: PhoneCapabilities,
}

/// The outcome of a successful pairing.
#[derive(Debug, Clone)]
pub struct PairingResult {
    pub network_id: u128,
    pub coordinator_addr: String,
    pub assigned_node_id: u128,
    pub trust_level: TrustLevel,
}

// ─── The QR payload ─────────────────────────────────────────────────────────

/// The parsed fields: token, coordinator address, subnet, time, network.
pub type QrView = (Seq<char>, Seq<char>, Seq<char>, u64, u128);

/// The value of the last `key=value` parameter with that key, if any.
pub open spec fn param_value(params: Seq<Seq<char>>, key: Seq<char>) -> Option<Seq<char>>
    decreases params.len(),
{
    if params.len() == 0 {
        None
    } else {
        let kv = split_once_seq(params.last(), '=');
        if kv.len() == 2 && kv[0] == key {
            Some(kv[1])
        } else {
            param_value(params.drop_last(), key)
        }
    }
}

/// What a QR payload `resonant://<addr>?token=..&subnet=..&ts=..&net=..`
/// reads as: its fields, or the reason it is rejected.
pub open spec fn qr_parse(s: Seq<char>) -> Result<QrView, Seq<char>> {
    if !starts_with_seq(s, "resonant://"@) {
        Err("Missing resonant:// prefix"@)
    } else {
        let parts = split_once_seq(s.skip(11), '?');
        if parts.len() != 2 {
            Err("Missing query parameters"@)
        } else if parts[0].len() == 0 {
            Err("Empty coordinator address"@)
        } else {
            let params = split_seq(parts[1], '&');
            match param_value(params, "token"@) {
                None => Err("Missing token parameter"@),
                Some(token) => match param_value(params, "subnet"@) {
                    None => Err("Missing subnet parameter"@),
                    Some(subnet) => match param_value(params, "ts"@) {
                        None => Err("Missing ts parameter"@),
                        Some(ts) => match param_value(params, "net"@) {
                            None => Err("Missing net parameter"@),
                            Some(net) => match parse_unsigned(ts) {
                                Some(t) if t <= u64::MAX => match uuid_parse_result(net) {
                                    Some(id) => Ok((token, parts[0], subnet, t as u64, id)),
                                    None => Err("Invalid network ID"@),
                                },
                                _ => Err("Invalid timestamp"@),
                            },
                        },
                    },
                },
            }
        }
    }
}

/// No character of `s` is `c`.
pub open spec fn lacks(s: Seq<char>, c: char) -> bool {
    forall|i: int| 0 <= i < s.len() ==> s[i] != c
}

/// The QR payload a desktop shows for a token, coordinator address,
/// subnet, creation time and network:
/// `resonant://<addr>?token=<token>&subnet=<subnet>&ts=<ts>&net=<network>`.
pub open spec fn qr_payload(token: Seq<char>, addr: Seq<char>, subnet: Seq<char>, ts: u64, net: u128) -> Seq<char> {
    "resonant://"@ + addr + "?token="@ + token + "&subnet="@ + subnet + "&ts="@ + decimal(ts as nat) + "&net="@
        + uuid_hyphenated(net)
}

/// `find_char` finds the first `c` after a prefix without one.
proof fn lemma_find_after(p: Seq<char>, c: char, rest: Seq<char>)
    requires
        lacks(p, c),
    ensures
        find_char(p + seq![c] + rest, c) == Some(p.len() as int),
{
    let s = p + seq![c] + rest;
    lemma_find_char_props(s, c);
    assert(s[p.len() as int] == c);
    match find_char(s, c) {
        Some(i) => {
            if i < p.len() {
                assert(s[i] == p[i]);
            }
        },
        None => {},
    }
}

/// Splitting at `c` after a prefix without `c` takes the prefix off first.
proof fn lemma_split_after(p: Seq<char>, c: char, rest: Seq<char>)
    requires
        lacks(p, c),
    ensures
        split_seq(p + seq![c] + rest, c) == seq![p] + split_seq(rest, c),
        split_once_seq(p + seq![c] + rest, c) == seq![p, rest],
{
    let s = p + seq![c] + rest;
    lemma_find_after(p, c, rest);
    assert(s.take(p.len() as int) =~= p);
    assert(s.skip(p.len() as int + 1) =~= rest);
}

/// A text without `c` splits at `c` into itself.
proof fn lemma_split_none(p: Seq<char>, c: char)
    requires
        lacks(p, c),
    ensures
        split_seq(p, c) == seq![p],
{
    lemma_find_char_props(p, c);
    if find_char(p, c) is Some {
        let i = find_char(p, c)->0;
        assert(p[i] == c);
    }
}

/// A digit character reads back as its value.
proof fn lemma_digit_char_reads_back(d: nat)
    requires
        d < 10,
    ensures
        is_digit(digit_char(d)),
        digit_val(digit_char(d)) == d,
{
}

/// The decimal text of a number reads back as the number, and holds only
/// digits.
proof fn lemma_decimal_reads_back(n: nat)
    ensures
        decimal(n).len() > 0,
        all_digits(decimal(n)),
        digits_value(decimal(n)) == n,
        parse_unsigned(decimal(n)) == Some(n),
    decreases n,
{
    lemma_digit_char_reads_back(n % 10);
    if n >= 10 {
        lemma_decimal_reads_back(n / 10);
        let d = decimal(n / 10);
        let s = d.push(digit_char(n % 10));
        assert(s.drop_last() =~= d);
        assert forall|i: int| 0 <= i < s.len() implies is_digit(#[trigger] s[i]) by {
            if i < d.len() {
                assert(s[i] == d[i]);
            }
        }
        assert(decimal(n) == s);
        assert(s.last() == digit_char(n % 10));
        assert(digits_value(s) == digits_value(d) * 10 + digit_val(digit_char(n % 10)));
        assert((n / 10) * 10 + n % 10 == n);
    } else {
        let s = decimal(n);
        assert(s == seq![digit_char(n)]);
        assert(s.drop_last() =~= Seq::<char>::empty());
        assert(digits_value(Seq::<char>::empty()) == 0);
        assert(n % 10 == n);
        assert(digits_value(s) == digits_value(s.drop_last()) * 10 + digit_val(s.last()));
    }
    let s = decimal(n);
    assert(is_digit(s[0]));
    assert(s[0] != '+');
}

/// The hyphenated text of a UUID holds no `&`.
proof fn lemma_hyphenated_lacks_amp(v: u128)
    ensures
        lacks(uuid_hyphenated(v), '&'),
{
    let h = uuid_hyphenated(v);
    assert forall|p: int| 0 <= p < h.len() implies h[p] != '&' by {
        if !(p == 8 || p == 13 || p == 18 || p == 23) {
            let k = if p < 8 {
                p
            } else if p < 13 {
                p - 1
            } else if p < 18 {
                p - 2
            } else if p < 23 {
                p - 3
            } else {
                p - 4
            };
            let sh: u128 = ((31 - k) * 4) as u128;
            assert(nibble(v, k) == (v >> sh) & 0xf);
            assert((v >> sh) & 0xf <= 15) by (bit_vector);
            assert(h[p] == hex_lower(nibble(v, k)));
        }
    }
}

/// The `key=value` parameters of a payload, joined by `&`.
pub open spec fn qr_query(token: Seq<char>, subnet: Seq<char>, ts: u64, net: u128) -> Seq<char> {
    ("token"@ + seq!['='] + token) + seq!['&'] + (("subnet"@ + seq!['='] + subnet) + seq!['&'] + (("ts"@ + seq!['=']
        + decimal(ts as nat)) + seq!['&'] + ("net"@ + seq!['='] + uuid_hyphenated(net))))
}

/// A key followed by `=` and a value, for a key without `&` and `=`.
proof fn lemma_key_value(key: Seq<char>, val: Seq<char>)
    requires
        lacks(key, '&'),
        lacks(key, '='),
        lacks(val, '&'),
    ensures
        lacks(key + seq!['='] + val, '&'),
        split_once_seq(key + seq!['='] + val, '=') == seq![key, val],
{
    let s = key + seq!['='] + val;
    assert forall|i: int| 0 <= i < s.len() implies s[i] != '&' by {
        if i < key.len() {
            assert(s[i] == key[i]);
        } else if i > key.len() {
            assert(s[i] == val[i - key.len() - 1]);
        }
    }
    lemma_split_after(key, '=', val);
}

/// The parameters of a payload split into its four `key=value` pieces,
/// which read as the four fields.
proof fn lemma_qr_params(token: Seq<char>, subnet: Seq<char>, ts: u64, net: u128)
    requires
        lacks(token, '&'),
        lacks(subnet, '&'),
    ensures
        param_value(split_seq(qr_query(token, subnet, ts, net), '&'), "token"@) == Some(token),
        param_value(split_seq(qr_query(token, subnet, ts, net), '&'), "subnet"@) == Some(subnet),
        param_value(split_seq(qr_query(token, subnet, ts, net), '&'), "ts"@) == Some(decimal(ts as nat)),
        param_value(split_seq(qr_query(token, subnet, ts, net), '&'), "net"@) == Some(uuid_hyphenated(net)),
{
    reveal_strlit("token");
    reveal_strlit("subnet");
    reveal_strlit("ts");
    reveal_strlit("net");
    let tsd = decimal(ts as nat);
    let nd = uuid_hyphenated(net);
    lemma_decimal_reads_back(ts as nat);
    lemma_hyphenated_lacks_amp(net);
    assert(lacks(tsd, '&')) by {
        assert forall|i: int| 0 <= i < tsd.len() implies tsd[i] != '&' by {
            assert(is_digit(tsd[i]));
        }
    }
    lemma_key_value("token"@, token);
    lemma_key_value("subnet"@, subnet);
    lemma_key_value("ts"@, tsd);
    lemma_key_value("net"@, nd);
    let p1 = "token"@ + seq!['='] + token;
    let p2 = "subnet"@ + seq!['='] + subnet;
    let p3 = "ts"@ + seq!['='] + tsd;
    let p4 = "net"@ + seq!['='] + nd;
    lemma_split_after(p1, '&', p2 + seq!['&'] + (p3 + seq!['&'] + p4));
    lemma_split_after(p2, '&', p3 + seq!['&'] + p4);
    lemma_split_after(p3, '&', p4);
    lemma_split_none(p4, '&');
    let params = split_seq(qr_query(token, subnet, ts, net), '&');
    assert(params =~= seq![p1, p2, p3, p4]);
    assert("net"@ != "token"@ && "net"@ != "subnet"@ && "net"@ != "ts"@);
    assert("ts"@ != "token"@ && "ts"@ != "subnet"@);
    assert("subnet"@ != "token"@);
    let q3 = seq![p1, p2, p3];
    let q2 = seq![p1, p2];
    let q1 = seq![p1];
    assert(params.drop_last() =~= q3);
    assert(q3.drop_last() =~= q2);
    assert(q2.drop_last() =~= q1);
    assert(q1.drop_last() =~= Seq::<Seq<char>>::empty());
    assert(param_value(q1, "token"@) == Some(token));
    assert(param_value(q2, "token"@) == Some(token));
    assert(param_value(q3, "token"@) == Some(token));
    assert(param_value(q2, "subnet"@) == Some(subnet));
    assert(param_value(q3, "subnet"@) == Some(subnet));
    assert(param_value(q3, "ts"@) == Some(tsd));
}

/// Law: the payload of well-formed fields (a non-empty address without `?`,
/// token and subnet without `&`) reads back as exactly those fields.
pub proof fn law_qr_round_trip(token: Seq<char>, addr: Seq<char>, subnet: Seq<char>, ts: u64, net: u128)
    requires
        addr.len() > 0,
        lacks(addr, '?'),
        lacks(token, '&'),
        lacks(subnet, '&'),
    ensures
        qr_parse(qr_payload(token, addr, subnet, ts, net)) == Ok::<QrView, Seq<char>>((token, addr, subnet, ts, net)),
{
    reveal_strlit("resonant://");
    reveal_strlit("?token=");
    reveal_strlit("&subnet=");
    reveal_strlit("&ts=");
    reveal_strlit("&net=");
    reveal_strlit("token");
    reveal_strlit("subnet");
    reveal_strlit("ts");
    reveal_strlit("net");
    let query = qr_query(token, subnet, ts, net);
    let s = qr_payload(token, addr, subnet, ts, net);
    assert(s.take(11) =~= "resonant://"@);
    assert(s.skip(11) =~= addr + seq!['?'] + query);
    lemma_split_after(addr, '?', query);
    lemma_qr_params(token, subnet, ts, net);
    lemma_decimal_reads_back(ts as nat);
    lemma_hyphenated_reads_back(net);
}

/// The answer of the expiry check: a token is valid for 300 seconds after
/// its creation (a creation time in the future counts as now).
pub open spec fn expiry_check(created_at_secs: u64, now_secs: u64) -> Result<(), PairingClientError> {
    if now_secs > created_at_secs && now_secs - created_at_secs > 300 {
        Err(PairingClientError::TokenExpired)
    } else {
        Ok(())
    }
}

/// A subnet octet: a decimal number of at most 255.
pub open spec fn octet_ok(o: Seq<char>) -> bool {
    parse_unsigned(o) matches Some(v) && v <= 255
}

/// The first three octets of an address, joined by dots, when there are at
/// least three pieces and the first three are octets.
pub open spec fn subnet_prefix(ip: Seq<char>) -> Option<Seq<char>> {
    let o = split_seq(ip, '.');
    if o.len() >= 3 && octet_ok(o[0]) && octet_ok(o[1]) && octet_ok(o[2]) {
        Some(o[0] + "."@ + o[1] + "."@ + o[2])
    } else {
        None
    }
}

/// The answer of the subnet check, as values: `Ok`, a mismatch of the two
/// prefixes, or the message of an invalid address.
pub open spec fn subnet_check(phone_ip: Seq<char>, desktop_subnet: Seq<char>) -> Result<(), (Option<(Seq<char>, Seq<char>)>, Seq<char>)> {
    match subnet_prefix(phone_ip) {
        None => Err((None, "Invalid phone IP: "@ + phone_ip)),
        Some(p) => match subnet_prefix(desktop_subnet) {
            None => Err((None, "Invalid desktop subnet: "@ + desktop_subnet)),
            Some(d) => if p == d {
                Ok(())
            } else {
                Err((Some((p, d)), Seq::empty()))
            },
        },
    }
}

/// The error `e` is what a failed subnet check answers.
pub open spec fn subnet_error_matches(e: PairingClientError, c: (Option<(Seq<char>, Seq<char>)>, Seq<char>)) -> bool {
    match c.0 {
        Some((p, d)) => e matches PairingClientError::SubnetMismatch { phone, desktop } && phone@ == p && desktop@
            == d,
        None => e matches PairingClientError::InvalidQrData(m) && m@ == c.1,
    }
}

/// The outcome of pairing from a QR payload at time `now`: the parse error,
/// the expiry error, the subnet error, or the network of the QR code joined
/// by node `node` as a locally owned node.
pub open spec fn pairing_outcome(
    node: u128,
    qr: Seq<char>,
    phone_ip: Seq<char>,
    now: u64,
    r: Result<PairingResult, PairingClientError>,
) -> bool {
    match qr_parse(qr) {
        Err(m) => r matches Err(PairingClientError::InvalidQrData(e)) && e@ == m,
        Ok(v) => match expiry_check(v.3, now) {
            Err(e) => r == Err::<PairingResult, PairingClientError>(e),
            Ok(()) => match subnet_check(phone_ip, v.2) {
                Err(c) => r matches Err(e) && subnet_error_matches(e, c),
                Ok(()) => r matches Ok(p) && p.network_id == v.4 && p.coordinator_addr@ == v.1 && p.assigned_node_id
                    == node && p.trust_level == TrustLevel::LocalOwned,
            },
        },
    }
}

/// Phone-side pairing client: the phone's node ID and its capabilities.
pub struct PairingClient {
    node_id: u128,
    capabilities: PhoneCapabilities,
}

/// A copy of the capabilities.
pub fn copy_capabilities(c: &PhoneCapabilities) -> (r: PhoneCapabilities)
    ensures
        r == *c,
{
    PhoneCapabilities {
        os: c.os.clone(),
        npu: c.npu.clone(),
        ram_mb: c.ram_mb,
        battery_percent: c.battery_percent,
        connection_type: c.connection_type,
    }
}

/// An invalid-QR error with the given message.
fn invalid_qr(msg: &str) -> (e: PairingClientError)
    ensures
        e matches PairingClientError::InvalidQrData(m) && m@ == msg@,
{
    PairingClientError::InvalidQrData(owned(msg))
}

impl PairingClient {
    /// The phone's node ID.
    pub closed spec fn node_view(&self) -> u128 {
        self.node_id
    }

    /// The phone's capabilities.
    pub closed spec fn capabilities_view(&self) -> PhoneCapabilities {
        self.capabilities
    }

    /// A client for the phone with the given node ID and capabilities.
    pub fn new(node_id: u128, capabilities: PhoneCapabilities) -> (c: Self)
        ensures
            c.node_view() == node_id,
            c.capabilities_view() == capabilities,
    {
        PairingClient { node_id, capabilities }
    }

    /// Reads a QR payload: the `resonant://` prefix, a non-empty coordinator
    /// address before `?`, then `&`-separated `key=value` parameters of which
    /// `token`, `subnet`, `ts` (decimal seconds) and `net` (a UUID) must be
    /// present; when a key repeats the last value counts.
    pub fn parse_qr_data(qr_data: &str) -> (r: Result<QrCodeData, PairingClientError>)
        ensures
            match qr_parse(qr_data@) {
                Ok(v) => r matches Ok(q) && q.token@ == v.0 && q.coordinator_addr@ == v.1 && q.desktop_subnet@ == v.2
                    && q.created_at_secs == v.3 && q.network_id == v.4,
                Err(m) => r matches Err(PairingClientError::InvalidQrData(e)) && e@ == m,
            },
    {
        if !str_starts_with(qr_data, "resonant://") {
            return Err(invalid_qr("Missing resonant:// prefix"));
        }
        let all = chars_of(qr_data);
        proof {
            reveal_strlit("resonant://");
        }
        let data = sub_vec(&all, 11, all.len());
        assert(data@ =~= qr_data@.skip(11));
        let parts = split_once(&data, '?');
        if parts.len() != 2 {
            return Err(invalid_qr("Missing query parameters"));
        }
        let addr = &parts[0];
        if addr.len() == 0 {
            return Err(invalid_qr("Empty coordinator address"));
        }
        let params = split_all(&parts[1], '&');
        let ghost ps = split_seq(parts@[1]@, '&');
        let mut token: Option<Vec<char>> = None;
        let mut subnet: Option<Vec<char>> = None;
        let mut ts: Option<Vec<char>> = None;
        let mut net: Option<Vec<char>> = None;
        let mut i: usize = 0;
        while i < params.len()
            invariant
                i <= params@.len(),
                params@.len() == ps.len(),
                forall|k: int| 0 <= k < params@.len() ==> #[trigger] params@[k]@ == ps[k],
                opt_view(token) == param_value(ps.take(i as int), "token"@),
                opt_view(subnet) == param_value(ps.take(i as int), "subnet"@),
                opt_view(ts) == param_value(ps.take(i as int), "ts"@),
                opt_view(net) == param_value(ps.take(i as int), "net"@),
            decreases params.len() - i,
        {
            let ghost t = ps.take(i + 1);
            assert(t.drop_last() =~= ps.take(i as int));
            assert(t.last() == params@[i as int]@);
            let kv = split_once(&params[i], '=');
            proof {
                reveal_strlit("token");
                reveal_strlit("subnet");
                reveal_strlit("ts");
                reveal_strlit("net");
                assert("token"@.len() == 5 && "subnet"@.len() == 6 && "ts"@.len() == 2 && "net"@.len() == 3);
            }
            if kv.len() == 2 {
                let v = sub_vec(&kv[1], 0, kv[1].len());
                assert(v@ =~= kv@[1]@);
                if chars_eq_str(&kv[0], "token") {
                    token = Some(v);
                } else if chars_eq_str(&kv[0], "subnet") {
                    subnet = Some(v);
                } else if chars_eq_str(&kv[0], "ts") {
                    ts = Some(v);
                } else if chars_eq_str(&kv[0], "net") {
                    net = Some(v);
                }
            }
            i = i + 1;
        }
        assert(ps.take(i as int) =~= ps);
        let token = match token {
            Some(v) => v,
            None => {
                return Err(invalid_qr("Missing token parameter"));
            },
        };
        let subnet = match subnet {
            Some(v) => v,
            None => {
                return Err(invalid_qr("Missing subnet parameter"));
            },
        };
        let ts = match ts {
            Some(v) => v,
            None => {
                return Err(invalid_qr("Missing ts parameter"));
            },
        };
        let net = match net {
            Some(v) => v,
            None => {
                return Err(invalid_qr("Missing net parameter"));
            },
        };
        let created_at_secs = match parse_unsigned_bounded(&ts, u64::MAX) {
            Some(t) => t,
            None => {
                return Err(invalid_qr("Invalid timestamp"));
            },
        };
        let net_s = string_from_chars(&net);
        let network_id = match parse_uuid(net_s.as_str()) {
            Some(id) => id,
            None => {
                return Err(invalid_qr("Invalid network ID"));
            },
        };
        Ok(
            QrCodeData {
                token: string_from_chars(&token),
                coordinator_addr: string_from_chars(addr),
                desktop_subnet: string_from_chars(&subnet),
                created_at_secs,
                network_id,
            },
        )
    }

    /// Checks a token created at `created_at_secs` against `now_secs`.
    pub fn validate_token_expiry_at(created_at_secs: u64, now_secs: u64) -> (r: Result<(), PairingClientError>)
        ensures
            r == expiry_check(created_at_secs, now_secs),
    {
        let elapsed = if now_secs > created_at_secs {
            now_secs - created_at_secs
        } else {
            0
        };
        if elapsed > 300 {
            return Err(PairingClientError::TokenExpired);
        }
        Ok(())
    }

    /// Checks a token created at `created_at_secs` against the clock.
    pub fn validate_token_expiry(created_at_secs: u64) -> (r: Result<(), PairingClientError>)
        ensures
            exists|now: u64| r == expiry_check(created_at_secs, now),
    {
        let now = now_secs_u64();
        let r = Self::validate_token_expiry_at(created_at_secs, now);
        assert(r == expiry_check(created_at_secs, now));
        r
    }

    /// The first three octets of an IPv4 address (or of a three-octet
    /// prefix), joined by dots.
    pub fn extract_subnet_prefix(ip: &str) -> (r: Option<String>)
        ensures
            match subnet_prefix(ip@) {
                Some(p) => r matches Some(s) && s@ == p,
                None => r is None,
            },
    {
        let octets = split_all(&chars_of(ip), '.');
        if octets.len() < 3 {
            return None;
        }
        let mut k: usize = 0;
        while k < 3
            invariant
                k <= 3,
                octets@.len() >= 3,
                octets@.len() == split_seq(ip@, '.').len(),
                forall|j: int| 0 <= j < octets@.len() ==> #[trigger] octets@[j]@ == split_seq(ip@, '.')[j],
                forall|j: int| 0 <= j < k ==> octet_ok(#[trigger] octets@[j]@),
            decreases 3 - k,
        {
            let ghost o = split_seq(ip@, '.');
            assert(octets@[k as int]@ == o[k as int]);
            match parse_unsigned_bounded(&octets[k], 65535) {
                Some(v) => {
                    if v > 255 {
                        proof {
                            assert(!octet_ok(o[k as int]));
                            assert(k == 0 || k == 1 || k == 2);
                        }
                        return None;
                    }
                },
                None => {
                    proof {
                        assert(!octet_ok(o[k as int]));
                        assert(k == 0 || k == 1 || k == 2);
                    }
                    return None;
                },
            }
            k = k + 1;
        }
        let mut out: Vec<char> = Vec::new();
        push_chars(&mut out, &octets[0]);
        push_str(&mut out, ".");
        push_chars(&mut out, &octets[1]);
        push_str(&mut out, ".");
        push_chars(&mut out, &octets[2]);
        Some(string_from_chars(&out))
    }

    /// Checks that phone and desktop share the first three octets.
    pub fn verify_subnet(phone_ip: &str, desktop_subnet: &str) -> (r: Result<(), PairingClientError>)
        ensures
            match subnet_check(phone_ip@, desktop_subnet@) {
                Ok(()) => r is Ok,
                Err(c) => r matches Err(e) && subnet_error_matches(e, c),
            },
    {
        let phone_prefix = match Self::extract_subnet_prefix(phone_ip) {
            Some(p) => p,
            None => {
                let mut out: Vec<char> = Vec::new();
                push_str(&mut out, "Invalid phone IP: ");
                push_str(&mut out, phone_ip);
                return Err(PairingClientError::InvalidQrData(string_from_chars(&out)));
            },
        };
        let desktop_prefix = match Self::extract_subnet_prefix(desktop_subnet) {
            Some(p) => p,
            None => {
                let mut out: Vec<char> = Vec::new();
                push_str(&mut out, "Invalid desktop subnet: ");
                push_str(&mut out, desktop_subnet);
                return Err(PairingClientError::InvalidQrData(string_from_chars(&out)));
            },
        };
        if phone_prefix != desktop_prefix {
            return Err(PairingClientError::SubnetMismatch { phone: phone_prefix, desktop: desktop_prefix });
        }
        Ok(())
    }

    /// The handshake for a parsed QR code.
    pub fn build_handshake(&self, qr: &QrCodeData) -> (h: HandshakeMessage)
        ensures
            h.pairing_token == qr.token,
            h.phone_node_id == self.node_view(),
            h.capabilities == self.capabilities_view(),
    {
        HandshakeMessage {
            pairing_token: qr.token.clone(),
            phone_node_id: self.node_id,
            capabilities: copy_capabilities(&self.capabilities),
        }
    }

    /// Pairs from a QR payload at time `now_secs`: parse, check the token's
    /// age, check the subnet, build the handshake; the phone joins the
    /// network of the QR code as a locally owned node.
    pub fn pair_from_qr_at(&self, qr_data: &str, phone_ip: &str, now_secs: u64) -> (r: Result<PairingResult, PairingClientError>)
        ensures
            pairing_outcome(self.node_view(), qr_data@, phone_ip@, now_secs, r),
    {
        let qr = match Self::parse_qr_data(qr_data) {
            Ok(q) => q,
            Err(e) => {
                return Err(e);
            },
        };
        match Self::validate_token_expiry_at(qr.created_at_secs, now_secs) {
            Err(e) => {
                return Err(e);
            },
            Ok(()) => {},
        }
        match Self::verify_subnet(phone_ip, qr.desktop_subnet.as_str()) {
            Err(e) => {
                return Err(e);
            },
            Ok(()) => {},
        }
        let _handshake = self.build_handshake(&qr);
        Ok(
            PairingResult {
                network_id: qr.network_id,
                coordinator_addr: qr.coordinator_addr,
                assigned_node_id: self.node_id,
                trust_level: TrustLevel::LocalOwned,
            },
        )
    }

    /// Pairs from a QR payload, checking the token's age against the clock.
    pub fn pair_from_qr(&self, qr_data: &str, phone_ip: &str) -> (r: Result<PairingResult, PairingClientError>)
        ensures
            exists|now: u64| #[trigger] pairing_outcome(self.node_view(), qr_data@, phone_ip@, now, r),
    {
        let now = now_secs_u64();
        let r = self.pair_from_qr_at(qr_data, phone_ip, now);
        assert(pairing_outcome(self.node_view(), qr_data@, phone_ip@, now, r));
        r
    }

    /// Rejoins the mesh through the stored coordinator address, without a QR
    /// code; an empty address cannot be reached.
    pub fn reconnect(&self, coordinator_addr: &str) -> (r: Result<PairingResult, PairingClientError>)
        ensures
            coordinator_addr@.len() == 0 ==> r == Err::<PairingResult, PairingClientError>(
                PairingClientError::NetworkUnreachable,
            ),
            coordinator_addr@.len() > 0 ==> (r matches Ok(p) && p.coordinator_addr@ == coordinator_addr@
                && p.assigned_node_id == self.node_view() && p.trust_level == TrustLevel::LocalOwned),
    {
        let addr = chars_of(coordinator_addr);
        if addr.len() == 0 {
            return Err(PairingClientError::NetworkUnreachable);
        }
        Ok(
            PairingResult {
                network_id: new_uuid(),
                coordinator_addr: owned(coordinator_addr),
                assigned_node_id: self.node_id,
                trust_level: TrustLevel::LocalOwned,
            },
        )
    }
}

/// The characters held by an optional vector.
pub open spec fn opt_view(o: Option<Vec<char>>) -> Option<Seq<char>> {
    match o {
        Some(v) => Some(v@),
        None => None,
    }
}

} // verus!
