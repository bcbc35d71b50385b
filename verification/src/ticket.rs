//! The rendezvous ticket codec.
//!
//! A ticket is `p2psh:` followed by unpadded base64url of one
//! canonical JSON object `{node_id, relay_url, direct_addresses}`.
//! Before encoding, direct addresses that are useless to a remote
//! peer (loopback, link-local, container-bridge gateways) are
//! filtered out; decoding rejects a ticket that names neither a relay
//! nor a direct address that survives the same filter.  The round
//! trip is proved:
//! deserializing a serialized address gives back exactly its filtered
//! form.

use vstd::prelude::*;

use crate::errors::TransferError;
use crate::crypto::{hex_of, parse_hex_bytes, decode_hex, encode, lemma_parse_hex_bytes_of};
use crate::json::{json_string, parse_json_string_at, parse_u64_at, lit_at, emit_json_string,
    parse_json_string, parse_u64, expect_lit, push_lit, trim_spec, trim_chars, is_ws, skip_ws_exec,
    parse_member_key_exec, chars_eq_str, lemma_parse_member_key, lemma_skip_ws_stop,
    lemma_parse_json_string_at, lemma_parse_dec_at};
use crate::strings::{chars_of, string_of, utf8_bytes_of, string_from_utf8};
use crate::text::{dec_of, emit_u64, is_dec_digit};

verus! {

// ─── The address model ──────────────────────────────────────────────

/// An IP address held as plain values.
#[derive(Clone, Copy, Debug, PartialEq, Eq, Structural)]
pub enum IpAddress {
    /// An IPv4 address `a.b.c.d`.
    V4 { a: u8, b: u8, c: u8, d: u8 },
    /// An IPv6 address of eight 16-bit groups.
    V6 { s0: u16, s1: u16, s2: u16, s3: u16, s4: u16, s5: u16, s6: u16, s7: u16 },
}

/// A socket address: an IP address and a port.
#[derive(Clone, Copy, Debug, PartialEq, Eq, Structural)]
pub struct SocketAddress {
    pub ip: IpAddress,
    pub port: u16,
}

/// A peer's reachability: its node id, an optional relay URL, and its
/// direct socket addresses.
pub struct NodeAddress {
    /// The peer's public node identifier bytes.
    pub node_id: Vec<u8>,
    /// The home relay URL, if any.
    pub relay_url: Option<String>,
    /// Directly reachable socket addresses.
    pub direct_addresses: Vec<SocketAddress>,
}

/// The mathematical shadow of a [`NodeAddress`].
pub struct AddressModel {
    pub node_id: Seq<u8>,
    pub relay_url: Option<Seq<char>>,
    pub direct_addresses: Seq<SocketAddress>,
}

impl View for NodeAddress {
    type V = AddressModel;

    open spec fn view(&self) -> AddressModel {
        AddressModel {
            node_id: self.node_id@,
            relay_url: match self.relay_url {
                Some(u) => Some(u@),
                None => None,
            },
            direct_addresses: self.direct_addresses@,
        }
    }
}

// ─── The usefulness policy ──────────────────────────────────────────

/// Whether a local address is worth advertising to a remote peer:
/// IPv4 loopback (127/8), link-local (169.254/16) and the container
/// bridge heuristic 172.{16..31}.0.1 are not; IPv6 loopback (::1) and
/// link-local (fe80::/10) are not.
pub open spec fn useful_spec(sa: SocketAddress) -> bool {
    match sa.ip {
        IpAddress::V4 { a, b, c, d } => {
            &&& a != 127
            &&& !(a == 169 && b == 254)
            &&& !(a == 172 && 16 <= b <= 31 && c == 0 && d == 1)
        },
        IpAddress::V6 { s0, s1, s2, s3, s4, s5, s6, s7 } => {
            &&& !(s0 == 0 && s1 == 0 && s2 == 0 && s3 == 0 && s4 == 0 && s5 == 0 && s6 == 0 && s7
                == 1)
            &&& !(s0 & 0xffc0 == 0xfe80)
        },
    }
}

/// Heuristic to decide whether a local address is worth advertising
/// to a remote peer in the ticket.
pub fn is_useful_address(addr: &SocketAddress) -> (r: bool)
    ensures
        r == useful_spec(*addr),
{
    match addr.ip {
        IpAddress::V4 { a, b, c, d } => {
            if a == 127 {
                return false;
            }
            if a == 169 && b == 254 {
                return false;
            }
            if a == 172 && 16 <= b && b <= 31 && c == 0 && d == 1 {
                return false;
            }
            true
        },
        IpAddress::V6 { s0, s1, s2, s3, s4, s5, s6, s7 } => {
            if s0 == 0 && s1 == 0 && s2 == 0 && s3 == 0 && s4 == 0 && s5 == 0 && s6 == 0 && s7
                == 1 {
                return false;
            }
            if s0 & 0xffc0 == 0xfe80 {
                return false;
            }
            true
        },
    }
}

/// The model after filtering the direct addresses through the
/// usefulness policy.
pub open spec fn filter_model(m: AddressModel) -> AddressModel {
    AddressModel {
        node_id: m.node_id,
        relay_url: m.relay_url,
        direct_addresses: m.direct_addresses.filter(|sa: SocketAddress| useful_spec(sa)),
    }
}

/// A decoded ticket must name a relay or at least one direct address
/// (after filtering, when a ticket is judged).
pub open spec fn ticket_ok(m: AddressModel) -> bool {
    m.relay_url is Some || m.direct_addresses.len() > 0
}

/// A list with no useful address filters to nothing.
proof fn lemma_no_useful_filter_empty(s: Seq<SocketAddress>)
    requires
        forall|i: int| 0 <= i < s.len() ==> !useful_spec(#[trigger] s[i]),
    ensures
        s.filter(|sa: SocketAddress| useful_spec(sa)) == Seq::<SocketAddress>::empty(),
    decreases s.len(),
{
    reveal(Seq::filter);
    let p = |sa: SocketAddress| useful_spec(sa);
    if s.len() > 0 {
        assert forall|i: int| 0 <= i < s.drop_last().len() implies !useful_spec(
            #[trigger] s.drop_last()[i],
        ) by {
            assert(s.drop_last()[i] == s[i]);
        }
        lemma_no_useful_filter_empty(s.drop_last());
        assert(!p(s.last()));
        assert(s.filter(p) =~= Seq::<SocketAddress>::empty());
    } else {
        assert(s.filter(p) =~= Seq::<SocketAddress>::empty());
    }
}

/// A list of only useful addresses filters to itself.
proof fn lemma_all_useful_filter_id(s: Seq<SocketAddress>)
    requires
        forall|i: int| 0 <= i < s.len() ==> useful_spec(#[trigger] s[i]),
    ensures
        s.filter(|sa: SocketAddress| useful_spec(sa)) == s,
    decreases s.len(),
{
    reveal(Seq::filter);
    let p = |sa: SocketAddress| useful_spec(sa);
    if s.len() > 0 {
        assert forall|i: int| 0 <= i < s.drop_last().len() implies useful_spec(
            #[trigger] s.drop_last()[i],
        ) by {
            assert(s.drop_last()[i] == s[i]);
        }
        lemma_all_useful_filter_id(s.drop_last());
        assert(p(s.last()));
        assert(s.filter(p) =~= s);
    } else {
        assert(s.filter(p) =~= s);
    }
}

/// Filtering is idempotent: a filtered model passes the filter
/// unchanged.
pub proof fn lemma_filter_model_idempotent(m: AddressModel)
    ensures
        filter_model(filter_model(m)) == filter_model(m),
{
    let p = |sa: SocketAddress| useful_spec(sa);
    let f = m.direct_addresses.filter(p);
    assert forall|i: int| 0 <= i < f.len() implies useful_spec(#[trigger] f[i]) by {
        m.direct_addresses.lemma_filter_pred(p, i);
    }
    lemma_all_useful_filter_id(f);
}

/// Whether any direct address survives the usefulness filter.
fn has_useful_address(addrs: &Vec<SocketAddress>) -> (r: bool)
    ensures
        r == (addrs@.filter(|sa: SocketAddress| useful_spec(sa)).len() > 0),
{
    let mut i: usize = 0;
    while i < addrs.len()
        invariant
            i <= addrs@.len(),
            forall|j: int| 0 <= j < i ==> !useful_spec(#[trigger] addrs@[j]),
        decreases addrs@.len() - i,
    {
        let sa = addrs[i];
        if is_useful_address(&sa) {
            proof {
                let p = |sa: SocketAddress| useful_spec(sa);
                assert(p(addrs@[i as int]));
                addrs@.lemma_filter_contains(p, i as int);
            }
            return true;
        }
        i = i + 1;
    }
    proof {
        lemma_no_useful_filter_empty(addrs@);
    }
    false
}

/// Build a new `NodeAddress` keeping only addresses that are useful
/// to a remote peer.
pub fn filter_node_addr(addr: &NodeAddress) -> (r: NodeAddress)
    ensures
        r@ == filter_model(addr@),
{
    let mut useful: Vec<SocketAddress> = Vec::new();
    let mut i: usize = 0;
    let ghost all = addr.direct_addresses@;
    while i < addr.direct_addresses.len()
        invariant
            i <= all.len(),
            all == addr.direct_addresses@,
            useful@ == all.take(i as int).filter(|sa: SocketAddress| useful_spec(sa)),
        decreases all.len() - i,
    {
        let sa = addr.direct_addresses[i];
        proof {
            assert(all.take(i as int + 1).drop_last() =~= all.take(i as int));
            assert(all.take(i as int + 1).last() == all[i as int]);
            broadcast use vstd::seq_lib::group_seq_properties;
        }
        if is_useful_address(&sa) {
            useful.push(sa);
        }
        proof {
            reveal(Seq::filter);
            let p = |x: SocketAddress| useful_spec(x);
            assert(all.take(i as int + 1).filter(p) == if p(all[i as int]) {
                all.take(i as int).filter(p).push(all[i as int])
            } else {
                all.take(i as int).filter(p)
            });
        }
        i = i + 1;
    }
    proof {
        assert(all.take(all.len() as int) =~= all);
    }
    NodeAddress {
        node_id: clone_bytes(&addr.node_id),
        relay_url: match &addr.relay_url {
            Some(u) => Some(clone_string(u)),
            None => None,
        },
        direct_addresses: useful,
    }
}

/// A copy of a byte vector.
fn clone_bytes(v: &Vec<u8>) -> (r: Vec<u8>)
    ensures
        r@ == v@,
{
    let mut out: Vec<u8> = Vec::new();
    let mut i: usize = 0;
    while i < v.len()
        invariant
            i <= v@.len(),
            out@ =~= v@.take(i as int),
        decreases v@.len() - i,
    {
        out.push(v[i]);
        proof {
            assert(v@.take(i as int + 1) =~= v@.take(i as int) + seq![v@[i as int]]);
        }
        i = i + 1;
    }
    proof {
        assert(v@.take(v@.len() as int) =~= v@);
    }
    out
}

/// A copy of a string.
fn clone_string(s: &String) -> (r: String)
    ensures
        r@ == s@,
{
    string_of(&chars_of(s.as_str()))
}

// ─── Text of one socket address ─────────────────────────────────────

/// The sixteen bytes of an IPv6 address, big endian within each
/// group.
pub open spec fn v6_bytes(ip: IpAddress) -> Seq<u8>
    recommends
        ip is V6,
{
    match ip {
        IpAddress::V4 { .. } => Seq::empty(),
        IpAddress::V6 { s0, s1, s2, s3, s4, s5, s6, s7 } => seq![
            (s0 / 256) as u8,
            (s0 % 256) as u8,
            (s1 / 256) as u8,
            (s1 % 256) as u8,
            (s2 / 256) as u8,
            (s2 % 256) as u8,
            (s3 / 256) as u8,
            (s3 % 256) as u8,
            (s4 / 256) as u8,
            (s4 % 256) as u8,
            (s5 / 256) as u8,
            (s5 % 256) as u8,
            (s6 / 256) as u8,
            (s6 % 256) as u8,
            (s7 / 256) as u8,
            (s7 % 256) as u8,
        ],
    }
}

/// The canonical text of a socket address: `a.b.c.d:port` for IPv4;
/// for IPv6, the sixteen address bytes as 32 fixed-width hex digits,
/// bracketed: `[00000000000000000000000000000001]:port`.
pub open spec fn sockaddr_text(sa: SocketAddress) -> Seq<char> {
    match sa.ip {
        IpAddress::V4 { a, b, c, d } => dec_of(a as nat) + "."@ + dec_of(b as nat) + "."@ + dec_of(
            c as nat,
        ) + "."@ + dec_of(d as nat) + ":"@ + dec_of(sa.port as nat),
        IpAddress::V6 { .. } => "["@ + hex_of(v6_bytes(sa.ip)) + "]:"@ + dec_of(sa.port as nat),
    }
}

/// Emits the canonical text of a socket address.
pub fn emit_sockaddr(out: &mut Vec<char>, sa: &SocketAddress)
    ensures
        final(out)@ == old(out)@ + sockaddr_text(*sa),
{
    match sa.ip {
        IpAddress::V4 { a, b, c, d } => {
            emit_u64(out, a as u64);
            push_lit(out, ".");
            emit_u64(out, b as u64);
            push_lit(out, ".");
            emit_u64(out, c as u64);
            push_lit(out, ".");
            emit_u64(out, d as u64);
            push_lit(out, ":");
            emit_u64(out, sa.port as u64);
            proof {
                assert(out@ =~= old(out)@ + sockaddr_text(*sa));
            }
        },
        IpAddress::V6 { s0, s1, s2, s3, s4, s5, s6, s7 } => {
            push_lit(out, "[");
            let mut bytes: Vec<u8> = Vec::new();
            bytes.push((s0 / 256) as u8);
            bytes.push((s0 % 256) as u8);
            bytes.push((s1 / 256) as u8);
            bytes.push((s1 % 256) as u8);
            bytes.push((s2 / 256) as u8);
            bytes.push((s2 % 256) as u8);
            bytes.push((s3 / 256) as u8);
            bytes.push((s3 % 256) as u8);
            bytes.push((s4 / 256) as u8);
            bytes.push((s4 % 256) as u8);
            bytes.push((s5 / 256) as u8);
            bytes.push((s5 % 256) as u8);
            bytes.push((s6 / 256) as u8);
            bytes.push((s6 % 256) as u8);
            bytes.push((s7 / 256) as u8);
            bytes.push((s7 % 256) as u8);
            proof {
                assert(bytes@ =~= v6_bytes(sa.ip));
            }
            let hex = crate::strings::chars_of(encode(bytes.as_slice()).as_str());
            let mut k: usize = 0;
            let ghost mid = out@;
            while k < hex.len()
                invariant
                    k <= hex@.len(),
                    out@ =~= mid + hex@.take(k as int),
                decreases hex@.len() - k,
            {
                out.push(hex[k]);
                proof {
                    assert(hex@.take(k as int + 1) =~= hex@.take(k as int) + seq![hex@[k as int]]);
                }
                k = k + 1;
            }
            proof {
                assert(hex@.take(hex@.len() as int) =~= hex@);
            }
            push_lit(out, "]:");
            emit_u64(out, sa.port as u64);
            proof {
                assert(out@ =~= old(out)@ + sockaddr_text(*sa));
            }
        },
    }
}

/// Parses the canonical text of a socket address, whole.
pub open spec fn parse_sockaddr_text(t: Seq<char>) -> Option<SocketAddress> {
    if t.len() > 0 && t[0] == '[' {
        parse_v6_text(t)
    } else {
        parse_v4_text(t)
    }
}

/// Parses one `u8` decimal component followed by a given separator.
pub open spec fn parse_u8_sep(t: Seq<char>, i: int, sep: Seq<char>) -> Option<(u8, int)> {
    match parse_u64_at(t, i) {
        Some((x, j)) => if x <= 255 && lit_at(t, j, sep) {
            Some((x as u8, j + sep.len()))
        } else {
            None
        },
        None => None,
    }
}

pub open spec fn parse_v4_text(t: Seq<char>) -> Option<SocketAddress> {
    match parse_u8_sep(t, 0, "."@) {
        Some((a, i1)) => match parse_u8_sep(t, i1, "."@) {
            Some((b, i2)) => match parse_u8_sep(t, i2, "."@) {
                Some((c, i3)) => match parse_u8_sep(t, i3, ":"@) {
                    Some((d, i4)) => match parse_u64_at(t, i4) {
                        Some((p, e)) => if p <= 65535 && e == t.len() {
                            Some(
                                SocketAddress {
                                    ip: IpAddress::V4 { a, b, c, d },
                                    port: p as u16,
                                },
                            )
                        } else {
                            None
                        },
                        None => None,
                    },
                    None => None,
                },
                None => None,
            },
            None => None,
        },
        None => None,
    }
}

pub open spec fn parse_v6_text(t: Seq<char>) -> Option<SocketAddress> {
    if t.len() >= 35 && lit_at(t, 0, "["@) && lit_at(t, 33, "]:"@) {
        match parse_hex_bytes(t.subrange(1, 33)) {
            Some(b) => if b.len() == 16 {
                match parse_u64_at(t, 35) {
                    Some((p, e)) => if p <= 65535 && e == t.len() {
                        Some(SocketAddress { ip: groups_of_bytes(b), port: p as u16 })
                    } else {
                        None
                    },
                    None => None,
                }
            } else {
                None
            },
            None => None,
        }
    } else {
        None
    }
}

/// Sixteen bytes back into eight big-endian groups.
pub open spec fn groups_of_bytes(b: Seq<u8>) -> IpAddress
    recommends
        b.len() == 16,
{
    IpAddress::V6 {
        s0: ((b[0] as int) * 256 + (b[1] as int)) as u16,
        s1: ((b[2] as int) * 256 + (b[3] as int)) as u16,
        s2: ((b[4] as int) * 256 + (b[5] as int)) as u16,
        s3: ((b[6] as int) * 256 + (b[7] as int)) as u16,
        s4: ((b[8] as int) * 256 + (b[9] as int)) as u16,
        s5: ((b[10] as int) * 256 + (b[11] as int)) as u16,
        s6: ((b[12] as int) * 256 + (b[13] as int)) as u16,
        s7: ((b[14] as int) * 256 + (b[15] as int)) as u16,
    }
}

/// The hex text of a byte string is two characters a byte.
pub proof fn lemma_hex_of_len(b: Seq<u8>)
    ensures
        hex_of(b).len() == 2 * b.len(),
    decreases b.len(),
{
    if b.len() > 0 {
        lemma_hex_of_len(b.drop_first());
    }
}

/// Exec parser for one `u8` decimal component plus separator.
fn parse_u8_sep_exec(t: &Vec<char>, i: usize, sep: &str) -> (r: Option<(u8, usize)>)
    requires
        i <= t@.len(),
    ensures
        match r {
            Some((x, e)) => parse_u8_sep(t@, i as int, sep@) == Some((x, e as int)) && i < e
                <= t@.len(),
            None => parse_u8_sep(t@, i as int, sep@) is None,
        },
{
    let (x, j) = match parse_u64(t, i) {
        Some(p) => p,
        None => {
            return None;
        },
    };
    if x > 255 {
        return None;
    }
    match expect_lit(t, j, sep) {
        Some(e) => Some((x as u8, e)),
        None => None,
    }
}

/// Exec parser for the canonical socket-address text; behaves exactly
/// as [`parse_sockaddr_text`].
pub fn parse_sockaddr(t: &Vec<char>) -> (r: Option<SocketAddress>)
    ensures
        match r {
            Some(sa) => parse_sockaddr_text(t@) == Some(sa),
            None => parse_sockaddr_text(t@) is None,
        },
{
    if t.len() > 0 && t[0] == '[' {
        proof {
            reveal_strlit("[");
            reveal_strlit("]:");
            if t@.len() >= 35 {
                assert(t@.subrange(0, 1) =~= "["@);
                assert(lit_at(t@, 0, "["@));
            }
        }
        if t.len() < 35 {
            return None;
        }
        if t[33] != ']' || t[34] != ':' {
            proof {
                assert(!lit_at(t@, 33, "]:"@)) by {
                    if lit_at(t@, 33, "]:"@) {
                        assert(t@.subrange(33, 35)[0] == t@[33]);
                        assert(t@.subrange(33, 35)[1] == t@[34]);
                    }
                }
            }
            return None;
        }
        proof {
            assert(t@.subrange(33, 35) =~= "]:"@);
            assert(lit_at(t@, 33, "]:"@));
        }
        let mut hexpart: Vec<char> = Vec::new();
        let mut k: usize = 1;
        while k < 33
            invariant
                1 <= k <= 33,
                t@.len() >= 35,
                hexpart@ =~= t@.subrange(1, k as int),
            decreases 33 - k,
        {
            hexpart.push(t[k]);
            proof {
                assert(t@.subrange(1, k as int + 1) =~= t@.subrange(1, k as int) + seq![
                    t@[k as int],
                ]);
            }
            k = k + 1;
        }
        let b = match decode_hex(&hexpart) {
            Some(b) => b,
            None => {
                return None;
            },
        };
        if b.len() != 16 {
            return None;
        }
        let (p, e) = match parse_u64(t, 35) {
            Some(p) => p,
            None => {
                return None;
            },
        };
        if p > 65535 || e != t.len() {
            return None;
        }
        let ip = IpAddress::V6 {
            s0: (b[0] as u16) * 256 + (b[1] as u16),
            s1: (b[2] as u16) * 256 + (b[3] as u16),
            s2: (b[4] as u16) * 256 + (b[5] as u16),
            s3: (b[6] as u16) * 256 + (b[7] as u16),
            s4: (b[8] as u16) * 256 + (b[9] as u16),
            s5: (b[10] as u16) * 256 + (b[11] as u16),
            s6: (b[12] as u16) * 256 + (b[13] as u16),
            s7: (b[14] as u16) * 256 + (b[15] as u16),
        };
        proof {
            assert(ip == groups_of_bytes(b@));
        }
        Some(SocketAddress { ip, port: p as u16 })
    } else {
        let (a, i1) = match parse_u8_sep_exec(t, 0, ".") {
            Some(p) => p,
            None => {
                return None;
            },
        };
        let (b, i2) = match parse_u8_sep_exec(t, i1, ".") {
            Some(p) => p,
            None => {
                return None;
            },
        };
        let (c, i3) = match parse_u8_sep_exec(t, i2, ".") {
            Some(p) => p,
            None => {
                return None;
            },
        };
        let (d, i4) = match parse_u8_sep_exec(t, i3, ":") {
            Some(p) => p,
            None => {
                return None;
            },
        };
        let (p, e) = match parse_u64(t, i4) {
            Some(p) => p,
            None => {
                return None;
            },
        };
        if p > 65535 || e != t.len() {
            return None;
        }
        Some(SocketAddress { ip: IpAddress::V4 { a, b, c, d }, port: p as u16 })
    }
}

/// The canonical socket-address text always parses back to the
/// address.
#[verifier::rlimit(80)]
pub proof fn lemma_sockaddr_round_trip(sa: SocketAddress)
    ensures
        parse_sockaddr_text(sockaddr_text(sa)) == Some(sa),
{
    reveal_strlit(".");
    reveal_strlit(":");
    reveal_strlit("[");
    reveal_strlit("]:");
    let t = sockaddr_text(sa);
    match sa.ip {
        IpAddress::V4 { a, b, c, d } => {
            let da = dec_of(a as nat);
            let db = dec_of(b as nat);
            let dc = dec_of(c as nat);
            let dd = dec_of(d as nat);
            let dp = dec_of(sa.port as nat);
            crate::text::lemma_dec_of_digits(a as nat);
            let o1 = da.len() as int;
            let o2 = o1 + 1 + db.len();
            let o3 = o2 + 1 + dc.len();
            let o4 = o3 + 1 + dd.len();
            assert(t.len() == o4 + 1 + dp.len());
            assert(t[0] == da[0]);
            assert(t[0] != '[');
            assert(t.subrange(0, o1) =~= da);
            assert(t[o1] == '.');
            assert(t.subrange(o1, o1 + 1) =~= "."@);
            lemma_parse_dec_at(t, 0, a as u64);
            assert(lit_at(t, o1, "."@));
            assert(t.subrange(o1 + 1, o2) =~= db);
            assert(t[o2] == '.');
            assert(t.subrange(o2, o2 + 1) =~= "."@);
            lemma_parse_dec_at(t, o1 + 1, b as u64);
            assert(lit_at(t, o2, "."@));
            assert(t.subrange(o2 + 1, o3) =~= dc);
            assert(t[o3] == '.');
            assert(t.subrange(o3, o3 + 1) =~= "."@);
            lemma_parse_dec_at(t, o2 + 1, c as u64);
            assert(lit_at(t, o3, "."@));
            assert(t.subrange(o3 + 1, o4) =~= dd);
            assert(t[o4] == ':');
            assert(t.subrange(o4, o4 + 1) =~= ":"@);
            lemma_parse_dec_at(t, o3 + 1, d as u64);
            assert(lit_at(t, o4, ":"@));
            assert(t.subrange(o4 + 1, t.len() as int) =~= dp);
            lemma_parse_dec_at(t, o4 + 1, sa.port as u64);
        },
        IpAddress::V6 { s0, s1, s2, s3, s4, s5, s6, s7 } => {
            let bytes = v6_bytes(sa.ip);
            let hx = hex_of(bytes);
            lemma_hex_of_len(bytes);
            let dp = dec_of(sa.port as nat);
            assert(t.len() == 35 + dp.len());
            assert(t[0] == '[');
            assert(t.subrange(0, 1) =~= "["@);
            assert(lit_at(t, 0, "["@));
            assert(t.subrange(33, 35) =~= "]:"@);
            assert(lit_at(t, 33, "]:"@));
            assert(t.subrange(1, 33) =~= hx);
            lemma_parse_hex_bytes_of(bytes);
            assert(t.subrange(35, t.len() as int) =~= dp);
            lemma_parse_dec_at(t, 35, sa.port as u64);
            assert(groups_of_bytes(bytes) == sa.ip) by {
                assert((s0 / 256) * 256 + s0 % 256 == s0) by (nonlinear_arith);
                assert((s1 / 256) * 256 + s1 % 256 == s1) by (nonlinear_arith);
                assert((s2 / 256) * 256 + s2 % 256 == s2) by (nonlinear_arith);
                assert((s3 / 256) * 256 + s3 % 256 == s3) by (nonlinear_arith);
                assert((s4 / 256) * 256 + s4 % 256 == s4) by (nonlinear_arith);
                assert((s5 / 256) * 256 + s5 % 256 == s5) by (nonlinear_arith);
                assert((s6 / 256) * 256 + s6 % 256 == s6) by (nonlinear_arith);
                assert((s7 / 256) * 256 + s7 % 256 == s7) by (nonlinear_arith);
            }
        },
    }
}

// ─── The ticket object ──────────────────────────────────────────────

/// The canonical text of the relay field: `null` or a JSON string.
pub open spec fn relay_text(r: Option<Seq<char>>) -> Seq<char> {
    match r {
        None => "null"@,
        Some(u) => json_string(u),
    }
}

/// The canonical text of the address list (without its brackets).
pub open spec fn addrs_text(l: Seq<SocketAddress>) -> Seq<char>
    decreases l.len(),
{
    if l.len() == 0 {
        Seq::empty()
    } else if l.len() == 1 {
        json_string(sockaddr_text(l[0]))
    } else {
        json_string(sockaddr_text(l[0])) + ","@ + addrs_text(l.drop_first())
    }
}

/// Appending one address extends the list text by a comma (unless it
/// is the first) and the new element.
pub proof fn lemma_addrs_text_push(l: Seq<SocketAddress>, e: SocketAddress)
    ensures
        addrs_text(l.push(e)) == if l.len() == 0 {
            json_string(sockaddr_text(e))
        } else {
            addrs_text(l) + ","@ + addrs_text(seq![e])
        },
    decreases l.len(),
{
    let g = l.push(e);
    if l.len() == 0 {
        assert(g.len() == 1 && g[0] == e);
    } else {
        lemma_addrs_text_push(l.drop_first(), e);
        assert(g.drop_first() =~= l.drop_first().push(e));
        assert(g[0] == l[0]);
        assert(addrs_text(seq![e]) == json_string(sockaddr_text(e)));
        if l.len() == 1 {
            assert(l.drop_first().len() == 0);
            assert(addrs_text(g) =~= addrs_text(l) + ","@ + addrs_text(seq![e]));
        } else {
            assert(addrs_text(g) =~= addrs_text(l) + ","@ + addrs_text(seq![e]));
        }
    }
}

/// The canonical JSON object of a node address.
pub open spec fn node_addr_json(m: AddressModel) -> Seq<char> {
    "{"@ + json_string("node_id"@) + ":"@ + json_string(hex_of(m.node_id)) + ","@ + json_string(
        "relay_url"@,
    ) + ":"@ + relay_text(m.relay_url) + ","@ + json_string("direct_addresses"@) + ":["@
        + addrs_text(m.direct_addresses) + "]}"@
}

/// The canonical literal chunks split into separator, quoted key and
/// colon.
proof fn lemma_addr_key_chunks()
    ensures
        "{\"node_id\":"@ == "{"@ + json_string("node_id"@) + ":"@,
        ",\"relay_url\":"@ == ","@ + json_string("relay_url"@) + ":"@,
        ",\"direct_addresses\":["@ == ","@ + json_string("direct_addresses"@) + ":["@,
        json_string("node_id"@).len() == 9,
        json_string("relay_url"@).len() == 11,
        json_string("direct_addresses"@).len() == 18,
{
    reveal_strlit("{\"node_id\":");
    reveal_strlit(",\"relay_url\":");
    reveal_strlit(",\"direct_addresses\":[");
    reveal_strlit("{");
    reveal_strlit(":");
    reveal_strlit(",");
    reveal_strlit(":[");
    reveal_strlit("node_id");
    reveal_strlit("relay_url");
    reveal_strlit("direct_addresses");
    crate::json::lemma_escape_str_plain("node_id"@);
    crate::json::lemma_escape_str_plain("relay_url"@);
    crate::json::lemma_escape_str_plain("direct_addresses"@);
    assert("{\"node_id\":"@ =~= "{"@ + json_string("node_id"@) + ":"@);
    assert(",\"relay_url\":"@ =~= ","@ + json_string("relay_url"@) + ":"@);
    assert(",\"direct_addresses\":["@ =~= ","@ + json_string("direct_addresses"@) + ":["@);
}

/// The whole ticket text of a model.
pub open spec fn ticket_text(m: AddressModel) -> Seq<char> {
    "p2psh:"@ + b64_of(vstd::utf8::encode_utf8(node_addr_json(m)))
}

// ─── base64url (unpadded) ───────────────────────────────────────────

/// The unpadded base64url text of a byte string: a function of the
/// bytes alone.
pub uninterp spec fn b64_of(bytes: Seq<u8>) -> Seq<char>;

/// Relies on `data_encoding::BASE64URL_NOPAD.encode`: unpadded
/// base64url text of the input bytes, drawn from the `A-Za-z0-9-_`
/// alphabet.
#[verifier::external_body]
fn b64_encode(bytes: &Vec<u8>) -> (r: String)
    ensures
        r@ == b64_of(bytes@) && (forall|i: int|
            0 <= i < r@.len() ==> crate::text::is_base64url_char(#[trigger] r@[i])),
{
    data_encoding::BASE64URL_NOPAD.encode(bytes)
}

/// Relies on `data_encoding::BASE64URL_NOPAD.decode`: this canonical
/// encoding's decoder accepts exactly the encoder's outputs and
/// inverts it.
#[verifier::external_body]
fn b64_decode(text: &str) -> (r: Result<Vec<u8>, TransferError>)
    ensures
        match r {
            Ok(b) => text@ == b64_of(b@) && (forall|c: Seq<u8>|
                text@ == #[trigger] b64_of(c) ==> c == b@),
            Err(e) => e == TransferError::BadTicket && (forall|c: Seq<u8>|
                text@ != #[trigger] b64_of(c)),
        },
{
    data_encoding::BASE64URL_NOPAD.decode(text.as_bytes()).map_err(|_| TransferError::BadTicket)
}

// ─── Serialize ──────────────────────────────────────────────────────

/// Serialize a node address into a compact, copy-pasteable ticket
/// string, filtering out addresses that are useless to a remote
/// peer.
pub fn serialize(addr: &NodeAddress) -> (r: Result<String, TransferError>)
    ensures
        r matches Ok(t) && t@ == ticket_text(filter_model(addr@)),
{
    let filtered = filter_node_addr(addr);
    let mut out: Vec<char> = Vec::new();
    push_lit(&mut out, "{\"node_id\":");
    let hex = chars_of(encode(filtered.node_id.as_slice()).as_str());
    emit_json_string(&mut out, &hex);
    push_lit(&mut out, ",\"relay_url\":");
    match &filtered.relay_url {
        None => push_lit(&mut out, "null"),
        Some(u) => {
            let uc = chars_of(u.as_str());
            emit_json_string(&mut out, &uc);
        },
    }
    push_lit(&mut out, ",\"direct_addresses\":[");
    let mut i: usize = 0;
    let ghost addrs = filtered.direct_addresses@;
    let ghost mid = out@;
    while i < filtered.direct_addresses.len()
        invariant
            i <= addrs.len(),
            addrs == filtered.direct_addresses@,
            out@ == mid + addrs_text(addrs.take(i as int)),
        decreases addrs.len() - i,
    {
        if i > 0 {
            push_lit(&mut out, ",");
        }
        let mut item: Vec<char> = Vec::new();
        emit_sockaddr(&mut item, &filtered.direct_addresses[i]);
        emit_json_string(&mut out, &item);
        proof {
            let pre = addrs.take(i as int);
            assert(addrs.take(i as int + 1) =~= pre.push(addrs[i as int]));
            lemma_addrs_text_push(pre, addrs[i as int]);
            assert(addrs_text(seq![addrs[i as int]]) == json_string(
                sockaddr_text(addrs[i as int]),
            ));
            assert(out@ =~= mid + addrs_text(addrs.take(i as int + 1)));
        }
        i = i + 1;
    }
    proof {
        assert(addrs.take(addrs.len() as int) =~= addrs);
    }
    push_lit(&mut out, "]}");
    proof {
        lemma_addr_key_chunks();
        assert(out@ =~= node_addr_json(filter_model(addr@)));
    }
    let json = string_of(&out);
    let bytes = utf8_bytes_of(json.as_str());
    let b64 = b64_encode(&bytes);
    let mut ticket: Vec<char> = Vec::new();
    push_lit(&mut ticket, "p2psh:");
    let b64c = chars_of(b64.as_str());
    let mut k: usize = 0;
    let ghost tpre = ticket@;
    while k < b64c.len()
        invariant
            k <= b64c@.len(),
            ticket@ =~= tpre + b64c@.take(k as int),
        decreases b64c@.len() - k,
    {
        ticket.push(b64c[k]);
        proof {
            assert(b64c@.take(k as int + 1) =~= b64c@.take(k as int) + seq![b64c@[k as int]]);
        }
        k = k + 1;
    }
    proof {
        assert(b64c@.take(b64c@.len() as int) =~= b64c@);
        assert(ticket@ =~= ticket_text(filter_model(addr@)));
    }
    Ok(string_of(&ticket))
}

// ─── Parse ──────────────────────────────────────────────────────────

/// Parses the non-empty element list of the address array, including
/// the closing bracket.
pub open spec fn parse_elems(s: Seq<char>, i: int) -> Option<(Seq<SocketAddress>, int)>
    decreases s.len() - i,
{
    match parse_json_string_at(s, i) {
        Some((t, j)) => if !(i < j < s.len()) {
            None
        } else {
            match parse_sockaddr_text(t) {
                Some(sa) => if s[j] == ',' {
                    match parse_elems(s, j + 1) {
                        Some((l, e)) => Some((seq![sa] + l, e)),
                        None => None,
                    }
                } else if s[j] == ']' {
                    Some((seq![sa], j + 1))
                } else {
                    None
                },
                None => None,
            }
        },
        None => None,
    }
}

/// Parses the address array after its opening bracket, including the
/// closing one.
pub open spec fn parse_addr_list(s: Seq<char>, i: int) -> Option<(Seq<SocketAddress>, int)> {
    if 0 <= i < s.len() && s[i] == ']' {
        Some((Seq::empty(), i + 1))
    } else {
        parse_elems(s, i)
    }
}

/// Parses the members of a node-address object, starting right after
/// the opening brace, with the fields gathered so far: the three
/// fields may come in any order, each exactly once, with whitespace
/// allowed around keys, colons, values and separators.
pub open spec fn parse_addr_fields(
    s: Seq<char>,
    i: int,
    nid: Option<Seq<u8>>,
    relay: Option<Option<Seq<char>>>,
    directs: Option<Seq<SocketAddress>>,
) -> Option<(AddressModel, int)>
    decreases s.len() - i,
{
    match crate::json::parse_member_key(s, i) {
        Some((key, j)) => {
            let stepped: Option<
                (Option<Seq<u8>>, Option<Option<Seq<char>>>, Option<Seq<SocketAddress>>, int),
            > = if key == "node_id"@ && nid is None {
                match parse_json_string_at(s, j) {
                    Some((hx, k)) => match parse_hex_bytes(hx) {
                        Some(b) => Some((Some(b), relay, directs, k)),
                        None => None,
                    },
                    None => None,
                }
            } else if key == "relay_url"@ && relay is None {
                if lit_at(s, j, "null"@) {
                    Some((nid, Some(None), directs, j + 4))
                } else {
                    match parse_json_string_at(s, j) {
                        Some((u, k)) => Some((nid, Some(Some(u)), directs, k)),
                        None => None,
                    }
                }
            } else if key == "direct_addresses"@ && directs is None {
                if j < s.len() && s[j] == '[' {
                    match parse_addr_list(s, j + 1) {
                        Some((l, k)) => Some((nid, relay, Some(l), k)),
                        None => None,
                    }
                } else {
                    None
                }
            } else {
                None
            };
            match stepped {
                Some((n2, r2, d2, k)) => {
                    let k1 = crate::json::skip_ws(s, k);
                    if k1 < s.len() && s[k1] == ',' && i < k1 + 1 {
                        parse_addr_fields(s, k1 + 1, n2, r2, d2)
                    } else if k1 < s.len() && s[k1] == '}' {
                        match (n2, r2, d2) {
                            (Some(nb), Some(r), Some(dl)) => Some(
                                (
                                    AddressModel {
                                        node_id: nb,
                                        relay_url: r,
                                        direct_addresses: dl,
                                    },
                                    k1 + 1,
                                ),
                            ),
                            _ => None,
                        }
                    } else {
                        None
                    }
                },
                None => None,
            }
        },
        None => None,
    }
}

/// Parses a node-address object, whole: a JSON object holding
/// exactly the fields `node_id` (hex string), `relay_url` (string or
/// null) and `direct_addresses` (array of address strings), in any
/// order.
pub open spec fn parse_node_addr_text(s: Seq<char>) -> Option<AddressModel> {
    if s.len() > 0 && s[0] == '{' {
        match parse_addr_fields(s, 1, None, None, None) {
            Some((m, e)) => if e == s.len() {
                Some(m)
            } else {
                None
            },
            None => None,
        }
    } else {
        None
    }
}

/// The emitted element list followed by `]` parses back to the list.
#[verifier::rlimit(100)]
pub proof fn lemma_parse_elems(s: Seq<char>, i: int, l: Seq<SocketAddress>)
    requires
        l.len() > 0,
        0 <= i,
        i + addrs_text(l).len() < s.len(),
        s.subrange(i, i + addrs_text(l).len() as int) == addrs_text(l),
        s[i + addrs_text(l).len()] == ']',
    ensures
        parse_elems(s, i) == Some((l, i + addrs_text(l).len() + 1 as int)),
    decreases l.len(),
{
    reveal_strlit(",");
    let a = addrs_text(l);
    let q = json_string(sockaddr_text(l[0]));
    assert(s.subrange(i, i + q.len() as int) =~= q) by {
        assert forall|x: int| 0 <= x < q.len() implies s.subrange(i, i + q.len() as int)[x] == q[x]
            by {
            assert(s[i + x] == a[x]);
        }
    }
    lemma_parse_json_string_at(s, i, sockaddr_text(l[0]));
    lemma_sockaddr_round_trip(l[0]);
    let j = i + q.len() as int;
    if l.len() == 1 {
        assert(a == q);
        assert(s[j] == ']');
        assert(seq![l[0]] =~= l);
    } else {
        let l1 = l.drop_first();
        let a1 = addrs_text(l1);
        assert(a == q + ","@ + a1);
        assert(s[j] == a[q.len() as int]);
        assert(a[q.len() as int] == ',');
        assert(s.subrange(j + 1, j + 1 + a1.len() as int) =~= a1) by {
            assert forall|x: int| 0 <= x < a1.len() implies s.subrange(
                j + 1,
                j + 1 + a1.len() as int,
            )[x] == a1[x] by {
                assert(s[j + 1 + x] == a[q.len() + 1 + x]);
            }
        }
        assert(s[j + 1 + a1.len()] == ']');
        lemma_parse_elems(s, j + 1, l1);
        assert(seq![l[0]] + l1 =~= l);
    }
}

/// The canonical node-address object always parses back to its
/// model.
pub proof fn lemma_node_addr_round_trip(m: AddressModel)
    ensures
        parse_node_addr_text(node_addr_json(m)) == Some(m),
{
    match m.relay_url {
        None => lemma_node_addr_round_trip_no_relay(m),
        Some(u) => lemma_node_addr_round_trip_with_relay(m),
    }
}

#[verifier::rlimit(100)]
proof fn lemma_node_addr_round_trip_no_relay(m: AddressModel)
    requires
        m.relay_url is None,
    ensures
        parse_node_addr_text(node_addr_json(m)) == Some(m),
{
    reveal_strlit("{");
    reveal_strlit(":");
    reveal_strlit(",");
    reveal_strlit(":[");
    reveal_strlit("]}");
    reveal_strlit("null");
    lemma_addr_key_chunks();
    let qk1 = json_string("node_id"@);
    let qk2 = json_string("relay_url"@);
    let qk3 = json_string("direct_addresses"@);
    let qid = json_string(hex_of(m.node_id));
    let rl = relay_text(m.relay_url);
    let a = addrs_text(m.direct_addresses);
    let s = node_addr_json(m);
    let b1 = 1int;
    let b2 = b1 + qk1.len();
    let b3 = b2 + 1;
    let b4 = b3 + qid.len();
    let b5 = b4 + 1;
    let b6 = b5 + qk2.len();
    let b7 = b6 + 1;
    let b8 = b7 + rl.len();
    let b9 = b8 + 1;
    let b10 = b9 + qk3.len();
    let b11 = b10 + 2;
    let b12 = b11 + a.len();
    assert(s.len() == b12 + 2);
    assert(s[0] == '{');
    assert(s.subrange(b1, b2) =~= qk1);
    assert(s[b2] == ':');
    assert(s.subrange(b3, b4) =~= qid);
    assert(s[b4] == ',');
    assert(s.subrange(b5, b6) =~= qk2);
    assert(s[b6] == ':');
    assert(s.subrange(b7, b8) =~= rl);
    assert(s[b8] == ',');
    assert(s.subrange(b9, b10) =~= qk3);
    assert(s[b10] == ':' && s[b10 + 1] == '[');
    assert(s.subrange(b11, b12) =~= a);
    assert(s[b12] == ']' && s[b12 + 1] == '}');
    assert(parse_addr_fields(s, b9, Some(m.node_id), Some(m.relay_url), None) == Some(
        (m, b12 + 2),
    )) by {
        lemma_parse_member_key(s, b9, "direct_addresses"@);
        if m.direct_addresses.len() == 0 {
            assert(a.len() == 0);
            assert(s[b11] == ']');
            assert(parse_addr_list(s, b11) == Some((Seq::<SocketAddress>::empty(), b11 + 1)));
            assert(Seq::<SocketAddress>::empty() =~= m.direct_addresses);
        } else {
            assert(a[0] == '"') by {
                let q0 = json_string(sockaddr_text(m.direct_addresses[0]));
                if m.direct_addresses.len() == 1 {
                    assert(a == q0);
                } else {
                    assert(a == q0 + ","@ + addrs_text(m.direct_addresses.drop_first()));
                }
                assert(q0[0] == '"');
            }
            assert(s[b11] == a[0]);
            lemma_parse_elems(s, b11, m.direct_addresses);
        }
        lemma_skip_ws_stop(s, b12 + 1);
    }
    assert(parse_addr_fields(s, b5, Some(m.node_id), None, None) == Some((m, b12 + 2))) by {
        assert(rl == "null"@ && !is_ws(rl[0]));
        lemma_parse_member_key(s, b5, "relay_url"@);
        assert(s.subrange(b7, b7 + 4) =~= "null"@);
        assert(lit_at(s, b7, "null"@));
        lemma_skip_ws_stop(s, b8);
    }
    assert(parse_addr_fields(s, b1, None, None, None) == Some((m, b12 + 2))) by {
        assert(qid[0] == '"' && !is_ws('"'));
        lemma_parse_member_key(s, b1, "node_id"@);
        lemma_parse_json_string_at(s, b3, hex_of(m.node_id));
        lemma_parse_hex_bytes_of(m.node_id);
        lemma_skip_ws_stop(s, b4);
    }
}

#[verifier::rlimit(100)]
proof fn lemma_node_addr_round_trip_with_relay(m: AddressModel)
    requires
        m.relay_url is Some,
    ensures
        parse_node_addr_text(node_addr_json(m)) == Some(m),
{
    reveal_strlit("{");
    reveal_strlit(":");
    reveal_strlit(",");
    reveal_strlit(":[");
    reveal_strlit("]}");
    reveal_strlit("null");
    lemma_addr_key_chunks();
    let qk1 = json_string("node_id"@);
    let qk2 = json_string("relay_url"@);
    let qk3 = json_string("direct_addresses"@);
    let qid = json_string(hex_of(m.node_id));
    let rl = relay_text(m.relay_url);
    let a = addrs_text(m.direct_addresses);
    let s = node_addr_json(m);
    let b1 = 1int;
    let b2 = b1 + qk1.len();
    let b3 = b2 + 1;
    let b4 = b3 + qid.len();
    let b5 = b4 + 1;
    let b6 = b5 + qk2.len();
    let b7 = b6 + 1;
    let b8 = b7 + rl.len();
    let b9 = b8 + 1;
    let b10 = b9 + qk3.len();
    let b11 = b10 + 2;
    let b12 = b11 + a.len();
    assert(s.len() == b12 + 2);
    assert(s[0] == '{');
    assert(s.subrange(b1, b2) =~= qk1);
    assert(s[b2] == ':');
    assert(s.subrange(b3, b4) =~= qid);
    assert(s[b4] == ',');
    assert(s.subrange(b5, b6) =~= qk2);
    assert(s[b6] == ':');
    assert(s.subrange(b7, b8) =~= rl);
    assert(s[b8] == ',');
    assert(s.subrange(b9, b10) =~= qk3);
    assert(s[b10] == ':' && s[b10 + 1] == '[');
    assert(s.subrange(b11, b12) =~= a);
    assert(s[b12] == ']' && s[b12 + 1] == '}');
    assert(parse_addr_fields(s, b9, Some(m.node_id), Some(m.relay_url), None) == Some(
        (m, b12 + 2),
    )) by {
        lemma_parse_member_key(s, b9, "direct_addresses"@);
        if m.direct_addresses.len() == 0 {
            assert(a.len() == 0);
            assert(s[b11] == ']');
            assert(parse_addr_list(s, b11) == Some((Seq::<SocketAddress>::empty(), b11 + 1)));
            assert(Seq::<SocketAddress>::empty() =~= m.direct_addresses);
        } else {
            assert(a[0] == '"') by {
                let q0 = json_string(sockaddr_text(m.direct_addresses[0]));
                if m.direct_addresses.len() == 1 {
                    assert(a == q0);
                } else {
                    assert(a == q0 + ","@ + addrs_text(m.direct_addresses.drop_first()));
                }
                assert(q0[0] == '"');
            }
            assert(s[b11] == a[0]);
            lemma_parse_elems(s, b11, m.direct_addresses);
        }
        lemma_skip_ws_stop(s, b12 + 1);
    }
    assert(parse_addr_fields(s, b5, Some(m.node_id), None, None) == Some((m, b12 + 2))) by {
        let u = m.relay_url->0;
        assert(rl == json_string(u));
        assert(s[b7] == '"' && !is_ws('"'));
        lemma_parse_member_key(s, b5, "relay_url"@);
        assert(!lit_at(s, b7, "null"@)) by {
            if lit_at(s, b7, "null"@) {
                assert(s.subrange(b7, b7 + 4)[0] == s[b7]);
            }
        }
        lemma_parse_json_string_at(s, b7, u);
        lemma_skip_ws_stop(s, b8);
    }
    assert(parse_addr_fields(s, b1, None, None, None) == Some((m, b12 + 2))) by {
        assert(qid[0] == '"' && !is_ws('"'));
        lemma_parse_member_key(s, b1, "node_id"@);
        lemma_parse_json_string_at(s, b3, hex_of(m.node_id));
        lemma_parse_hex_bytes_of(m.node_id);
        lemma_skip_ws_stop(s, b4);
    }
}

/// The view of an optional byte vector.
pub open spec fn opt_bytes_view(o: Option<Vec<u8>>) -> Option<Seq<u8>> {
    match o {
        Some(v) => Some(v@),
        None => None,
    }
}

/// The view of an optional, possibly absent relay URL.
pub open spec fn opt_relay_view(o: Option<Option<String>>) -> Option<Option<Seq<char>>> {
    match o {
        Some(Some(u)) => Some(Some(u@)),
        Some(None) => Some(None),
        None => None,
    }
}

/// The view of an optional address list.
pub open spec fn opt_addrs_view(o: Option<Vec<SocketAddress>>) -> Option<Seq<SocketAddress>> {
    match o {
        Some(v) => Some(v@),
        None => None,
    }
}

/// Exec parser for the address array after its opening bracket;
/// behaves exactly as [`parse_addr_list`].
fn parse_addr_list_exec(v: &Vec<char>, i: usize) -> (r: Option<(Vec<SocketAddress>, usize)>)
    requires
        i <= v@.len(),
    ensures
        match r {
            Some((l, e)) => parse_addr_list(v@, i as int) == Some((l@, e as int)) && i < e
                <= v@.len(),
            None => parse_addr_list(v@, i as int) is None,
        },
{
    let mut addrs: Vec<SocketAddress> = Vec::new();
    if i < v.len() && v[i] == ']' {
        return Some((addrs, i + 1));
    }
    let ghost base = i as int;
    let mut j: usize = i;
    proof {
        assert(forall|l: Seq<SocketAddress>| Seq::<SocketAddress>::empty() + l =~= l);
    }
    let mut epos: usize = 0;
    loop
        invariant_except_break
            i <= j <= v@.len(),
            base == i as int,
            !(base < v@.len() && v@[base] == ']'),
            (match parse_elems(v@, j as int) {
                Some((l, e)) => parse_elems(v@, base) == Some((addrs@ + l, e)),
                None => parse_elems(v@, base) is None,
            }),
        ensures
            parse_elems(v@, base) == Some((addrs@, epos as int)),
            base < epos <= v@.len(),
            !(base < v@.len() && v@[base] == ']'),
        decreases v@.len() - j,
    {
        let (t, j2) = match parse_json_string(v, j) {
            Some(p) => p,
            None => {
                return None;
            },
        };
        if j2 >= v.len() {
            return None;
        }
        let sa = match parse_sockaddr(&t) {
            Some(sa) => sa,
            None => {
                return None;
            },
        };
        let c = v[j2];
        if c == ',' {
            let ghost before = addrs@;
            addrs.push(sa);
            proof {
                assert(addrs@ =~= before + seq![sa]);
                assert(forall|l: Seq<SocketAddress>|
                    (before + seq![sa]) + l =~= before + (seq![sa] + l));
            }
            j = j2 + 1;
        } else if c == ']' {
            let ghost before = addrs@;
            addrs.push(sa);
            proof {
                assert(addrs@ =~= before + seq![sa]);
            }
            epos = j2 + 1;
            proof {
                assert(parse_elems(v@, j as int) == Some((seq![sa], epos as int)));
                assert(before + seq![sa] =~= addrs@);
            }
            break;
        } else {
            return None;
        }
    }
    proof {
        assert(parse_addr_list(v@, base) == parse_elems(v@, base));
    }
    Some((addrs, epos))
}

/// Exec parser for the node-address object; behaves exactly as
/// [`parse_node_addr_text`].
#[verifier::rlimit(100)]
pub fn parse_node_addr(v: &Vec<char>) -> (r: Option<NodeAddress>)
    ensures
        match r {
            Some(a) => parse_node_addr_text(v@) == Some(a@),
            None => parse_node_addr_text(v@) is None,
        },
{
    if v.len() == 0 || v[0] != '{' {
        return None;
    }
    let mut nid_v: Option<Vec<u8>> = None;
    let mut relay_v: Option<Option<String>> = None;
    let mut directs_v: Option<Vec<SocketAddress>> = None;
    let mut j: usize = 1;
    let mut endpos: usize = 0;
    loop
        invariant_except_break
            1 <= j <= v@.len(),
            v@.len() > 0 && v@[0] == '{',
            (match parse_addr_fields(
                v@,
                j as int,
                opt_bytes_view(nid_v),
                opt_relay_view(relay_v),
                opt_addrs_view(directs_v),
            ) {
                Some((mm, e)) => parse_addr_fields(v@, 1, None, None, None) == Some((mm, e)),
                None => parse_addr_fields(v@, 1, None, None, None) is None,
            }),
        ensures
            v@.len() > 0 && v@[0] == '{',
            endpos <= v@.len(),
            (match (opt_bytes_view(nid_v), opt_relay_view(relay_v), opt_addrs_view(directs_v)) {
                (Some(nb), Some(rr), Some(dl)) => parse_addr_fields(v@, 1, None, None, None)
                    == Some(
                    (
                        AddressModel { node_id: nb, relay_url: rr, direct_addresses: dl },
                        endpos as int,
                    ),
                ),
                _ => parse_addr_fields(v@, 1, None, None, None) is None,
            }),
        decreases v@.len() - j,
    {
        proof {
            reveal_strlit("node_id");
            reveal_strlit("relay_url");
            reveal_strlit("direct_addresses");
            assert("node_id"@ != "relay_url"@) by {
                assert("node_id"@.len() == 7 && "relay_url"@.len() == 9);
            }
            assert("node_id"@ != "direct_addresses"@) by {
                assert("direct_addresses"@.len() == 16);
            }
            assert("relay_url"@ != "direct_addresses"@) by {
                assert("direct_addresses"@.len() == 16);
            }
        }
        let (key, j2) = match parse_member_key_exec(v, j) {
            Some(p) => p,
            None => {
                return None;
            },
        };
        let k: usize;
        if chars_eq_str(&key, "node_id") {
            if nid_v.is_some() {
                return None;
            }
            let (hx, kk) = match parse_json_string(v, j2) {
                Some(p) => p,
                None => {
                    return None;
                },
            };
            let b = match decode_hex(&hx) {
                Some(b) => b,
                None => {
                    return None;
                },
            };
            nid_v = Some(b);
            k = kk;
        } else if chars_eq_str(&key, "relay_url") {
            if relay_v.is_some() {
                return None;
            }
            proof {
                reveal_strlit("null");
            }
            match expect_lit(v, j2, "null") {
                Some(e) => {
                    relay_v = Some(None);
                    k = e;
                },
                None => {
                    let (u, kk) = match parse_json_string(v, j2) {
                        Some(p) => p,
                        None => {
                            return None;
                        },
                    };
                    relay_v = Some(Some(string_of(&u)));
                    k = kk;
                },
            }
        } else if chars_eq_str(&key, "direct_addresses") {
            if directs_v.is_some() {
                return None;
            }
            if j2 >= v.len() || v[j2] != '[' {
                return None;
            }
            let (l, kk) = match parse_addr_list_exec(v, j2 + 1) {
                Some(p) => p,
                None => {
                    return None;
                },
            };
            directs_v = Some(l);
            k = kk;
        } else {
            return None;
        }
        let k1 = skip_ws_exec(v, k);
        if k1 < v.len() && v[k1] == ',' {
            j = k1 + 1;
        } else if k1 < v.len() && v[k1] == '}' {
            endpos = k1 + 1;
            break;
        } else {
            return None;
        }
    }
    if endpos != v.len() {
        return None;
    }
    match (nid_v, relay_v, directs_v) {
        (Some(nb), Some(rr), Some(dl)) => Some(
            NodeAddress { node_id: nb, relay_url: rr, direct_addresses: dl },
        ),
        _ => None,
    }
}

// ─── Deserialize ────────────────────────────────────────────────────

/// Deserialize a ticket string back into a node address.  The
/// decoded JSON object may order its fields freely, with whitespace
/// between tokens; a ticket that names neither a relay nor a direct
/// address that survives the usefulness filter is refused.  Every
/// canonical ticket of an acceptable model is accepted and gives
/// back exactly the model.
#[verifier::rlimit(100)]
pub fn deserialize(ticket: &str) -> (r: Result<NodeAddress, TransferError>)
    ensures
        match r {
            Ok(a) => ticket_ok(filter_model(a@)) && exists|s: Seq<char>|
                ticket@ == "p2psh:"@ + b64_of(vstd::utf8::encode_utf8(s))
                    && parse_node_addr_text(s) == Some(a@),
            Err(e) => e == TransferError::BadTicket,
        },
        forall|m: AddressModel|
            ticket@ == #[trigger] ticket_text(m) && ticket_ok(filter_model(m)) ==> (r matches Ok(a)
                && a@ == m),
{
    broadcast use vstd::utf8::encode_utf8_valid_utf8, vstd::utf8::encode_utf8_decode_utf8;

    proof {
        reveal_strlit("p2psh:");
    }
    let v = chars_of(ticket);
    let e1 = match expect_lit(&v, 0, "p2psh:") {
        Some(e) => e,
        None => {
            proof {
                assert forall|m: AddressModel| ticket@ != #[trigger] ticket_text(m) by {
                    if ticket@ == ticket_text(m) {
                        assert(ticket@.subrange(0, 6) =~= "p2psh:"@);
                    }
                }
            }
            return Err(TransferError::BadTicket);
        },
    };
    let mut suffix: Vec<char> = Vec::new();
    let mut k: usize = e1;
    while k < v.len()
        invariant
            e1 <= k <= v@.len(),
            suffix@ =~= v@.subrange(e1 as int, k as int),
        decreases v@.len() - k,
    {
        suffix.push(v[k]);
        proof {
            assert(v@.subrange(e1 as int, k as int + 1) =~= v@.subrange(e1 as int, k as int)
                + seq![v@[k as int]]);
        }
        k = k + 1;
    }
    proof {
        assert(suffix@ =~= v@.skip(e1 as int));
        assert forall|m: AddressModel|
            ticket@ == #[trigger] ticket_text(m) implies suffix@ == b64_of(
            vstd::utf8::encode_utf8(node_addr_json(m)),
        ) by {
            assert(v@.skip(6) =~= b64_of(vstd::utf8::encode_utf8(node_addr_json(m))));
        }
    }
    let b64s = string_of(&suffix);
    let bytes = match b64_decode(b64s.as_str()) {
        Ok(b) => b,
        Err(e) => {
            return Err(e);
        },
    };
    let json_s = match string_from_utf8(bytes) {
        Ok(s) => s,
        Err(_) => {
            return Err(TransferError::BadTicket);
        },
    };
    let jv = chars_of(json_s.as_str());
    let addr = match parse_node_addr(&jv) {
        Some(a) => a,
        None => {
            proof {
                assert forall|m: AddressModel|
                    ticket@ != #[trigger] ticket_text(m) by {
                    if ticket@ == ticket_text(m) {
                        let code = vstd::utf8::encode_utf8(node_addr_json(m));
                        assert(vstd::utf8::decode_utf8(vstd::utf8::encode_utf8(json_s@))
                            == json_s@);
                        assert(vstd::utf8::decode_utf8(code) == node_addr_json(m));
                        assert(json_s@ == node_addr_json(m));
                        lemma_node_addr_round_trip(m);
                    }
                }
            }
            return Err(TransferError::BadTicket);
        },
    };
    let ok = match &addr.relay_url {
        Some(_) => true,
        None => has_useful_address(&addr.direct_addresses),
    };
    if !ok {
        proof {
            assert forall|m: AddressModel|
                !(ticket@ == #[trigger] ticket_text(m) && ticket_ok(filter_model(m))) by {
                if ticket@ == ticket_text(m) {
                    let code = vstd::utf8::encode_utf8(node_addr_json(m));
                    assert(vstd::utf8::decode_utf8(vstd::utf8::encode_utf8(json_s@)) == json_s@);
                    assert(vstd::utf8::decode_utf8(code) == node_addr_json(m));
                    assert(json_s@ == node_addr_json(m));
                    lemma_node_addr_round_trip(m);
                    assert(addr@ == m);
                }
            }
        }
        return Err(TransferError::BadTicket);
    }
    proof {
        assert forall|m: AddressModel|
            ticket@ == #[trigger] ticket_text(m) && ticket_ok(filter_model(m)) implies addr@
            == m by {
            let code = vstd::utf8::encode_utf8(node_addr_json(m));
            assert(vstd::utf8::decode_utf8(vstd::utf8::encode_utf8(json_s@)) == json_s@);
            assert(vstd::utf8::decode_utf8(code) == node_addr_json(m));
            assert(json_s@ == node_addr_json(m));
            lemma_node_addr_round_trip(m);
        }
        assert(ticket@ == "p2psh:"@ + b64_of(vstd::utf8::encode_utf8(json_s@))) by {
            assert(ticket@ =~= ticket@.subrange(0, 6) + ticket@.skip(6));
        }
    }
    Ok(addr)
}

/// Serializing and then deserializing gives back exactly the filtered
/// address: direct addresses pass the usefulness filter, everything
/// else is preserved.
pub fn ticket_round_trip(addr: &NodeAddress) -> (r: Result<NodeAddress, TransferError>)
    requires
        ticket_ok(filter_model(addr@)),
    ensures
        r matches Ok(a) && a@ == filter_model(addr@),
{
    proof {
        lemma_filter_model_idempotent(addr@);
    }
    let t = match serialize(addr) {
        Ok(t) => t,
        Err(e) => {
            return Err(e);
        },
    };
    match deserialize(t.as_str()) {
        Ok(a) => Ok(a),
        Err(e) => Err(e),
    }
}

// ─── Recognition and address shaping ────────────────────────────────

/// The six characters of the ticket prefix, lowercase.
pub open spec fn ticket_prefix_chars() -> Seq<char> {
    seq!['p', '2', 'p', 's', 'h', ':']
}

/// The string, trimmed, starts with the ticket prefix, compared
/// ASCII-case-insensitively.
pub open spec fn is_ticket_spec(s: Seq<char>) -> bool {
    let t = trim_spec(s);
    t.len() >= 6 && (forall|i: int|
        0 <= i < 6 ==> crate::code::to_lower(#[trigger] t[i]) == ticket_prefix_chars()[i])
}

/// Check whether a string looks like a ticket (vs. a plain ip:port
/// address).  The prefix match is ASCII-case-insensitive.
pub fn is_ticket(s: &str) -> (r: bool)
    ensures
        r == is_ticket_spec(s@),
{
    let raw = chars_of(s);
    let t = trim_chars(&raw);
    if t.len() < 6 {
        return false;
    }
    let mut i: usize = 0;
    while i < 6
        invariant
            i <= 6,
            t@.len() >= 6,
            t@ == trim_spec(s@),
            forall|j: int|
                0 <= j < i ==> crate::code::to_lower(#[trigger] t@[j]) == ticket_prefix_chars()[j],
        decreases 6 - i,
    {
        let c = t[i];
        let lc: char = if 'A' <= c && c <= 'Z' {
            ((c as u8) + 32) as char
        } else {
            c
        };
        assert(lc == crate::code::to_lower(t@[i as int]));
        let want: char = match i {
            0 => 'p',
            1 => '2',
            2 => 'p',
            3 => 's',
            4 => 'h',
            _ => ':',
        };
        assert(want == ticket_prefix_chars()[i as int]);
        if lc != want {
            return false;
        }
        i = i + 1;
    }
    true
}

/// The address a publishing sender advertises: stripped to its relay
/// alone when an event sink is attached (a mobile embedder) and a
/// relay is available, unchanged otherwise.
pub fn advertised_address(addr: &NodeAddress, minimize: bool) -> (r: NodeAddress)
    ensures
        r@.node_id == addr@.node_id,
        r@.relay_url == addr@.relay_url,
        r@.direct_addresses == if minimize && addr@.relay_url is Some {
            Seq::<SocketAddress>::empty()
        } else {
            addr@.direct_addresses
        },
{
    let has_relay = match &addr.relay_url {
        Some(_) => true,
        None => false,
    };
    if minimize && has_relay {
        relay_only(addr)
    } else {
        NodeAddress {
            node_id: clone_bytes(&addr.node_id),
            relay_url: match &addr.relay_url {
                Some(u) => Some(clone_string(u)),
                None => None,
            },
            direct_addresses: clone_addrs(&addr.direct_addresses),
        }
    }
}

/// The reverse-mode dial plan: with a relay present, first dial the
/// relay-only address, keeping the full address as a fallback; with
/// none, dial the full address straight away.
pub fn relay_first_plan(addr: &NodeAddress) -> (r: (Option<NodeAddress>, NodeAddress))
    ensures
        r.1@ == addr@,
        match r.0 {
            Some(primary) => {
                &&& addr@.relay_url is Some
                &&& primary@.node_id == addr@.node_id
                &&& primary@.relay_url == addr@.relay_url
                &&& primary@.direct_addresses == Seq::<SocketAddress>::empty()
            },
            None => addr@.relay_url is None,
        },
{
    let fallback = NodeAddress {
        node_id: clone_bytes(&addr.node_id),
        relay_url: match &addr.relay_url {
            Some(u) => Some(clone_string(u)),
            None => None,
        },
        direct_addresses: clone_addrs(&addr.direct_addresses),
    };
    let primary = match &addr.relay_url {
        Some(_) => Some(relay_only(addr)),
        None => None,
    };
    (primary, fallback)
}

/// A copy of the address list.
fn clone_addrs(v: &Vec<SocketAddress>) -> (r: Vec<SocketAddress>)
    ensures
        r@ == v@,
{
    let mut out: Vec<SocketAddress> = Vec::new();
    let mut i: usize = 0;
    while i < v.len()
        invariant
            i <= v@.len(),
            out@ =~= v@.take(i as int),
        decreases v@.len() - i,
    {
        out.push(v[i]);
        proof {
            assert(v@.take(i as int + 1) =~= v@.take(i as int) + seq![v@[i as int]]);
        }
        i = i + 1;
    }
    proof {
        assert(v@.take(v@.len() as int) =~= v@);
    }
    out
}

/// The same address stripped to its relay alone — the dial-ordering
/// preference used when radios upgrade unreliably, and the minimized
/// advertised ticket.
pub fn relay_only(addr: &NodeAddress) -> (r: NodeAddress)
    ensures
        r@.node_id == addr@.node_id,
        r@.relay_url == addr@.relay_url,
        r@.direct_addresses == Seq::<SocketAddress>::empty(),
{
    NodeAddress {
        node_id: clone_bytes(&addr.node_id),
        relay_url: match &addr.relay_url {
            Some(u) => Some(clone_string(u)),
            None => None,
        },
        direct_addresses: Vec::new(),
    }
}

} // verus!
