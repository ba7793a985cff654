//! What the proxy knows of a client's address: its geographic location, its
//! network (ASN), and whether it lies in a CIDR range.

use vstd::prelude::*;
use vstd::string::*;
use vstd::utf8::*;
use bytes::BytesMut;
use std::str::FromStr;
use crate::buffer::{bytes_of, new_buffer, put_slice, buffer_bytes};
use crate::text::{decimal_bytes, write_decimal, lemma_decimal_len, lemma_ascii_bytes_valid, str_from_utf8, owned, digit_bytes};

verus! {

/// Where a client is, as far as the location database knows.
#[derive(Debug, Clone)]
pub struct GeoInfo {
    pub country: Option<String>,
    pub region: Option<String>,
    pub city: Option<String>,
}

/// A `GeoInfo` seen as values.
pub struct GeoView {
    pub country: Option<Seq<char>>,
    pub region: Option<Seq<char>>,
    pub city: Option<Seq<char>>,
}

/// The view of an optional string.
pub open spec fn opt_str_view(s: Option<String>) -> Option<Seq<char>> {
    match s {
        Some(x) => Some(x@),
        None => None,
    }
}

impl View for GeoInfo {
    type V = GeoView;

    open spec fn view(&self) -> GeoView {
        GeoView {
            country: opt_str_view(self.country),
            region: opt_str_view(self.region),
            city: opt_str_view(self.city),
        }
    }
}

impl Default for GeoInfo {
    fn default() -> (g: GeoInfo)
        ensures
            g.country is None,
            g.region is None,
            g.city is None,
    {
        GeoInfo { country: None, region: None, city: None }
    }
}

/// The prefix of an autonomous system label.
pub const ASN_PREFIX: &'static str = "AS";

/// The label of autonomous system `number`: `AS` then the number in decimal,
/// as UTF-8 bytes.
pub open spec fn asn_label_bytes(number: u32) -> Seq<u8> {
    ASN_PREFIX.spec_bytes() + decimal_bytes(number as int)
}

proof fn lemma_digits_ascii(n: nat)
    ensures
        forall|i: int| 0 <= i < digit_bytes(n).len() ==> #[trigger] digit_bytes(n)[i] < 128,
    decreases n,
{
    if n >= 10 {
        lemma_digits_ascii(n / 10);
        let d = digit_bytes(n);
        let p = digit_bytes(n / 10);
        assert(d == p.push((48 + n % 10) as u8));
        assert forall|i: int| 0 <= i < d.len() implies #[trigger] d[i] < 128 by {
            if i < p.len() {
                assert(d[i] == p[i]);
            }
        }
    }
}

/// The label of autonomous system `number`, such as `AS15169`.
pub fn asn_label(number: u32) -> (s: String)
    ensures
        encode_utf8(s@) == asn_label_bytes(number),
{
    proof {
        reveal_strlit("AS");
        broadcast use vstd::string::group_string_axioms;
        broadcast use vstd::utf8::is_ascii_chars_encode_utf8;
        lemma_decimal_len(number as i64);
        lemma_digits_ascii(number as nat);
    }
    assert(is_ascii(ASN_PREFIX));
    assert(ASN_PREFIX.spec_bytes() =~= seq![65u8, 83u8]);
    let mut b = new_buffer();
    put_slice(&mut b, ASN_PREFIX.as_bytes());
    write_decimal(number as i64, &mut b);
    let bytes = buffer_bytes(&b);
    proof {
        lemma_ascii_bytes_valid(bytes@);
    }
    let st = str_from_utf8(bytes).unwrap();
    owned(st)
}

/// An IP address: IPv4 (in the low 32 bits) or IPv6, as a number.
#[derive(Debug, Clone, Copy, PartialEq, Eq, Structural)]
pub struct IpValue {
    pub v6: bool,
    pub bits: u128,
}

/// A CIDR network: address, prefix length, and whether it is IPv6.
#[derive(Debug, Clone, Copy, PartialEq, Eq, Structural)]
pub struct IpNet {
    pub v6: bool,
    pub addr: u128,
    pub prefix: u32,
}

/// The width of an address of this family, in bits.
pub open spec fn addr_width(v6: bool) -> u32 {
    if v6 { 128 } else { 32 }
}

/// A well-formed address: an IPv4 address fits in 32 bits.
pub open spec fn ip_value_wf(ip: IpValue) -> bool {
    !ip.v6 ==> ip.bits < 0x1_0000_0000
}

/// A well-formed network: its address fits its family, and its prefix is no
/// longer than the address.
pub open spec fn ip_net_wf(net: IpNet) -> bool {
    &&& net.prefix <= addr_width(net.v6)
    &&& !net.v6 ==> net.addr < 0x1_0000_0000
}

/// What the `ipnetwork` crate parses from the text `s` as a network
/// (`IpNetwork::from_str`).
pub uninterp spec fn ip_network_parse(s: Seq<char>) -> Option<IpNet>;

/// `IpNetwork::from_str` of the `ipnetwork` crate: the network written in
/// `s` (an address with an optional `/prefix` or netmask; a bare address is
/// a network of one), if it is one. The crate refuses prefixes longer than
/// the address.
#[verifier::external_body]
pub(crate) fn parse_ip_network(s: &str) -> (r: Option<IpNet>)
    ensures
        r == ip_network_parse(s@),
        r matches Some(net) ==> ip_net_wf(net),
{
    match ipnetwork::IpNetwork::from_str(s) {
        Ok(ipnetwork::IpNetwork::V4(n)) => Some(
            IpNet { v6: false, addr: u32::from(n.ip()) as u128, prefix: n.prefix() as u32 },
        ),
        Ok(ipnetwork::IpNetwork::V6(n)) => Some(
            IpNet { v6: true, addr: u128::from(n.ip()), prefix: n.prefix() as u32 },
        ),
        Err(_) => None,
    }
}

/// A network contains an address of its own family whose first `prefix`
/// bits are those of the network's address.
pub open spec fn net_contains(net: IpNet, ip: IpValue) -> bool {
    net.v6 == ip.v6 && (net.prefix == 0 || (ip.bits >> ((addr_width(net.v6) - net.prefix) as u128))
        == (net.addr >> ((addr_width(net.v6) - net.prefix) as u128)))
}

/// Whether `net` contains `ip`.
pub fn network_contains(net: &IpNet, ip: &IpValue) -> (r: bool)
    requires
        ip_net_wf(*net),
    ensures
        r == net_contains(*net, *ip),
{
    if net.v6 != ip.v6 {
        return false;
    }
    if net.prefix == 0 {
        return true;
    }
    let width: u32 = if net.v6 { 128 } else { 32 };
    let shift: u128 = (width - net.prefix) as u128;
    (ip.bits >> shift) == (net.addr >> shift)
}

/// A network whose prefix is the whole address (`/32` or `/128`), such as
/// a bare banned address, contains that one address and no other.
pub proof fn lemma_full_prefix_single_address(net: IpNet, ip: IpValue)
    requires
        ip_net_wf(net),
        net.prefix == addr_width(net.v6),
    ensures
        net_contains(net, ip) <==> (ip.v6 == net.v6 && ip.bits == net.addr),
{
    let x = ip.bits;
    let y = net.addr;
    assert((x >> 0u128 == y >> 0u128) <==> x == y) by (bit_vector);
}

/// A network contains its own address.
pub proof fn lemma_network_holds_own_address(net: IpNet)
    requires
        ip_net_wf(net),
    ensures
        net_contains(net, IpValue { v6: net.v6, bits: net.addr }),
{
}

/// A `/0` network contains every address of its family.
pub proof fn lemma_zero_prefix_whole_family(net: IpNet, ip: IpValue)
    requires
        net.prefix == 0,
    ensures
        net_contains(net, ip) <==> ip.v6 == net.v6,
{
}

/// Every bit of the prefix counts: the address that differs from the
/// network's in the last bit of the prefix is outside the network.
pub proof fn lemma_last_prefix_bit_counts(net: IpNet)
    requires
        ip_net_wf(net),
        net.prefix >= 1,
    ensures
        !net_contains(
            net,
            IpValue {
                v6: net.v6,
                bits: net.addr ^ (1u128 << ((addr_width(net.v6) - net.prefix) as u128)),
            },
        ),
{
    let a = net.addr;
    let sh = (addr_width(net.v6) - net.prefix) as u128;
    assert(sh < 128);
    assert(sh < 128u128 ==> (a ^ (1u128 << sh)) >> sh != a >> sh) by (bit_vector);
}

} // verus!
