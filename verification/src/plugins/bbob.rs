//! The moderation plugin: bans by IP, IP range (CIDR), user name, UUID and
//! network (ASN), managed from the console and enforced at login.

use vstd::prelude::*;
use crate::string_set::{StringSet, members};
use crate::ip_info::{IpNet, IpValue, ip_network_parse, ip_net_wf, net_contains, parse_ip_network, network_contains};
use crate::text::{to_lowercase, lowercase_of, ascii_lower, owned, hex_bytes, push_hex, ascii_string, lemma_hex_bytes_ascii};
use vstd::utf8::{decode_utf8, is_ascii_chars};

verus! {

/// The ban lists, and the IP ranges parsed from the banned IPs.
pub struct BbobConfig {
    pub banned_ips: StringSet,
    pub parsed_banned_ips: Vec<IpNet>,
    pub banned_names: StringSet,
    pub banned_uuids: StringSet,
    pub banned_asns: StringSet,
}

/// The ban lists as sets.
pub struct BanLists {
    pub ips: Set<Seq<char>>,
    pub names: Set<Seq<char>>,
    pub uuids: Set<Seq<char>>,
    pub asns: Set<Seq<char>>,
}

/// The networks that the entries of `ips` parse as, in order; entries that
/// are not networks are left out.
pub open spec fn parse_networks(ips: Seq<Seq<char>>) -> Seq<IpNet>
    decreases ips.len(),
{
    if ips.len() == 0 {
        seq![]
    } else {
        let rest = parse_networks(ips.drop_last());
        match ip_network_parse(ips.last()) {
            Some(net) => rest.push(net),
            None => rest,
        }
    }
}

/// Console command: ban an IP or an IP range.
pub const CMD_BANIP: &'static str = "banip";
/// Console command: lift an IP or IP range ban.
pub const CMD_UNBANIP: &'static str = "unbanip";
/// Console command: ban a player name.
pub const CMD_BANUSER: &'static str = "banuser";
/// Console command: lift a player name ban.
pub const CMD_UNBANUSER: &'static str = "unbanuser";
/// Console command: ban a player UUID.
pub const CMD_BANUUID: &'static str = "banuuid";
/// Console command: lift a player UUID ban.
pub const CMD_UNBANUUID: &'static str = "unbanuuid";
/// Console command: ban a network (ASN).
pub const CMD_BANASN: &'static str = "banasn";
/// Console command: lift a network ban.
pub const CMD_UNBANASN: &'static str = "unbanasn";

/// What a console command does to the ban lists, and whether it changed
/// anything worth saving. `cmd` is the lower-cased command and `arg` its
/// first argument. Bans always count as a change; unbans only when the entry
/// was there. User names and UUIDs are kept in lower case.
pub open spec fn spec_apply_command(b: BanLists, cmd: Seq<char>, arg: Option<Seq<char>>) -> (
    BanLists,
    bool,
) {
    match arg {
        None => (b, false),
        Some(a) => if cmd == CMD_BANIP@ {
            (BanLists { ips: b.ips.insert(a), ..b }, true)
        } else if cmd == CMD_UNBANIP@ {
            (BanLists { ips: b.ips.remove(a), ..b }, b.ips.contains(a))
        } else if cmd == CMD_BANUSER@ {
            (BanLists { names: b.names.insert(lowercase_of(a)), ..b }, true)
        } else if cmd == CMD_UNBANUSER@ {
            (
                BanLists { names: b.names.remove(lowercase_of(a)), ..b },
                b.names.contains(lowercase_of(a)),
            )
        } else if cmd == CMD_BANUUID@ {
            (BanLists { uuids: b.uuids.insert(lowercase_of(a)), ..b }, true)
        } else if cmd == CMD_UNBANUUID@ {
            (
                BanLists { uuids: b.uuids.remove(lowercase_of(a)), ..b },
                b.uuids.contains(lowercase_of(a)),
            )
        } else if cmd == CMD_BANASN@ {
            (BanLists { asns: b.asns.insert(a), ..b }, true)
        } else if cmd == CMD_UNBANASN@ {
            (BanLists { asns: b.asns.remove(a), ..b }, b.asns.contains(a))
        } else {
            (b, false)
        },
    }
}

/// Why a login is refused.
#[derive(Debug, Clone, Copy, PartialEq, Eq, Structural)]
pub enum BanReason {
    /// The IP is on the list.
    Ip,
    /// The address lies in a banned range.
    IpRange,
    /// The player name is on the list.
    Account,
    /// The player's UUID is on the list.
    Uuid,
    /// The network is on the list.
    Network,
}

/// Kick message for a banned IP.
pub const MSG_IP_BANNED: &'static str = "Your IP is banned.";
/// Kick message for an IP in a banned range.
pub const MSG_RANGE_BANNED: &'static str = "Your IP range is banned.";
/// Kick message for a banned player name.
pub const MSG_ACCOUNT_BANNED: &'static str = "Your account is banned.";
/// Kick message for a banned UUID.
pub const MSG_UUID_BANNED: &'static str = "Your UUID is banned.";
/// Kick message for a banned network.
pub const MSG_NETWORK_BANNED: &'static str = "Your network (ASN) is banned.";

impl BanReason {
    /// The kick message for this reason.
    pub fn message(&self) -> (m: &'static str)
        ensures
            m == match self {
                BanReason::Ip => MSG_IP_BANNED,
                BanReason::IpRange => MSG_RANGE_BANNED,
                BanReason::Account => MSG_ACCOUNT_BANNED,
                BanReason::Uuid => MSG_UUID_BANNED,
                BanReason::Network => MSG_NETWORK_BANNED,
            },
    {
        match self {
            BanReason::Ip => MSG_IP_BANNED,
            BanReason::IpRange => MSG_RANGE_BANNED,
            BanReason::Account => MSG_ACCOUNT_BANNED,
            BanReason::Uuid => MSG_UUID_BANNED,
            BanReason::Network => MSG_NETWORK_BANNED,
        }
    }
}

/// Whether some network of `nets` contains `ip`.
pub open spec fn any_contains(nets: Seq<IpNet>, ip: IpValue) -> bool {
    exists|i: int| 0 <= i < nets.len() && net_contains(#[trigger] nets[i], ip)
}

/// The text form of a UUID as ASCII bytes: its 32 lower-case hexadecimal
/// digits in groups of 8, 4, 4, 4 and 12 joined by `-`.
pub open spec fn uuid_hyphenated_bytes(u: Seq<u8>) -> Seq<u8> {
    hex_bytes(u.subrange(0, 4)) + seq![45u8] + hex_bytes(u.subrange(4, 6)) + seq![45u8] + hex_bytes(
        u.subrange(6, 8),
    ) + seq![45u8] + hex_bytes(u.subrange(8, 10)) + seq![45u8] + hex_bytes(u.subrange(10, 16))
}

/// The text forms under which a UUID can be banned: hyphenated, or as 32
/// bare hexadecimal digits, both in lower case.
pub open spec fn uuid_texts(u: Seq<u8>) -> Set<Seq<char>> {
    set![decode_utf8(uuid_hyphenated_bytes(u)), decode_utf8(hex_bytes(u))]
}

/// Why a client is refused at login, checking in order: its IP among the
/// banned IPs; its address (`addr`, when the IP text is one) in a banned
/// range; its lower-cased name among the banned names; a text form of its
/// UUID (`uuid`, 16 bytes) among the banned UUIDs; its network label (`asn`,
/// when known) among the banned networks.
pub open spec fn spec_check_login(
    b: BanLists,
    nets: Seq<IpNet>,
    ip: Seq<char>,
    addr: Option<IpValue>,
    name: Seq<char>,
    uuid: Seq<u8>,
    asn: Option<Seq<char>>,
) -> Option<BanReason> {
    if b.ips.contains(ip) {
        Some(BanReason::Ip)
    } else if addr matches Some(a) && any_contains(nets, a) {
        Some(BanReason::IpRange)
    } else if b.names.contains(lowercase_of(name)) {
        Some(BanReason::Account)
    } else if exists|t: Seq<char>| #[trigger] uuid_texts(uuid).contains(t) && b.uuids.contains(t) {
        Some(BanReason::Uuid)
    } else if asn matches Some(x) && b.asns.contains(x) {
        Some(BanReason::Network)
    } else {
        None
    }
}

/// The hyphenated text form of the 16-byte UUID `u`.
pub fn uuid_hyphenated(u: &[u8; 16]) -> (s: String)
    ensures
        s@ == decode_utf8(uuid_hyphenated_bytes(u@)),
{
    let mut v: Vec<u8> = Vec::new();
    push_hex(&mut v, u, 0, 4);
    v.push(45);
    push_hex(&mut v, u, 4, 6);
    v.push(45);
    push_hex(&mut v, u, 6, 8);
    v.push(45);
    push_hex(&mut v, u, 8, 10);
    v.push(45);
    push_hex(&mut v, u, 10, 16);
    proof {
        lemma_hex_bytes_ascii(u@.subrange(0, 4));
        lemma_hex_bytes_ascii(u@.subrange(4, 6));
        lemma_hex_bytes_ascii(u@.subrange(6, 8));
        lemma_hex_bytes_ascii(u@.subrange(8, 10));
        lemma_hex_bytes_ascii(u@.subrange(10, 16));
        assert(v@ =~= uuid_hyphenated_bytes(u@));
        assert forall|i: int| 0 <= i < v@.len() implies v@[i] < 128 by {
            let a = hex_bytes(u@.subrange(0, 4));
            let b = hex_bytes(u@.subrange(4, 6));
            let c = hex_bytes(u@.subrange(6, 8));
            let d = hex_bytes(u@.subrange(8, 10));
            let e = hex_bytes(u@.subrange(10, 16));
            if i < 8 {
                assert(v@[i] == a[i]);
            } else if i == 8 || i == 13 || i == 18 || i == 23 {
            } else if i < 13 {
                assert(v@[i] == b[i - 9]);
            } else if i < 18 {
                assert(v@[i] == c[i - 14]);
            } else if i < 23 {
                assert(v@[i] == d[i - 19]);
            } else {
                assert(v@[i] == e[i - 24]);
            }
        }
    }
    ascii_string(&v)
}

/// The 32 bare hexadecimal digits of the 16-byte UUID `u`.
pub fn uuid_simple(u: &[u8; 16]) -> (s: String)
    ensures
        s@ == decode_utf8(hex_bytes(u@)),
{
    let mut v: Vec<u8> = Vec::new();
    push_hex(&mut v, u, 0, 16);
    proof {
        assert(u@.subrange(0, 16) =~= u@);
        lemma_hex_bytes_ascii(u@);
    }
    ascii_string(&v)
}

impl BbobConfig {
    /// The ban lists as sets.
    pub open spec fn lists(&self) -> BanLists {
        BanLists {
            ips: members(self.banned_ips@),
            names: members(self.banned_names@),
            uuids: members(self.banned_uuids@),
            asns: members(self.banned_asns@),
        }
    }

    /// The parsed ranges are those of the banned IPs, each well formed.
    pub open spec fn wf(&self) -> bool {
        &&& self.parsed_banned_ips@ == parse_networks(self.banned_ips@)
        &&& forall|j: int|
            0 <= j < self.parsed_banned_ips@.len() ==> ip_net_wf(#[trigger] self.parsed_banned_ips@[j])
    }

    /// No bans.
    pub fn new() -> (c: BbobConfig)
        ensures
            c.wf(),
            c.banned_ips@ == Seq::<Seq<char>>::empty(),
            c.banned_names@ == Seq::<Seq<char>>::empty(),
            c.banned_uuids@ == Seq::<Seq<char>>::empty(),
            c.banned_asns@ == Seq::<Seq<char>>::empty(),
    {
        let c = BbobConfig {
            banned_ips: StringSet::new(),
            parsed_banned_ips: Vec::new(),
            banned_names: StringSet::new(),
            banned_uuids: StringSet::new(),
            banned_asns: StringSet::new(),
        };
        assert(c.parsed_banned_ips@ =~= parse_networks(c.banned_ips@));
        c
    }

    /// Parses the banned IPs again: the ranges are those of the entries that
    /// are networks (a bare address is a range of one).
    pub fn update_parsed_ips(&mut self)
        ensures
            final(self).wf(),
            final(self).banned_ips@ == old(self).banned_ips@,
            final(self).banned_names@ == old(self).banned_names@,
            final(self).banned_uuids@ == old(self).banned_uuids@,
            final(self).banned_asns@ == old(self).banned_asns@,
    {
        let mut parsed: Vec<IpNet> = Vec::new();
        let n = self.banned_ips.len();
        let mut i: usize = 0;
        while i < n
            invariant
                i <= n,
                n == self.banned_ips@.len(),
                parsed@ == parse_networks(self.banned_ips@.take(i as int)),
                forall|j: int| 0 <= j < parsed@.len() ==> ip_net_wf(#[trigger] parsed@[j]),
            decreases n - i,
        {
            let entry = self.banned_ips.get(i);
            proof {
                assert(self.banned_ips@.take(i + 1).drop_last() =~= self.banned_ips@.take(i as int));
                assert(self.banned_ips@.take(i + 1).last() == self.banned_ips@[i as int]);
            }
            match parse_ip_network(entry.as_str()) {
                Some(net) => {
                    parsed.push(net);
                },
                None => {},
            }
            i = i + 1;
        }
        assert(self.banned_ips@.take(n as int) =~= self.banned_ips@);
        self.parsed_banned_ips = parsed;
    }

    /// Applies a console command: `command` is lower-cased and its first
    /// argument, if any, is what gets (un)banned. When the lists changed,
    /// the ranges are parsed again. Says whether the lists changed, so that
    /// they get saved.
    pub fn apply_command(&mut self, command: &str, args: &[String]) -> (changed: bool)
        requires
            old(self).wf(),
        ensures
            final(self).wf(),
            (final(self).lists(), changed) == spec_apply_command(
                old(self).lists(),
                lowercase_of(command@),
                if args@.len() > 0 {
                    Some(args@[0]@)
                } else {
                    None
                },
            ),
            is_ascii_chars(command@) ==> (final(self).lists(), changed) == spec_apply_command(
                old(self).lists(),
                command@.map_values(|c: char| ascii_lower(c)),
                if args@.len() > 0 {
                    Some(args@[0]@)
                } else {
                    None
                },
            ),
    {
        let cmd = to_lowercase(command);
        if args.len() == 0 {
            return false;
        }
        let arg: &String = &args[0];
        let changed = if cmd == owned(CMD_BANIP) {
            self.banned_ips.insert(arg.clone());
            true
        } else if cmd == owned(CMD_UNBANIP) {
            self.banned_ips.remove(arg)
        } else if cmd == owned(CMD_BANUSER) {
            self.banned_names.insert(to_lowercase(arg.as_str()));
            true
        } else if cmd == owned(CMD_UNBANUSER) {
            self.banned_names.remove(&to_lowercase(arg.as_str()))
        } else if cmd == owned(CMD_BANUUID) {
            self.banned_uuids.insert(to_lowercase(arg.as_str()));
            true
        } else if cmd == owned(CMD_UNBANUUID) {
            self.banned_uuids.remove(&to_lowercase(arg.as_str()))
        } else if cmd == owned(CMD_BANASN) {
            self.banned_asns.insert(arg.clone());
            true
        } else if cmd == owned(CMD_UNBANASN) {
            self.banned_asns.remove(arg)
        } else {
            false
        };
        proof {
            let a = args@[0]@;
            let old_lists = old(self).lists();
            let new_lists = self.lists();
            assert(new_lists.ips =~= spec_apply_command(old_lists, cmd@, Some(a)).0.ips);
            assert(new_lists.names =~= spec_apply_command(old_lists, cmd@, Some(a)).0.names);
            assert(new_lists.uuids =~= spec_apply_command(old_lists, cmd@, Some(a)).0.uuids);
            assert(new_lists.asns =~= spec_apply_command(old_lists, cmd@, Some(a)).0.asns);
        }
        if changed {
            self.update_parsed_ips();
        }
        changed
    }

    /// Decides whether a client may log in, or why not (see
    /// `spec_check_login`). `ip` is the client's IP as text, `addr` the
    /// address it denotes, `name` the player name, `uuid` the UUID it logs in
    /// with, `asn` the label of the client's network when the database knows
    /// it.
    pub fn check_login(
        &self,
        ip: &String,
        addr: Option<IpValue>,
        name: &str,
        uuid: &[u8; 16],
        asn: Option<&String>,
    ) -> (r: Option<BanReason>)
        requires
            self.wf(),
        ensures
            r == spec_check_login(
                self.lists(),
                self.parsed_banned_ips@,
                ip@,
                addr,
                name@,
                uuid@,
                match asn {
                    Some(x) => Some(x@),
                    None => None,
                },
            ),
    {
        if self.banned_ips.contains(ip) {
            return Some(BanReason::Ip);
        }
        match addr {
            Some(a) => {
                let mut i: usize = 0;
                while i < self.parsed_banned_ips.len()
                    invariant
                        i <= self.parsed_banned_ips@.len(),
                        !self.banned_ips@.contains(ip@),
                        addr == Some(a),
                        forall|j: int| 0 <= j < self.parsed_banned_ips@.len() ==> ip_net_wf(
                            #[trigger] self.parsed_banned_ips@[j],
                        ),
                        forall|j: int| 0 <= j < i ==> !net_contains(
                            #[trigger] self.parsed_banned_ips@[j],
                            a,
                        ),
                    decreases self.parsed_banned_ips.len() - i,
                {
                    if network_contains(&self.parsed_banned_ips[i], &a) {
                        assert(net_contains(self.parsed_banned_ips@[i as int], a));
                        assert(any_contains(self.parsed_banned_ips@, a));
                        return Some(BanReason::IpRange);
                    }
                    i = i + 1;
                }
            },
            None => {},
        }
        let lower = to_lowercase(name);
        if self.banned_names.contains(&lower) {
            return Some(BanReason::Account);
        }
        let hyphenated = uuid_hyphenated(uuid);
        let simple = uuid_simple(uuid);
        if self.banned_uuids.contains(&hyphenated) {
            assert(uuid_texts(uuid@).contains(hyphenated@));
            return Some(BanReason::Uuid);
        }
        if self.banned_uuids.contains(&simple) {
            assert(uuid_texts(uuid@).contains(simple@));
            return Some(BanReason::Uuid);
        }
        match asn {
            Some(x) => {
                if self.banned_asns.contains(x) {
                    return Some(BanReason::Network);
                }
            },
            None => {},
        }
        None
    }
}

impl Default for BbobConfig {
    /// No bans.
    fn default() -> (c: BbobConfig)
        ensures
            c.wf(),
            c.banned_ips@ == Seq::<Seq<char>>::empty(),
            c.banned_names@ == Seq::<Seq<char>>::empty(),
            c.banned_uuids@ == Seq::<Seq<char>>::empty(),
            c.banned_asns@ == Seq::<Seq<char>>::empty(),
    {
        BbobConfig::new()
    }
}

/// The eight commands are different words.
pub proof fn lemma_commands_distinct()
    ensures
        CMD_BANIP@ != CMD_UNBANIP@,
        CMD_BANIP@ != CMD_BANUSER@,
        CMD_BANIP@ != CMD_UNBANUSER@,
        CMD_BANIP@ != CMD_BANUUID@,
        CMD_BANIP@ != CMD_UNBANUUID@,
        CMD_BANIP@ != CMD_BANASN@,
        CMD_BANIP@ != CMD_UNBANASN@,
        CMD_UNBANIP@ != CMD_BANUSER@,
        CMD_UNBANIP@ != CMD_UNBANUSER@,
        CMD_UNBANIP@ != CMD_BANUUID@,
        CMD_UNBANIP@ != CMD_UNBANUUID@,
        CMD_UNBANIP@ != CMD_BANASN@,
        CMD_UNBANIP@ != CMD_UNBANASN@,
        CMD_BANUSER@ != CMD_UNBANUSER@,
        CMD_BANUSER@ != CMD_BANUUID@,
        CMD_BANUSER@ != CMD_UNBANUUID@,
        CMD_BANUSER@ != CMD_BANASN@,
        CMD_BANUSER@ != CMD_UNBANASN@,
        CMD_UNBANUSER@ != CMD_BANUUID@,
        CMD_UNBANUSER@ != CMD_UNBANUUID@,
        CMD_UNBANUSER@ != CMD_BANASN@,
        CMD_UNBANUSER@ != CMD_UNBANASN@,
        CMD_BANUUID@ != CMD_UNBANUUID@,
        CMD_BANUUID@ != CMD_BANASN@,
        CMD_BANUUID@ != CMD_UNBANASN@,
        CMD_UNBANUUID@ != CMD_BANASN@,
        CMD_UNBANUUID@ != CMD_UNBANASN@,
        CMD_BANASN@ != CMD_UNBANASN@,
{
    reveal_strlit("banip");
    reveal_strlit("unbanip");
    reveal_strlit("banuser");
    reveal_strlit("unbanuser");
    reveal_strlit("banuuid");
    reveal_strlit("unbanuuid");
    reveal_strlit("banasn");
    reveal_strlit("unbanasn");
    broadcast use vstd::string::group_string_axioms;
    assert(CMD_BANIP@.len() == 5);
    assert(CMD_UNBANIP@.len() == 7);
    assert(CMD_BANUSER@.len() == 7);
    assert(CMD_UNBANUSER@.len() == 9);
    assert(CMD_BANUUID@.len() == 7);
    assert(CMD_UNBANUUID@.len() == 9);
    assert(CMD_BANASN@.len() == 6);
    assert(CMD_UNBANASN@.len() == 8);
    assert(CMD_UNBANIP@[0] != CMD_BANUSER@[0]);
    assert(CMD_UNBANIP@[0] != CMD_BANUUID@[0]);
    assert(CMD_BANUSER@[4] != CMD_BANUUID@[4]);
    assert(CMD_UNBANUSER@[6] != CMD_UNBANUUID@[6]);
}

/// After `banip x`, a client whose IP is `x` is refused for its IP.
pub proof fn lemma_banned_ip_refused(
    b: BanLists,
    x: Seq<char>,
    nets: Seq<IpNet>,
    addr: Option<IpValue>,
    name: Seq<char>,
    uuid: Seq<u8>,
    asn: Option<Seq<char>>,
)
    ensures
        spec_check_login(spec_apply_command(b, CMD_BANIP@, Some(x)).0, nets, x, addr, name, uuid, asn)
            == Some(BanReason::Ip),
{
}

/// After `unbanip x`, `x` is off the IP list, and the command counts as a
/// change exactly when `x` was on it.
pub proof fn lemma_unban_ip(b: BanLists, x: Seq<char>)
    ensures
        !spec_apply_command(b, CMD_UNBANIP@, Some(x)).0.ips.contains(x),
        spec_apply_command(b, CMD_UNBANIP@, Some(x)).1 == b.ips.contains(x),
{
    lemma_commands_distinct();
}

/// Banning an IP, then unbanning it, leaves the IP list without it and the
/// other lists as they were.
pub proof fn lemma_ban_then_unban_ip(b: BanLists, x: Seq<char>)
    ensures
        ({
            let after = spec_apply_command(
                spec_apply_command(b, CMD_BANIP@, Some(x)).0,
                CMD_UNBANIP@,
                Some(x),
            ).0;
            &&& after.ips == b.ips.remove(x)
            &&& after.names == b.names
            &&& after.uuids == b.uuids
            &&& after.asns == b.asns
        }),
{
    lemma_commands_distinct();
    assert(b.ips.insert(x).remove(x) =~= b.ips.remove(x));
}

/// After `banuser n`, a player named `n` (in any case that lower-cases the
/// same) is refused.
pub proof fn lemma_banned_user_refused(
    b: BanLists,
    n: Seq<char>,
    nets: Seq<IpNet>,
    ip: Seq<char>,
    addr: Option<IpValue>,
    name: Seq<char>,
    uuid: Seq<u8>,
    asn: Option<Seq<char>>,
)
    requires
        lowercase_of(name) == lowercase_of(n),
    ensures
        spec_check_login(spec_apply_command(b, CMD_BANUSER@, Some(n)).0, nets, ip, addr, name, uuid, asn)
            is Some,
{
    lemma_commands_distinct();
}

/// After `banasn a`, a client whose network is `a` is refused.
pub proof fn lemma_banned_network_refused(
    b: BanLists,
    a: Seq<char>,
    nets: Seq<IpNet>,
    ip: Seq<char>,
    addr: Option<IpValue>,
    name: Seq<char>,
    uuid: Seq<u8>,
)
    ensures
        spec_check_login(
            spec_apply_command(b, CMD_BANASN@, Some(a)).0,
            nets,
            ip,
            addr,
            name,
            uuid,
            Some(a),
        ) is Some,
{
    lemma_commands_distinct();
}

/// A client whose address lies in a banned range is refused.
pub proof fn lemma_banned_range_refused(
    b: BanLists,
    nets: Seq<IpNet>,
    k: int,
    ip: Seq<char>,
    a: IpValue,
    name: Seq<char>,
    uuid: Seq<u8>,
    asn: Option<Seq<char>>,
)
    requires
        0 <= k < nets.len(),
        net_contains(nets[k], a),
    ensures
        spec_check_login(b, nets, ip, Some(a), name, uuid, asn) is Some,
{
}

/// A client on no list, whose address is in no banned range, may log in.
pub proof fn lemma_clean_client_allowed(
    b: BanLists,
    nets: Seq<IpNet>,
    ip: Seq<char>,
    addr: Option<IpValue>,
    name: Seq<char>,
    uuid: Seq<u8>,
    asn: Option<Seq<char>>,
)
    requires
        !b.ips.contains(ip),
        addr matches Some(a) ==> !any_contains(nets, a),
        !b.names.contains(lowercase_of(name)),
        !b.uuids.contains(decode_utf8(uuid_hyphenated_bytes(uuid))),
        !b.uuids.contains(decode_utf8(hex_bytes(uuid))),
        asn matches Some(x) ==> !b.asns.contains(x),
    ensures
        spec_check_login(b, nets, ip, addr, name, uuid, asn) is None,
{
}

/// After `banuuid t`, a player whose UUID reads `t` in lower case
/// (hyphenated or as bare digits) is refused.
pub proof fn lemma_banned_uuid_refused(
    b: BanLists,
    t: Seq<char>,
    nets: Seq<IpNet>,
    ip: Seq<char>,
    addr: Option<IpValue>,
    name: Seq<char>,
    uuid: Seq<u8>,
    asn: Option<Seq<char>>,
)
    requires
        lowercase_of(t) == decode_utf8(uuid_hyphenated_bytes(uuid)) || lowercase_of(t)
            == decode_utf8(hex_bytes(uuid)),
    ensures
        spec_check_login(spec_apply_command(b, CMD_BANUUID@, Some(t)).0, nets, ip, addr, name, uuid, asn)
            is Some,
{
    lemma_commands_distinct();
    let after = spec_apply_command(b, CMD_BANUUID@, Some(t)).0;
    assert(after.uuids.contains(lowercase_of(t)));
    assert(uuid_texts(uuid).contains(lowercase_of(t)));
}

/// A command that is not one of the eight, or has no argument, changes
/// nothing.
pub proof fn lemma_other_commands_change_nothing(b: BanLists, cmd: Seq<char>, arg: Option<Seq<char>>)
    requires
        arg is None || (cmd != CMD_BANIP@ && cmd != CMD_UNBANIP@ && cmd != CMD_BANUSER@ && cmd
            != CMD_UNBANUSER@ && cmd != CMD_BANUUID@ && cmd != CMD_UNBANUUID@ && cmd != CMD_BANASN@
            && cmd != CMD_UNBANASN@),
    ensures
        spec_apply_command(b, cmd, arg) == (b, false),
{
}

/// Unbanning a user undoes banning it, whatever the letter case of either
/// command's argument: the name leaves the list, the unban counts as a
/// change, and the other lists stay as they were.
pub proof fn lemma_unban_user_any_case(b: BanLists, n: Seq<char>, n2: Seq<char>)
    requires
        lowercase_of(n2) == lowercase_of(n),
    ensures
        ({
            let banned = spec_apply_command(b, CMD_BANUSER@, Some(n)).0;
            let (after, changed) = spec_apply_command(banned, CMD_UNBANUSER@, Some(n2));
            &&& banned.names.contains(lowercase_of(n))
            &&& after.names == b.names.remove(lowercase_of(n))
            &&& changed
            &&& after.ips == b.ips
            &&& after.uuids == b.uuids
            &&& after.asns == b.asns
        }),
{
    lemma_commands_distinct();
    assert(b.names.insert(lowercase_of(n)).remove(lowercase_of(n)) =~= b.names.remove(lowercase_of(n)));
}

/// Unbanning a UUID undoes banning it, whatever the letter case of either
/// command's argument.
pub proof fn lemma_unban_uuid_any_case(b: BanLists, u: Seq<char>, u2: Seq<char>)
    requires
        lowercase_of(u2) == lowercase_of(u),
    ensures
        ({
            let banned = spec_apply_command(b, CMD_BANUUID@, Some(u)).0;
            let (after, changed) = spec_apply_command(banned, CMD_UNBANUUID@, Some(u2));
            &&& banned.uuids.contains(lowercase_of(u))
            &&& after.uuids == b.uuids.remove(lowercase_of(u))
            &&& changed
            &&& after.ips == b.ips
            &&& after.names == b.names
            &&& after.asns == b.asns
        }),
{
    lemma_commands_distinct();
    assert(b.uuids.insert(lowercase_of(u)).remove(lowercase_of(u)) =~= b.uuids.remove(lowercase_of(u)));
}

} // verus!
