//! The MOTD plugin: what the server list shows (message of the day, player
//! counts, icon) by protocol version and location, and which protocol
//! versions may log in.

use vstd::prelude::*;
use crate::ip_info::{GeoInfo, GeoView};
use crate::random::random_below;
use crate::text::{before_char, split_first, owned};
use vstd::string::StringExecFns;
use base64::Engine;

verus! {

/// A message of the day for one protocol version, optionally only for
/// clients from one country, region or city.
#[derive(Debug)]
pub struct MotdEntry {
    pub protocol: i32,
    pub texts: Vec<String>,
    pub country: Option<String>,
    pub region: Option<String>,
    pub city: Option<String>,
}

/// The plugin's settings.
#[derive(Debug)]
pub struct MotdConfig {
    pub motds: Vec<MotdEntry>,
    pub default_motds: Vec<String>,
    pub max_players: i32,
    pub fake_online: bool,
    pub fake_online_count: i32,
    /// Player limits by host name; where a host is listed twice, the first
    /// entry counts.
    pub per_server_limits: Vec<(String, i32)>,
    pub icons: Vec<String>,
    pub allowed_protocols: Vec<i32>,
    pub denied_protocols: Vec<i32>,
}

/// The version name that the server list shows.
pub const VERSION_NAME: &'static str = "TransferProxyRS";

/// The message shown when no MOTD is configured at all.
pub const FALLBACK_MOTD: &'static str = "TransferProxyRS";

/// The kick message for a protocol version that may not log in.
pub const VERSION_DENIED_MESSAGE: &'static str =
    "Your Minecraft version is not permitted on this server.";

/// An entry's location filter passes when it is unset, or when the client's
/// location is known and the same.
pub open spec fn location_ok(want: Option<String>, have: Option<Seq<char>>) -> bool {
    match want {
        Some(w) => have == Some(w@),
        None => true,
    }
}

/// Whether `e` applies to a client of `protocol` at `geo`.
pub open spec fn entry_matches(e: MotdEntry, protocol: i32, geo: GeoView) -> bool {
    &&& e.protocol == protocol
    &&& location_ok(e.country, geo.country)
    &&& location_ok(e.region, geo.region)
    &&& location_ok(e.city, geo.city)
}

/// The positions, in order, of the entries that apply.
pub open spec fn matching_motds(motds: Seq<MotdEntry>, protocol: i32, geo: GeoView) -> Seq<int>
    decreases motds.len(),
{
    if motds.len() == 0 {
        seq![]
    } else {
        let rest = matching_motds(motds.drop_last(), protocol, geo);
        if entry_matches(motds.last(), protocol, geo) {
            rest.push(motds.len() - 1)
        } else {
            rest
        }
    }
}

/// The limit listed for `host`, if any.
pub open spec fn limit_lookup(limits: Seq<(String, i32)>, host: Seq<char>) -> Option<i32>
    decreases limits.len(),
{
    if limits.len() == 0 {
        None
    } else if limits[0].0@ == host {
        Some(limits[0].1)
    } else {
        limit_lookup(limits.drop_first(), host)
    }
}

/// Whether a client of `protocol` asking for `next_state` (2: login, 3:
/// transfer) is turned away: its version is on a non-empty deny list, or
/// missing from a non-empty allow list.
pub open spec fn spec_denies(c: MotdConfig, protocol: i32, next_state: i32) -> bool {
    &&& next_state == 2 || next_state == 3
    &&& (c.denied_protocols@.len() > 0 && c.denied_protocols@.contains(protocol)) || (
    c.allowed_protocols@.len() > 0 && !c.allowed_protocols@.contains(protocol))
}

/// The random choices behind one status reply.
pub struct StatusDraws {
    /// Added to the fake player count; between -5 and 5.
    pub jitter: i32,
    /// Which applicable entry (or default message) is shown.
    pub motd_pick: usize,
    /// Which text of the chosen entry is shown.
    pub text_pick: usize,
    /// Which icon is shown.
    pub icon_pick: usize,
}

/// The draws fall in the ranges they are drawn from: each pick is a
/// position in the list it picks from, where that list is not empty.
pub open spec fn draws_ok(c: MotdConfig, protocol: i32, geo: GeoView, d: StatusDraws) -> bool {
    let m = matching_motds(c.motds@, protocol, geo);
    &&& -5 <= d.jitter <= 5
    &&& if m.len() == 0 {
        c.default_motds@.len() > 0 ==> d.motd_pick < c.default_motds@.len()
    } else {
        &&& d.motd_pick < m.len()
        &&& c.motds@[m[d.motd_pick as int]].texts@.len() > 0 ==> d.text_pick < c.motds@[m[d.motd_pick as int]].texts@.len()
    }
    &&& c.icons@.len() > 0 ==> d.icon_pick < c.icons@.len()
}

/// What the server list shows.
pub struct StatusReply {
    pub max_players: i32,
    pub online_players: i32,
    pub motd: String,
    pub favicon: Option<String>,
}

/// The player limit for a status request that named `hostname`: the limit
/// listed for its host part (before any `:`), else the configured maximum.
pub open spec fn spec_max_players(c: MotdConfig, hostname: Seq<char>) -> i32 {
    match limit_lookup(c.per_server_limits@, before_char(hostname, ':')) {
        Some(l) => l,
        None => c.max_players,
    }
}

/// The online count: the fake count moved by the jitter and kept at zero or
/// above when fake counts are on, else zero.
pub open spec fn spec_online(c: MotdConfig, jitter: i32) -> int {
    if c.fake_online {
        if c.fake_online_count + jitter < 0 {
            0
        } else {
            c.fake_online_count + jitter
        }
    } else {
        0
    }
}

/// The message shown: a text of the picked applicable entry (empty when the
/// entry has none); with no applicable entry, the picked default message, or
/// `FALLBACK_MOTD` when there are none.
pub open spec fn spec_motd(c: MotdConfig, protocol: i32, geo: GeoView, d: StatusDraws) -> Seq<char> {
    let m = matching_motds(c.motds@, protocol, geo);
    if m.len() == 0 {
        if c.default_motds@.len() == 0 {
            FALLBACK_MOTD@
        } else {
            c.default_motds@[d.motd_pick as int]@
        }
    } else {
        let e = c.motds@[m[d.motd_pick as int]];
        if e.texts@.len() == 0 {
            Seq::<char>::empty()
        } else {
            e.texts@[d.text_pick as int]@
        }
    }
}

/// The icon shown: the picked one, if there are any and it is not empty.
pub open spec fn spec_favicon(c: MotdConfig, d: StatusDraws) -> Option<Seq<char>> {
    if c.icons@.len() == 0 {
        None
    } else {
        let icon = c.icons@[d.icon_pick as int]@;
        if icon.len() == 0 {
            None
        } else {
            Some(icon)
        }
    }
}

/// The reply to a status request, for these draws.
pub open spec fn reply_is(
    r: StatusReply,
    c: MotdConfig,
    protocol: i32,
    hostname: Seq<char>,
    geo: GeoView,
    d: StatusDraws,
) -> bool {
    &&& r.max_players == spec_max_players(c, hostname)
    &&& r.online_players == spec_online(c, d.jitter)
    &&& r.motd@ == spec_motd(c, protocol, geo, d)
    &&& match r.favicon {
        Some(f) => spec_favicon(c, d) == Some(f@),
        None => spec_favicon(c, d) is None,
    }
}

impl MotdConfig {
    /// Whether a client of `protocol` asking for `next_state` is turned away
    /// (see `spec_denies`).
    pub fn denies(&self, protocol: i32, next_state: i32) -> (r: bool)
        ensures
            r == spec_denies(*self, protocol, next_state),
    {
        if !(next_state == 2 || next_state == 3) {
            return false;
        }
        let denied = self.denied_protocols.len() > 0 && contains_i32(&self.denied_protocols, protocol);
        let not_allowed = self.allowed_protocols.len() > 0 && !contains_i32(
            &self.allowed_protocols,
            protocol,
        );
        denied || not_allowed
    }

    /// The player limit for a status request that named `hostname`.
    pub fn max_players_for(&self, hostname: &str) -> (r: i32)
        ensures
            r == spec_max_players(*self, hostname@),
    {
        let host = owned(split_first(hostname, ':'));
        let n = self.per_server_limits.len();
        let mut i: usize = 0;
        assert(self.per_server_limits@.skip(0) =~= self.per_server_limits@);
        while i < n
            invariant
                i <= n,
                n == self.per_server_limits@.len(),
                host@ == before_char(hostname@, ':'),
                limit_lookup(self.per_server_limits@, host@) == limit_lookup(
                    self.per_server_limits@.skip(i as int),
                    host@,
                ),
            decreases n - i,
        {
            assert(self.per_server_limits@.skip(i as int).drop_first() =~= self.per_server_limits@.skip(
                i + 1,
            ));
            if self.per_server_limits[i].0 == host {
                return self.per_server_limits[i].1;
            }
            i = i + 1;
        }
        self.max_players
    }

    /// The positions of the entries that apply to a client of `protocol`
    /// at `geo`.
    fn matching(&self, protocol: i32, geo: &GeoInfo) -> (r: Vec<usize>)
        ensures
            r@.len() == matching_motds(self.motds@, protocol, geo@).len(),
            forall|k: int|
                0 <= k < r@.len() ==> r@[k] as int == matching_motds(self.motds@, protocol, geo@)[k],
            forall|k: int| 0 <= k < r@.len() ==> r@[k] < self.motds@.len(),
    {
        let mut r: Vec<usize> = Vec::new();
        let n = self.motds.len();
        let mut i: usize = 0;
        while i < n
            invariant
                i <= n,
                n == self.motds@.len(),
                r@.len() == matching_motds(self.motds@.take(i as int), protocol, geo@).len(),
                forall|k: int|
                    0 <= k < r@.len() ==> r@[k] as int == matching_motds(
                        self.motds@.take(i as int),
                        protocol,
                        geo@,
                    )[k],
                forall|k: int| 0 <= k < r@.len() ==> r@[k] < i,
            decreases n - i,
        {
            proof {
                assert(self.motds@.take(i + 1).drop_last() =~= self.motds@.take(i as int));
                assert(self.motds@.take(i + 1).last() == self.motds@[i as int]);
            }
            if self.entry_applies(i, protocol, geo) {
                r.push(i);
            }
            i = i + 1;
        }
        assert(self.motds@.take(n as int) =~= self.motds@);
        r
    }

    fn entry_applies(&self, i: usize, protocol: i32, geo: &GeoInfo) -> (r: bool)
        requires
            i < self.motds@.len(),
        ensures
            r == entry_matches(self.motds@[i as int], protocol, geo@),
    {
        let e = &self.motds[i];
        e.protocol == protocol && location_matches(&e.country, &geo.country) && location_matches(
            &e.region,
            &geo.region,
        ) && location_matches(&e.city, &geo.city)
    }

    /// The reply to a status request for these draws.
    pub fn compose_status(&self, protocol: i32, hostname: &str, geo: &GeoInfo, d: &StatusDraws) -> (r:
        StatusReply)
        requires
            draws_ok(*self, protocol, geo@, *d),
            self.fake_online ==> i32::MIN <= self.fake_online_count + d.jitter <= i32::MAX,
        ensures
            reply_is(r, *self, protocol, hostname@, geo@, *d),
    {
        let max_players = self.max_players_for(hostname);
        let online_players = if self.fake_online {
            let v = self.fake_online_count + d.jitter;
            if v < 0 {
                0
            } else {
                v
            }
        } else {
            0
        };
        let m = self.matching(protocol, geo);
        let motd = if m.len() == 0 {
            if self.default_motds.len() == 0 {
                owned(FALLBACK_MOTD)
            } else {
                self.default_motds[d.motd_pick].clone()
            }
        } else {
            let e = &self.motds[m[d.motd_pick]];
            if e.texts.len() == 0 {
                String::new()
            } else {
                e.texts[d.text_pick].clone()
            }
        };
        let favicon = if self.icons.len() == 0 {
            None
        } else {
            let icon = &self.icons[d.icon_pick];
            if icon.as_str().is_empty() {
                None
            } else {
                Some(icon.clone())
            }
        };
        StatusReply { max_players, online_players, motd, favicon }
    }

    /// The reply to a status request, with fresh random choices. The online
    /// count's jitter, the message and the icon are drawn uniformly from
    /// their ranges.
    pub fn status_reply(&self, protocol: i32, hostname: &str, geo: &GeoInfo) -> (r: StatusReply)
        requires
            self.fake_online ==> i32::MIN + 5 <= self.fake_online_count <= i32::MAX - 5,
        ensures
            exists|d: StatusDraws|
                draws_ok(*self, protocol, geo@, d) && reply_is(r, *self, protocol, hostname@, geo@, d),
    {
        let jitter: i32 = if self.fake_online {
            (random_below(11) as i32) - 5
        } else {
            0
        };
        let m = self.matching(protocol, geo);
        let mut motd_pick: usize = 0;
        let mut text_pick: usize = 0;
        if m.len() == 0 {
            if self.default_motds.len() > 0 {
                motd_pick = random_below(self.default_motds.len() as u64) as usize;
            }
        } else {
            motd_pick = random_below(m.len() as u64) as usize;
            let texts = self.motds[m[motd_pick]].texts.len();
            if texts > 0 {
                text_pick = random_below(texts as u64) as usize;
            }
        }
        let icon_pick: usize = if self.icons.len() > 0 {
            random_below(self.icons.len() as u64) as usize
        } else {
            0
        };
        let d = StatusDraws { jitter, motd_pick, text_pick, icon_pick };
        let r = self.compose_status(protocol, hostname, geo, &d);
        assert(draws_ok(*self, protocol, geo@, d) && reply_is(r, *self, protocol, hostname@, geo@, d));
        r
    }
}

/// Whether `v` holds `x`.
fn contains_i32(v: &Vec<i32>, x: i32) -> (r: bool)
    ensures
        r == v@.contains(x),
{
    let mut i: usize = 0;
    while i < v.len()
        invariant
            i <= v@.len(),
            forall|j: int| 0 <= j < i ==> v@[j] != x,
        decreases v.len() - i,
    {
        if v[i] == x {
            assert(v@[i as int] == x);
            return true;
        }
        i = i + 1;
    }
    false
}

/// Whether a location filter passes (see `location_ok`).
fn location_matches(want: &Option<String>, have: &Option<String>) -> (r: bool)
    ensures
        r == location_ok(*want, crate::ip_info::opt_str_view(*have)),
{
    match want {
        Some(w) => match have {
            Some(h) => *w == *h,
            None => false,
        },
        None => true,
    }
}

impl Default for MotdConfig {
    /// Two messages for 1.20.5 and one for 1.21, two default messages, up to
    /// 1000 players with 50 (fake) online, 100 players on
    /// `hub.example.com`, no icons, no protocol restrictions.
    fn default() -> (c: MotdConfig)
        ensures
            c.motds@.len() == 2,
            c.motds@[0].protocol == 766,
            c.motds@[0].texts@.len() == 2,
            c.motds@[0].texts@[0]@ == "Welcome to TransferProxyRS (1.20.5)"@,
            c.motds@[0].texts@[1]@ == "Random MOTD 1"@,
            c.motds@[0].country is None && c.motds@[0].region is None && c.motds@[0].city is None,
            c.motds@[1].protocol == 767,
            c.motds@[1].texts@.len() == 1,
            c.motds@[1].texts@[0]@ == "Welcome to TransferProxyRS (1.21)"@,
            c.motds@[1].country is None && c.motds@[1].region is None && c.motds@[1].city is None,
            c.default_motds@.len() == 2,
            c.default_motds@[0]@ == "A TransferProxyRS server"@,
            c.default_motds@[1]@ == "Another Default MOTD"@,
            c.max_players == 1000,
            c.fake_online,
            c.fake_online_count == 50,
            c.per_server_limits@.len() == 1,
            c.per_server_limits@[0].0@ == "hub.example.com"@,
            c.per_server_limits@[0].1 == 100,
            c.icons@.len() == 0,
            c.allowed_protocols@.len() == 0,
            c.denied_protocols@.len() == 0,
    {
        let first = MotdEntry {
            protocol: 766,
            texts: vec![owned("Welcome to TransferProxyRS (1.20.5)"), owned("Random MOTD 1")],
            country: None,
            region: None,
            city: None,
        };
        let second = MotdEntry {
            protocol: 767,
            texts: vec![owned("Welcome to TransferProxyRS (1.21)")],
            country: None,
            region: None,
            city: None,
        };
        MotdConfig {
            motds: vec![first, second],
            default_motds: vec![owned("A TransferProxyRS server"), owned("Another Default MOTD")],
            max_players: 1000,
            fake_online: true,
            fake_online_count: 50,
            per_server_limits: vec![(owned("hub.example.com"), 100)],
            icons: Vec::new(),
            allowed_protocols: Vec::new(),
            denied_protocols: Vec::new(),
        }
    }
}

/// The base64 digit for the six-bit value `n`: `A`-`Z`, `a`-`z`, `0`-`9`,
/// `+`, `/` (RFC 4648).
pub open spec fn base64_digit(n: int) -> char {
    if n < 26 {
        (65 + n) as char
    } else if n < 52 {
        (71 + n) as char
    } else if n < 62 {
        (n - 4) as char
    } else if n == 62 {
        '+'
    } else {
        '/'
    }
}

/// Standard base64 of `data` (RFC 4648): each group of three bytes becomes
/// four digits of six bits each, high bits first; a last group of one or
/// two bytes is padded with zero bits and `=`.
pub open spec fn base64_standard_of(data: Seq<u8>) -> Seq<char>
    decreases data.len(),
{
    if data.len() == 0 {
        seq![]
    } else if data.len() == 1 {
        let a = data[0] as int;
        seq![base64_digit(a / 4), base64_digit(a % 4 * 16), '=', '=']
    } else if data.len() == 2 {
        let (a, b) = (data[0] as int, data[1] as int);
        seq![base64_digit(a / 4), base64_digit(a % 4 * 16 + b / 16), base64_digit(b % 16 * 4), '=']
    } else {
        let (a, b, c) = (data[0] as int, data[1] as int, data[2] as int);
        seq![
            base64_digit(a / 4),
            base64_digit(a % 4 * 16 + b / 16),
            base64_digit(b % 16 * 4 + c / 64),
            base64_digit(c % 64),
        ] + base64_standard_of(data.skip(3))
    }
}

/// `base64::engine::general_purpose::STANDARD.encode`: the standard base64
/// text of `data`. The crate panics when the encoded length overflows
/// `usize`.
#[verifier::external_body]
fn base64_standard(data: &[u8]) -> (r: String)
    requires
        data@.len() / 3 * 4 + (if data@.len() % 3 == 0 { 0int } else { 4int }) <= usize::MAX,
    ensures
        r@ == base64_standard_of(data@),
{
    base64::engine::general_purpose::STANDARD.encode(data)
}

/// What goes before the base64 of a PNG icon in a status response.
pub const PNG_DATA_URI_PREFIX: &'static str = "data:image/png;base64,";

/// The data URI of the PNG image `png`, as the server list takes an icon.
pub fn icon_data_uri(png: &[u8]) -> (s: String)
    requires
        png@.len() / 3 * 4 + (if png@.len() % 3 == 0 { 0int } else { 4int }) <= usize::MAX,
    ensures
        s@ == PNG_DATA_URI_PREFIX@ + base64_standard_of(png@),
{
    let encoded = base64_standard(png);
    let mut s = owned(PNG_DATA_URI_PREFIX);
    s.append(encoded.as_str());
    s
}

/// Only logins and transfers can be turned away: a status request never is.
pub proof fn lemma_status_never_denied(c: MotdConfig, protocol: i32, next_state: i32)
    requires
        next_state != 2 && next_state != 3,
    ensures
        !spec_denies(c, protocol, next_state),
{
}

/// With empty allow and deny lists, every version may log in.
pub proof fn lemma_no_lists_no_denial(c: MotdConfig, protocol: i32, next_state: i32)
    requires
        c.allowed_protocols@.len() == 0,
        c.denied_protocols@.len() == 0,
    ensures
        !spec_denies(c, protocol, next_state),
{
}

/// A version on the deny list, or off a non-empty allow list, is turned
/// away at login and transfer.
pub proof fn lemma_listed_version_denied(c: MotdConfig, protocol: i32, next_state: i32)
    requires
        next_state == 2 || next_state == 3,
        c.denied_protocols@.contains(protocol) || (c.allowed_protocols@.len() > 0
            && !c.allowed_protocols@.contains(protocol)),
    ensures
        spec_denies(c, protocol, next_state),
{
}

/// The online count is never negative, and with fake counts on it is
/// within 5 of the configured count (at least 0).
pub proof fn lemma_online_count_bounds(c: MotdConfig, jitter: i32)
    requires
        -5 <= jitter <= 5,
    ensures
        spec_online(c, jitter) >= 0,
        c.fake_online ==> spec_online(c, jitter) <= c.fake_online_count + 5 || spec_online(
            c,
            jitter,
        ) == 0,
        c.fake_online && c.fake_online_count >= 5 ==> c.fake_online_count - 5 <= spec_online(
            c,
            jitter,
        ),
        !c.fake_online ==> spec_online(c, jitter) == 0,
{
}

/// A host listed first among the limits gets its limit, whatever port the
/// client named after it.
pub proof fn lemma_listed_host_limit(c: MotdConfig, hostname: Seq<char>)
    requires
        c.per_server_limits@.len() > 0,
        c.per_server_limits@[0].0@ == before_char(hostname, ':'),
    ensures
        spec_max_players(c, hostname) == c.per_server_limits@[0].1,
{
}

/// The message shown is one of the configured texts of an applicable entry,
/// one of the default messages, or the fallback; the icon is a configured
/// one.
pub proof fn lemma_reply_from_config(c: MotdConfig, protocol: i32, geo: GeoView, d: StatusDraws)
    requires
        draws_ok(c, protocol, geo, d),
    ensures
        ({
            let m = matching_motds(c.motds@, protocol, geo);
            let t = spec_motd(c, protocol, geo, d);
            if m.len() == 0 {
                c.default_motds@.len() == 0 && t == FALLBACK_MOTD@ || exists|i: int|
                    0 <= i < c.default_motds@.len() && #[trigger] c.default_motds@[i]@ == t
            } else {
                entry_matches(c.motds@[m[d.motd_pick as int]], protocol, geo)
            }
        }),
        spec_favicon(c, d) matches Some(f) ==> exists|i: int|
            0 <= i < c.icons@.len() && #[trigger] c.icons@[i]@ == f,
{
    lemma_matching_motds(c.motds@, protocol, geo);
    let m = matching_motds(c.motds@, protocol, geo);
    if m.len() == 0 && c.default_motds@.len() > 0 {
        assert(c.default_motds@[d.motd_pick as int]@ == spec_motd(c, protocol, geo, d));
    }
    if spec_favicon(c, d) is Some {
        assert(c.icons@[d.icon_pick as int]@ == spec_favicon(c, d).unwrap());
    }
}

/// The listed positions are those of applicable entries.
pub proof fn lemma_matching_motds(motds: Seq<MotdEntry>, protocol: i32, geo: GeoView)
    ensures
        forall|k: int|
            0 <= k < matching_motds(motds, protocol, geo).len() ==> {
                let i = #[trigger] matching_motds(motds, protocol, geo)[k];
                0 <= i < motds.len() && entry_matches(motds[i], protocol, geo)
            },
    decreases motds.len(),
{
    if motds.len() > 0 {
        lemma_matching_motds(motds.drop_last(), protocol, geo);
        let rest = matching_motds(motds.drop_last(), protocol, geo);
        assert forall|k: int| 0 <= k < matching_motds(motds, protocol, geo).len() implies {
            let i = #[trigger] matching_motds(motds, protocol, geo)[k];
            0 <= i < motds.len() && entry_matches(motds[i], protocol, geo)
        } by {
            if k < rest.len() {
                let i = rest[k];
                assert(motds.drop_last()[i] == motds[i]);
            }
        }
    }
}

/// An entry is applicable only for its protocol version and for clients
/// at every location it names: where it sets a country, region or city, the
/// client's is that one.
pub proof fn lemma_applicable_entry_fields(motds: Seq<MotdEntry>, protocol: i32, geo: GeoView)
    ensures
        forall|k: int|
            0 <= k < matching_motds(motds, protocol, geo).len() ==> {
                let i = #[trigger] matching_motds(motds, protocol, geo)[k];
                &&& 0 <= i < motds.len()
                &&& motds[i].protocol == protocol
                &&& motds[i].country matches Some(x) ==> geo.country == Some(x@)
                &&& motds[i].region matches Some(x) ==> geo.region == Some(x@)
                &&& motds[i].city matches Some(x) ==> geo.city == Some(x@)
            },
{
    lemma_matching_motds(motds, protocol, geo);
}

/// No entry is applicable when each has another protocol version or names a
/// location the client is not at.
proof fn lemma_no_applicable_entry(motds: Seq<MotdEntry>, protocol: i32, geo: GeoView)
    requires
        forall|i: int|
            0 <= i < motds.len() ==> !(#[trigger] motds[i].protocol == protocol && (
            motds[i].country matches Some(x) ==> geo.country == Some(x@)) && (
            motds[i].region matches Some(x) ==> geo.region == Some(x@)) && (motds[i].city matches Some(
                x,
            ) ==> geo.city == Some(x@))),
    ensures
        matching_motds(motds, protocol, geo).len() == 0,
    decreases motds.len(),
{
    if motds.len() > 0 {
        let last = motds.len() - 1;
        assert(motds.last() == motds[last]);
        assert forall|i: int| 0 <= i < motds.drop_last().len() implies !(
        #[trigger] motds.drop_last()[i].protocol == protocol && (
        motds.drop_last()[i].country matches Some(x) ==> geo.country == Some(x@)) && (
        motds.drop_last()[i].region matches Some(x) ==> geo.region == Some(x@)) && (
        motds.drop_last()[i].city matches Some(x) ==> geo.city == Some(x@))) by {
            assert(motds.drop_last()[i] == motds[i]);
        }
        lemma_no_applicable_entry(motds.drop_last(), protocol, geo);
    }
}

/// A client that no entry fits (each is for another version, or names a
/// country, region or city other than the client's) is shown a default
/// message, or the fallback when there is none.
pub proof fn lemma_unmatched_client_default_motd(
    c: MotdConfig,
    protocol: i32,
    geo: GeoView,
    d: StatusDraws,
)
    requires
        forall|i: int|
            0 <= i < c.motds@.len() ==> !(#[trigger] c.motds@[i].protocol == protocol && (
            c.motds@[i].country matches Some(x) ==> geo.country == Some(x@)) && (
            c.motds@[i].region matches Some(x) ==> geo.region == Some(x@)) && (
            c.motds@[i].city matches Some(x) ==> geo.city == Some(x@))),
    ensures
        spec_motd(c, protocol, geo, d) == if c.default_motds@.len() == 0 {
            FALLBACK_MOTD@
        } else {
            c.default_motds@[d.motd_pick as int]@
        },
{
    lemma_no_applicable_entry(c.motds@, protocol, geo);
}

} // verus!
