//! The transfer plugin: where to send a client once it is ready. Location
//! and network rules come first; otherwise the default server, or a server
//! drawn by weight.

use vstd::prelude::*;
use vstd::string::StrSliceExecFns;
use crate::ip_info::{GeoInfo, GeoView, opt_str_view};
use crate::plugins::motd::location_ok;
use crate::random::random_below;
use crate::text::{before_char, find_from, find_char, split_first, lemma_find_from, owned};

verus! {

/// Send clients that match every set field to `target`.
#[derive(Debug)]
pub struct TransferRule {
    pub target: String,
    pub country: Option<String>,
    pub region: Option<String>,
    pub city: Option<String>,
    pub asn: Option<String>,
}

/// The plugin's settings.
#[derive(Debug)]
pub struct TransferConfig {
    pub default_server: String,
    /// Server addresses (`host:port`) by server name; where a name is listed
    /// twice, the first entry counts.
    pub servers: Vec<(String, String)>,
    /// Fallback weights by server name, laid end to end in order; a name
    /// listed twice gets both shares.
    pub weights: Vec<(String, u32)>,
    pub rules: Vec<TransferRule>,
}

/// The view of an optional network label.
pub open spec fn asn_view(asn: Option<&String>) -> Option<Seq<char>> {
    match asn {
        Some(a) => Some(a@),
        None => None,
    }
}

/// The port used when an address names none, or not a number.
pub const DEFAULT_PORT: i32 = 25565;

/// Whether `r` applies to a client at `geo` in network `asn`.
pub open spec fn rule_matches(r: TransferRule, geo: GeoView, asn: Option<Seq<char>>) -> bool {
    &&& location_ok(r.country, geo.country)
    &&& location_ok(r.region, geo.region)
    &&& location_ok(r.city, geo.city)
    &&& location_ok(r.asn, asn)
}

/// The target of the first rule that applies.
pub open spec fn first_rule_target(rules: Seq<TransferRule>, geo: GeoView, asn: Option<Seq<char>>) -> Option<
    Seq<char>,
>
    decreases rules.len(),
{
    if rules.len() == 0 {
        None
    } else if rule_matches(rules[0], geo, asn) {
        Some(rules[0].target@)
    } else {
        first_rule_target(rules.drop_first(), geo, asn)
    }
}

/// The sum of the weights.
pub open spec fn weights_total(w: Seq<(String, u32)>) -> nat
    decreases w.len(),
{
    if w.len() == 0 {
        0
    } else {
        w[0].1 as nat + weights_total(w.drop_first())
    }
}

/// The server whose share of `0..total` holds `roll`: the weights are laid
/// end to end in order.
pub open spec fn weighted_pick(w: Seq<(String, u32)>, roll: int) -> Option<Seq<char>>
    decreases w.len(),
{
    if w.len() == 0 {
        None
    } else if roll < w[0].1 {
        Some(w[0].0@)
    } else {
        weighted_pick(w.drop_first(), roll - w[0].1)
    }
}

/// Whether the weights decide: no rule applied and there are weights that
/// sum above zero.
pub open spec fn uses_weights(c: TransferConfig, geo: GeoView, asn: Option<Seq<char>>) -> bool {
    &&& first_rule_target(c.rules@, geo, asn) is None
    &&& c.weights@.len() > 0
    &&& weights_total(c.weights@) > 0
}

/// The server a client goes to before the weights are looked at: the first
/// rule that applies, else the default server.
pub open spec fn rule_or_default(c: TransferConfig, geo: GeoView, asn: Option<Seq<char>>) -> Seq<char> {
    match first_rule_target(c.rules@, geo, asn) {
        Some(t) => t,
        None => c.default_server@,
    }
}

/// Whether the weights are looked at: the server so far is the default one
/// (also when a rule names it) and there are weights.
pub open spec fn weights_consulted(c: TransferConfig, geo: GeoView, asn: Option<Seq<char>>) -> bool {
    rule_or_default(c, geo, asn) == c.default_server@ && c.weights@.len() > 0
}

/// The server a client goes to, given the weighted draw `roll`: the first
/// rule that applies, else the default server, which the weights override
/// when they are looked at and sum above zero.
pub open spec fn spec_target(c: TransferConfig, geo: GeoView, asn: Option<Seq<char>>, roll: int) -> Seq<char> {
    let t = rule_or_default(c, geo, asn);
    if weights_consulted(c, geo, asn) && weights_total(c.weights@) > 0 {
        match weighted_pick(c.weights@, roll) {
            Some(s) => s,
            None => t,
        }
    } else {
        t
    }
}

/// The address listed for server `name`, if any.
pub open spec fn server_lookup(servers: Seq<(String, String)>, name: Seq<char>) -> Option<Seq<char>>
    decreases servers.len(),
{
    if servers.len() == 0 {
        None
    } else if servers[0].0@ == name {
        Some(servers[0].1@)
    } else {
        server_lookup(servers.drop_first(), name)
    }
}

/// Whether `c` is one of `0` to `9`.
pub open spec fn is_ascii_digit(c: char) -> bool {
    '0' <= c && c <= '9'
}

/// Whether `s` holds only ASCII digits.
pub open spec fn all_digits(s: Seq<char>) -> bool {
    forall|i: int| 0 <= i < s.len() ==> is_ascii_digit(#[trigger] s[i])
}

/// The number written by the decimal digits `s`.
pub open spec fn digits_value(s: Seq<char>) -> int
    decreases s.len(),
{
    if s.len() == 0 {
        0
    } else {
        digits_value(s.drop_last()) * 10 + (s.last() as int - 48)
    }
}

/// What `str::parse::<i32>` reads: an optional `+` or `-`, then one or more
/// ASCII digits and nothing else, of a value that fits in 32 bits.
pub open spec fn spec_parse_i32(s: Seq<char>) -> Option<i32> {
    let signed = s.len() > 0 && (s[0] == '-' || s[0] == '+');
    let body = if signed { s.skip(1) } else { s };
    let v = if signed && s[0] == '-' { -digits_value(body) } else { digits_value(body) };
    if body.len() == 0 || !all_digits(body) {
        None
    } else if i32::MIN <= v <= i32::MAX {
        Some(v as i32)
    } else {
        None
    }
}

/// The host of an address: what comes before the first `:`.
pub open spec fn address_host(address: Seq<char>) -> Seq<char> {
    before_char(address, ':')
}

/// The port of an address: the piece after the first `:` (up to the next
/// one) read as a number; `DEFAULT_PORT` when there is no `:` or the piece is
/// not a number.
pub open spec fn address_port(address: Seq<char>) -> i32 {
    match find_from(address, 0, ':') {
        None => DEFAULT_PORT,
        Some(p) => match spec_parse_i32(before_char(address.skip(p + 1), ':')) {
            Some(v) => v,
            None => DEFAULT_PORT,
        },
    }
}

/// Where a ready client is sent.
pub enum TransferPlan {
    /// Transfer to `host`:`port`, the address of server `target`.
    Transfer { target: String, host: String, port: i32 },
    /// The target server has no address.
    UnknownTarget { target: String },
}

/// The plan for target server `t`: its address split into host and port,
/// or unknown.
pub open spec fn plan_is(p: TransferPlan, c: TransferConfig, t: Seq<char>) -> bool {
    match server_lookup(c.servers@, t) {
        Some(a) => p matches TransferPlan::Transfer { target, host, port } && target@ == t
            && host@ == address_host(a) && port == address_port(a),
        None => p matches TransferPlan::UnknownTarget { target } && target@ == t,
    }
}

proof fn lemma_digits_value_mono(s: Seq<char>, j: int)
    requires
        0 <= j <= s.len(),
        forall|i: int| 0 <= i < s.len() ==> is_ascii_digit(#[trigger] s[i]),
    ensures
        0 <= digits_value(s.take(j)) <= digits_value(s),
    decreases s.len() - j,
{
    if j < s.len() {
        lemma_digits_value_mono(s, j + 1);
        let t = s.take(j + 1);
        assert(t.drop_last() =~= s.take(j));
        assert(is_ascii_digit(t.last()));
    } else {
        assert(s.take(j) =~= s);
        lemma_digits_value_nonneg(s);
    }
}

proof fn lemma_digits_value_nonneg(s: Seq<char>)
    requires
        forall|i: int| 0 <= i < s.len() ==> is_ascii_digit(#[trigger] s[i]),
    ensures
        digits_value(s) >= 0,
    decreases s.len(),
{
    if s.len() > 0 {
        assert(is_ascii_digit(s[s.len() - 1]));
        lemma_digits_value_nonneg(s.drop_last());
    }
}

/// `str::parse::<i32>`, as `spec_parse_i32` describes it.
pub fn parse_i32(s: &str) -> (r: Option<i32>)
    ensures
        r == spec_parse_i32(s@),
{
    let n = s.unicode_len();
    let mut start: usize = 0;
    let mut negative = false;
    if n > 0 {
        let c = s.get_char(0);
        if c == '-' {
            negative = true;
            start = 1;
        } else if c == '+' {
            start = 1;
        }
    }
    let ghost body = s@.skip(start as int);
    assert(start == 0 ==> body =~= s@);
    assert(negative == (s@.len() > 0 && s@[0] == '-'));
    assert((start == 1) == (s@.len() > 0 && (s@[0] == '-' || s@[0] == '+')));
    if start == n {
        return None;
    }
    let mut acc: i64 = 0;
    let mut i: usize = start;
    while i < n
        invariant
            start <= i <= n,
            n == s@.len(),
            start < n,
            body == s@.skip(start as int),
            start == 0 ==> body == s@,
            negative == (s@.len() > 0 && s@[0] == '-'),
            (start == 1) == (s@.len() > 0 && (s@[0] == '-' || s@[0] == '+')),
            start <= 1,
            forall|k: int| 0 <= k < i - start ==> is_ascii_digit(#[trigger] body[k]),
            acc == digits_value(body.take(i - start)),
            0 <= acc <= 2147483648,
        decreases n - i,
    {
        let c = s.get_char(i);
        proof {
            assert(body[i - start] == c);
            assert(body.take(i - start + 1).drop_last() =~= body.take(i - start));
        }
        if !('0' <= c && c <= '9') {
            assert(!is_ascii_digit(body[i - start]));
            return None;
        }
        let d = (c as u32 - 48) as i64;
        acc = acc * 10 + d;
        i = i + 1;
        assert(body.take(i - start).last() == c);
        assert(acc == digits_value(body.take(i - start)));
        if acc > 2147483648 {
            proof {
                if all_digits(body) {
                    lemma_digits_value_mono(body, i - start);
                    assert(digits_value(body) > 2147483648);
                }
            }
            return None;
        }
    }
    assert(body.take(body.len() as int) =~= body);
    let v: i64 = if negative {
        0 - acc
    } else {
        acc
    };
    if v < -2147483648 || v > 2147483647 {
        None
    } else {
        Some(v as i32)
    }
}

impl TransferConfig {
    /// The target of the first rule that applies to a client at `geo` in
    /// network `asn`.
    fn rule_target(&self, geo: &GeoInfo, asn: Option<&String>) -> (r: Option<String>)
        ensures
            opt_str_view(r) == first_rule_target(
                self.rules@,
                geo@,
                asn_view(asn),
            ),
    {
        let ghost av = match asn {
            Some(a) => Some(a@),
            None => None::<Seq<char>>,
        };
        let n = self.rules.len();
        let mut i: usize = 0;
        assert(self.rules@.skip(0) =~= self.rules@);
        while i < n
            invariant
                i <= n,
                n == self.rules@.len(),
                av == match asn {
                    Some(a) => Some(a@),
                    None => None::<Seq<char>>,
                },
                first_rule_target(self.rules@, geo@, av) == first_rule_target(
                    self.rules@.skip(i as int),
                    geo@,
                    av,
                ),
            decreases n - i,
        {
            assert(self.rules@.skip(i as int).drop_first() =~= self.rules@.skip(i + 1));
            let r = &self.rules[i];
            let asn_ok = match &r.asn {
                Some(want) => match asn {
                    Some(have) => *want == *have,
                    None => false,
                },
                None => true,
            };
            if location_eq(&r.country, &geo.country) && location_eq(&r.region, &geo.region)
                && location_eq(&r.city, &geo.city) && asn_ok {
                return Some(r.target.clone());
            }
            i = i + 1;
        }
        None
    }

    /// The sum of the weights.
    pub fn total_weight(&self) -> (t: u128)
        ensures
            t == weights_total(self.weights@),
    {
        let n = self.weights.len();
        let mut t: u128 = 0;
        let mut i: usize = n;
        while i > 0
            invariant
                i <= n,
                n == self.weights@.len(),
                t == weights_total(self.weights@.skip(i as int)),
                t <= (n - i) * 0xffff_ffff,
            decreases i,
        {
            i = i - 1;
            assert(self.weights@.skip(i as int).drop_first() =~= self.weights@.skip(i + 1));
            let w = self.weights[i].1;
            assert(t + w <= (n - i) * 0xffff_ffff) by (nonlinear_arith)
                requires
                    t <= (n - (i + 1)) * 0xffff_ffff,
                    w <= 0xffff_ffff,
                    i < n,
            ;
            assert((n - i) * 0xffff_ffff <= 0xffff_ffff_ffff_ffff * 0xffff_ffff) by (nonlinear_arith)
                requires
                    n - i <= 0xffff_ffff_ffff_ffff,
            ;
            t = t + w as u128;
        }
        assert(self.weights@.skip(0) =~= self.weights@);
        t
    }

    /// The server whose share of the weights holds `roll`.
    fn pick_weighted(&self, roll: u64) -> (r: Option<String>)
        ensures
            opt_str_view(r) == weighted_pick(self.weights@, roll as int),
    {
        let n = self.weights.len();
        let mut rest: u64 = roll;
        let mut i: usize = 0;
        assert(self.weights@.skip(0) =~= self.weights@);
        while i < n
            invariant
                i <= n,
                n == self.weights@.len(),
                weighted_pick(self.weights@, roll as int) == weighted_pick(
                    self.weights@.skip(i as int),
                    rest as int,
                ),
            decreases n - i,
        {
            assert(self.weights@.skip(i as int).drop_first() =~= self.weights@.skip(i + 1));
            let w = self.weights[i].1 as u64;
            if rest < w {
                return Some(self.weights[i].0.clone());
            }
            rest = rest - w;
            i = i + 1;
        }
        None
    }

    /// The address listed for server `name`.
    fn address_of(&self, name: &String) -> (r: Option<&String>)
        ensures
            match r {
                Some(a) => server_lookup(self.servers@, name@) == Some(a@),
                None => server_lookup(self.servers@, name@) is None,
            },
    {
        let n = self.servers.len();
        let mut i: usize = 0;
        assert(self.servers@.skip(0) =~= self.servers@);
        while i < n
            invariant
                i <= n,
                n == self.servers@.len(),
                server_lookup(self.servers@, name@) == server_lookup(
                    self.servers@.skip(i as int),
                    name@,
                ),
            decreases n - i,
        {
            assert(self.servers@.skip(i as int).drop_first() =~= self.servers@.skip(i + 1));
            if self.servers[i].0 == *name {
                return Some(&self.servers[i].1);
            }
            i = i + 1;
        }
        None
    }

    /// The server a client at `geo` in network `asn` goes to, given the
    /// weighted draw `roll`, and its address.
    pub fn plan_transfer(&self, geo: &GeoInfo, asn: Option<&String>, roll: u64) -> (p: TransferPlan)
        ensures
            plan_is(
                p,
                *self,
                spec_target(
                    *self,
                    geo@,
                    asn_view(asn),
                    roll as int,
                ),
            ),
    {
        let target = self.target(geo, asn, roll);
        match self.address_of(&target) {
            Some(address) => {
                let host = owned(split_first(address.as_str(), ':'));
                let port = port_of(address.as_str());
                TransferPlan::Transfer { target, host, port }
            },
            None => TransferPlan::UnknownTarget { target },
        }
    }

    fn target(&self, geo: &GeoInfo, asn: Option<&String>, roll: u64) -> (t: String)
        ensures
            t@ == spec_target(
                *self,
                geo@,
                asn_view(asn),
                roll as int,
            ),
    {
        let t = match self.rule_target(geo, asn) {
            Some(t) => t,
            None => self.default_server.clone(),
        };
        if t == self.default_server && self.weights.len() > 0 && self.total_weight() > 0 {
            match self.pick_weighted(roll) {
                Some(s) => s,
                None => t,
            }
        } else {
            t
        }
    }

    /// Whether the weights are looked at for a client at `geo` in network
    /// `asn` (see `weights_consulted`).
    pub fn consults_weights(&self, geo: &GeoInfo, asn: Option<&String>) -> (r: bool)
        ensures
            r == weights_consulted(*self, geo@, asn_view(asn)),
    {
        let t = match self.rule_target(geo, asn) {
            Some(t) => t,
            None => self.default_server.clone(),
        };
        t == self.default_server && self.weights.len() > 0
    }

    /// Where a ready client at `geo` in network `asn` is sent. When the
    /// weights are looked at, the draw is uniform over `0..weights_total`;
    /// their sum must then fit in 32 bits, as the weights are added up in
    /// `u32`.
    pub fn choose_transfer(&self, geo: &GeoInfo, asn: Option<&String>) -> (p: TransferPlan)
        requires
            weights_consulted(*self, geo@, asn_view(asn)) ==> weights_total(self.weights@)
                <= u32::MAX,
        ensures
            exists|roll: int|
                0 <= roll && (roll < weights_total(self.weights@) || roll == 0) && plan_is(
                    p,
                    *self,
                    #[trigger] spec_target(
                        *self,
                        geo@,
                        asn_view(asn),
                        roll,
                    ),
                ),
    {
        let roll: u64 = if self.consults_weights(geo, asn) {
            let total = self.total_weight();
            if total > 0 {
                random_below(total as u64)
            } else {
                0
            }
        } else {
            0
        };
        self.plan_transfer(geo, asn, roll)
    }
}

/// The port of `address` (see `address_port`).
pub fn port_of(address: &str) -> (port: i32)
    ensures
        port == address_port(address@),
{
    proof {
        lemma_find_from(address@, 0, ':');
    }
    match find_char(address, 0, ':') {
        None => DEFAULT_PORT,
        Some(p) => {
            let n = address.unicode_len();
            let rest = address.substring_char(p + 1, n);
            assert(rest@ =~= address@.skip(p + 1));
            match parse_i32(split_first(rest, ':')) {
                Some(v) => v,
                None => DEFAULT_PORT,
            }
        },
    }
}

/// Whether a location filter passes (see `location_ok`).
fn location_eq(want: &Option<String>, have: &Option<String>) -> (r: bool)
    ensures
        r == location_ok(*want, opt_str_view(*have)),
{
    match want {
        Some(w) => match have {
            Some(h) => *w == *h,
            None => false,
        },
        None => true,
    }
}

impl Default for TransferConfig {
    /// Two servers, `hub` and `survival`, all weight on `hub`, which is also
    /// the default; no rules.
    fn default() -> (c: TransferConfig)
        ensures
            c.default_server@ == "hub"@,
            c.servers@.len() == 2,
            c.servers@[0].0@ == "hub"@,
            c.servers@[0].1@ == "127.0.0.1:35565"@,
            c.servers@[1].0@ == "survival"@,
            c.servers@[1].1@ == "127.0.0.1:45565"@,
            c.weights@.len() == 1,
            c.weights@[0].0@ == "hub"@,
            c.weights@[0].1 == 100,
            c.rules@.len() == 0,
    {
        TransferConfig {
            default_server: owned("hub"),
            servers: vec![
                (owned("hub"), owned("127.0.0.1:35565")),
                (owned("survival"), owned("127.0.0.1:45565")),
            ],
            weights: vec![(owned("hub"), 100)],
            rules: Vec::new(),
        }
    }
}

/// When a rule applies and names a server other than the default, the
/// client goes there, whatever the draw.
pub proof fn lemma_rule_wins(c: TransferConfig, geo: GeoView, asn: Option<Seq<char>>, roll: int)
    requires
        first_rule_target(c.rules@, geo, asn) matches Some(t) && t != c.default_server@,
    ensures
        spec_target(c, geo, asn, roll) == first_rule_target(c.rules@, geo, asn).unwrap(),
{
}

/// With no applicable rule and no weights that decide, the client goes to
/// the default server.
pub proof fn lemma_default_server(c: TransferConfig, geo: GeoView, asn: Option<Seq<char>>, roll: int)
    requires
        first_rule_target(c.rules@, geo, asn) is None,
        c.weights@.len() == 0 || weights_total(c.weights@) == 0,
    ensures
        spec_target(c, geo, asn, roll) == c.default_server@,
{
}

/// A draw below the total weight picks a listed server whose weight is
/// positive.
pub proof fn lemma_weighted_pick(w: Seq<(String, u32)>, roll: int)
    requires
        0 <= roll < weights_total(w),
    ensures
        weighted_pick(w, roll) matches Some(s) && exists|i: int|
            0 <= i < w.len() && #[trigger] w[i].0@ == s && w[i].1 > 0,
    decreases w.len(),
{
    if roll < w[0].1 {
        assert(w[0].0@ == weighted_pick(w, roll).unwrap());
    } else {
        lemma_weighted_pick(w.drop_first(), roll - w[0].1);
        let s = weighted_pick(w.drop_first(), roll - w[0].1).unwrap();
        let i = choose|i: int|
            0 <= i < w.drop_first().len() && #[trigger] w.drop_first()[i].0@ == s
                && w.drop_first()[i].1 > 0;
        assert(w[i + 1].0@ == s);
    }
}

/// When the weights decide and the draw is below their total, the client
/// goes to a listed server with positive weight.
pub proof fn lemma_weights_decide(c: TransferConfig, geo: GeoView, asn: Option<Seq<char>>, roll: int)
    requires
        uses_weights(c, geo, asn),
        0 <= roll < weights_total(c.weights@),
    ensures
        exists|i: int|
            0 <= i < c.weights@.len() && #[trigger] c.weights@[i].0@ == spec_target(c, geo, asn, roll)
                && c.weights@[i].1 > 0,
{
    lemma_weighted_pick(c.weights@, roll);
}

/// An address without a `:` is reached on the default port, at the whole
/// address as host.
pub proof fn lemma_address_without_port(address: Seq<char>)
    requires
        forall|i: int| 0 <= i < address.len() ==> address[i] != ':',
    ensures
        address_host(address) == address,
        address_port(address) == DEFAULT_PORT,
{
    lemma_find_from(address, 0, ':');
    if find_from(address, 0, ':') is Some {
        let k = find_from(address, 0, ':').unwrap();
        assert(address[k] == ':');
    }
}

/// The rule that decides a target sets no field the client lacks: its
/// country, region, city and network, where set, are the client's.
pub proof fn lemma_rule_target_fields(rules: Seq<TransferRule>, geo: GeoView, asn: Option<Seq<char>>)
    ensures
        first_rule_target(rules, geo, asn) matches Some(t) ==> exists|i: int|
            0 <= i < rules.len() && #[trigger] rules[i].target@ == t && (rules[i].country matches Some(
                x,
            ) ==> geo.country == Some(x@)) && (rules[i].region matches Some(x) ==> geo.region == Some(
                x@,
            )) && (rules[i].city matches Some(x) ==> geo.city == Some(x@)) && (
            rules[i].asn matches Some(x) ==> asn == Some(x@)),
    decreases rules.len(),
{
    if rules.len() > 0 {
        let r = rules[0];
        if !rule_matches(r, geo, asn) {
            lemma_rule_target_fields(rules.drop_first(), geo, asn);
            if let Some(t) = first_rule_target(rules, geo, asn) {
                let i = choose|i: int|
                    0 <= i < rules.drop_first().len() && #[trigger] rules.drop_first()[i].target@ == t
                        && (rules.drop_first()[i].country matches Some(x) ==> geo.country == Some(x@))
                        && (rules.drop_first()[i].region matches Some(x) ==> geo.region == Some(x@))
                        && (rules.drop_first()[i].city matches Some(x) ==> geo.city == Some(x@)) && (
                    rules.drop_first()[i].asn matches Some(x) ==> asn == Some(x@));
                assert(rules[i + 1] == rules.drop_first()[i]);
            }
        } else {
            assert(rules[0].target@ == first_rule_target(rules, geo, asn).unwrap());
        }
    }
}

/// When some field that every rule sets differs from the client's (say a
/// city it is not in), no rule decides.
proof fn lemma_no_rule_target(rules: Seq<TransferRule>, geo: GeoView, asn: Option<Seq<char>>)
    requires
        forall|i: int|
            0 <= i < rules.len() ==> !((#[trigger] rules[i].country matches Some(x) ==> geo.country
                == Some(x@)) && (rules[i].region matches Some(x) ==> geo.region == Some(x@)) && (
            rules[i].city matches Some(x) ==> geo.city == Some(x@)) && (rules[i].asn matches Some(x)
                ==> asn == Some(x@))),
    ensures
        first_rule_target(rules, geo, asn) is None,
    decreases rules.len(),
{
    if rules.len() > 0 {
        assert(rules[0] == rules[0]);
        assert forall|i: int| 0 <= i < rules.drop_first().len() implies !((
        #[trigger] rules.drop_first()[i].country matches Some(x) ==> geo.country == Some(x@)) && (
        rules.drop_first()[i].region matches Some(x) ==> geo.region == Some(x@)) && (
        rules.drop_first()[i].city matches Some(x) ==> geo.city == Some(x@)) && (
        rules.drop_first()[i].asn matches Some(x) ==> asn == Some(x@))) by {
            assert(rules.drop_first()[i] == rules[i + 1]);
        }
        lemma_no_rule_target(rules.drop_first(), geo, asn);
    }
}

/// A client that no rule fits (every rule sets a country, region, city or
/// network other than the client's) goes to the default server, unless the
/// weights pick another.
pub proof fn lemma_unmatched_client_default(
    c: TransferConfig,
    geo: GeoView,
    asn: Option<Seq<char>>,
    roll: int,
)
    requires
        forall|i: int|
            0 <= i < c.rules@.len() ==> !((#[trigger] c.rules@[i].country matches Some(x) ==> geo.country
                == Some(x@)) && (c.rules@[i].region matches Some(x) ==> geo.region == Some(x@)) && (
            c.rules@[i].city matches Some(x) ==> geo.city == Some(x@)) && (c.rules@[i].asn matches Some(
                x,
            ) ==> asn == Some(x@))),
    ensures
        spec_target(c, geo, asn, roll) == if c.weights@.len() > 0 && weights_total(c.weights@) > 0 {
            match weighted_pick(c.weights@, roll) {
                Some(s) => s,
                None => c.default_server@,
            }
        } else {
            c.default_server@
        },
{
    lemma_no_rule_target(c.rules@, geo, asn);
}

} // verus!
