//! The decisions of a DNS-over-HTTPS forwarding proxy: which upstream
//! servers are accepted, which server is asked next, which replies are
//! accepted and how long one may be cached.
//!
//! The network work (HTTP requests, the DNS listener, the cache) is done by
//! the caller, who hands the results to these functions.
use vstd::prelude::*;
use hickory_proto::serialize::binary::BinDecodable;
use crate::text::{self, chars_of, decimal_u64, string_of, to_lowercase};

verus! {

// ---------------------------------------------------------------- configuration

/// The settings of the proxy.
pub struct Config {
    /// Address to listen on for DNS queries.
    pub listen_addr: String,
    /// Upstream DoH server URLs, asked in turn.
    pub doh_servers: Vec<String>,
    /// Timeout of one upstream request, in seconds.
    pub timeout_secs: u64,
    /// Most replies kept in the cache (0: no cache).
    pub cache_size: u64,
    /// Log cache hits and misses.
    pub verbose: bool,
}

/// Why a configuration was refused.
#[derive(Debug)]
pub enum ConfigError {
    /// No upstream server was given.
    NoServers,
    /// This upstream URL does not use HTTPS.
    NotHttps(String),
}

impl ConfigError {
    /// The message shown for the error.
    pub fn message(&self) -> (r: String)
        ensures
            r@ == config_error_text(*self),
    {
        match self {
            ConfigError::NoServers => String::from_str(
                "No DoH upstream servers provided. Use -s to specify at least one.",
            ),
            ConfigError::NotHttps(url) => {
                let mut r = String::from_str("DoH server URL must use HTTPS: ");
                r.append(url.as_str());
                r.append(
                    "\nHint: DNS-over-HTTPS requires TLS. Use a URL like https://1.1.1.1/dns-query",
                );
                r
            },
        }
    }
}

pub open spec fn config_error_text(e: ConfigError) -> Seq<char> {
    match e {
        ConfigError::NoServers => "No DoH upstream servers provided. Use -s to specify at least one."@,
        ConfigError::NotHttps(url) => "DoH server URL must use HTTPS: "@ + url@
            + "\nHint: DNS-over-HTTPS requires TLS. Use a URL like https://1.1.1.1/dns-query"@,
    }
}

pub open spec fn https_prefix() -> Seq<char> {
    seq!['h', 't', 't', 'p', 's', ':', '/', '/']
}

/// Whether an already lower-cased URL starts with `https://`.
pub fn is_https(lowered: &str) -> (r: bool)
    ensures
        r == https_prefix().is_prefix_of(lowered@),
{
    let cs = chars_of(lowered);
    let mut p: Vec<char> = Vec::new();
    p.push('h');
    p.push('t');
    p.push('t');
    p.push('p');
    p.push('s');
    p.push(':');
    p.push('/');
    p.push('/');
    assert(p@ =~= https_prefix());
    text::has_prefix(&cs, &p)
}

/// The URL is accepted as an upstream server: in lower case it starts with
/// `https://`.
pub open spec fn https_url(url: Seq<char>) -> bool {
    https_prefix().is_prefix_of(text::lowercase(url))
}

impl Config {
    /// Checks the upstream servers: there is at least one, and each uses
    /// HTTPS (in any letter case). The first that does not is named.
    pub fn validate_doh_servers(&self) -> (r: Result<(), ConfigError>)
        ensures
            self.doh_servers@.len() == 0 ==> r matches Err(ConfigError::NoServers),
            self.doh_servers@.len() > 0 ==> match r {
                Ok(()) => forall|i: int|
                    0 <= i < self.doh_servers@.len() ==> https_url(#[trigger] self.doh_servers@[i]@),
                Err(ConfigError::NotHttps(url)) => exists|i: int|
                    0 <= i < self.doh_servers@.len() && url@ == self.doh_servers@[i]@ && !https_url(
                        self.doh_servers@[i]@,
                    ) && forall|k: int| 0 <= k < i ==> https_url(#[trigger] self.doh_servers@[k]@),
                Err(ConfigError::NoServers) => false,
            },
    {
        if self.doh_servers.len() == 0 {
            return Err(ConfigError::NoServers);
        }
        let mut i: usize = 0;
        while i < self.doh_servers.len()
            invariant
                i <= self.doh_servers.len(),
                forall|k: int| 0 <= k < i ==> https_url(#[trigger] self.doh_servers@[k]@),
            decreases self.doh_servers.len() - i,
        {
            let url = &self.doh_servers[i];
            let lowered = to_lowercase(url.as_str());
            if !is_https(lowered.as_str()) {
                return Err(ConfigError::NotHttps(url.clone()));
            }
            i = i + 1;
        }
        Ok(())
    }
}

// ---------------------------------------------------------------- DNS replies

/// A DNS message as decoded from the wire.
#[verifier::external_type_specification]
#[verifier::external_body]
pub struct ExDnsMessage(hickory_proto::op::Message);

/// The error of a failed decoding.
#[verifier::external_type_specification]
#[verifier::external_body]
pub struct ExDnsError(hickory_proto::error::ProtoError);

/// What `Message::from_bytes` of hickory-proto makes of `bytes`, read as the
/// response code (as a `u16`) and the TTLs of the answer and authority
/// records in order; `None` where decoding fails. It depends on the bytes
/// alone.
pub uninterp spec fn dns_decode(bytes: Seq<u8>) -> Option<(u16, Seq<u32>, Seq<u32>)>;

/// A decoded reply of an upstream server, with what the proxy reads of it.
pub struct DnsResponse {
    /// The decoded message, handed on to the client.
    pub message: hickory_proto::op::Message,
    /// Its response code.
    pub rcode: u16,
    /// The TTLs of its answer records.
    pub answer_ttls: Vec<u32>,
    /// The TTLs of its authority records.
    pub authority_ttls: Vec<u32>,
}

/// Decodes a DNS message with hickory-proto's `Message::from_bytes`, and
/// reads its response code and the TTLs of its answer and authority
/// records. The contract claims only that the result is the one named by
/// `dns_decode` for these bytes.
#[verifier::external_body]
fn decode_message(bytes: &[u8]) -> (r: Result<DnsResponse, hickory_proto::error::ProtoError>)
    ensures
        match r {
            Ok(d) => dns_decode(bytes@) == Some((d.rcode, d.answer_ttls@, d.authority_ttls@)),
            Err(_) => dns_decode(bytes@) is None,
        },
{
    let message = hickory_proto::op::Message::from_bytes(bytes)?;
    let rcode: u16 = message.response_code().into();
    let answer_ttls = message.answers().iter().map(|rec| rec.ttl()).collect();
    let authority_ttls = message.name_servers().iter().map(|rec| rec.ttl()).collect();
    Ok(DnsResponse { message, rcode, answer_ttls, authority_ttls })
}

/// The text of a decoding error, as its `Display` writes it; nothing is
/// claimed of it.
#[verifier::external_body]
fn dns_error_text(e: &hickory_proto::error::ProtoError) -> String {
    e.to_string()
}

/// Smallest of `s`, `u32::MAX` for none.
pub open spec fn min_ttl(s: Seq<u32>) -> u32
    decreases s.len(),
{
    if s.len() == 0 {
        u32::MAX
    } else if s.last() < min_ttl(s.drop_last()) {
        s.last()
    } else {
        min_ttl(s.drop_last())
    }
}

/// How long a reply may be cached: the smallest TTL of its answer and
/// authority records, at most an hour; five minutes for a reply with no
/// such record.
pub open spec fn cache_ttl(answers: Seq<u32>, authorities: Seq<u32>) -> u32 {
    let m = min_ttl(answers + authorities);
    if answers.len() == 0 && authorities.len() == 0 {
        300
    } else if m > 3600 {
        3600
    } else {
        m
    }
}

fn min_ttl_exec(s: &Vec<u32>, start: u32) -> (r: u32)
    ensures
        r == if min_ttl(s@) < start {
            min_ttl(s@)
        } else {
            start
        },
{
    let mut m = start;
    let mut i: usize = 0;
    while i < s.len()
        invariant
            i <= s.len(),
            m == if min_ttl(s@.take(i as int)) < start {
                min_ttl(s@.take(i as int))
            } else {
                start
            },
        decreases s.len() - i,
    {
        assert(s@.take(i + 1).drop_last() =~= s@.take(i as int));
        if s[i] < m {
            m = s[i];
        }
        i = i + 1;
    }
    assert(s@.take(s.len() as int) =~= s@);
    m
}

proof fn lemma_min_ttl_concat(a: Seq<u32>, b: Seq<u32>)
    ensures
        min_ttl(a + b) == if min_ttl(b) < min_ttl(a) {
            min_ttl(b)
        } else {
            min_ttl(a)
        },
    decreases b.len(),
{
    if b.len() == 0 {
        assert(a + b =~= a);
    } else {
        assert((a + b).drop_last() =~= a + b.drop_last());
        lemma_min_ttl_concat(a, b.drop_last());
    }
}

/// How long `response` may be cached, in seconds.
pub fn calculate_ttl(response: &DnsResponse) -> (r: u32)
    ensures
        r == cache_ttl(response.answer_ttls@, response.authority_ttls@),
{
    let a = min_ttl_exec(&response.answer_ttls, u32::MAX);
    let m = min_ttl_exec(&response.authority_ttls, a);
    proof {
        lemma_min_ttl_concat(response.answer_ttls@, response.authority_ttls@);
    }
    if response.answer_ttls.len() == 0 && response.authority_ttls.len() == 0 {
        300
    } else if m > 3600 {
        3600
    } else {
        m
    }
}

proof fn lemma_min_ttl_le(s: Seq<u32>, i: int)
    requires
        0 <= i < s.len(),
    ensures
        min_ttl(s) <= s[i],
    decreases s.len(),
{
    if i < s.len() - 1 {
        lemma_min_ttl_le(s.drop_last(), i);
    }
}

proof fn lemma_min_ttl_member(s: Seq<u32>)
    ensures
        min_ttl(s) == u32::MAX || exists|i: int| 0 <= i < s.len() && s[i] == min_ttl(s),
    decreases s.len(),
{
    if s.len() > 0 {
        lemma_min_ttl_member(s.drop_last());
        if min_ttl(s) != u32::MAX && min_ttl(s) == min_ttl(s.drop_last()) {
            let i = choose|i: int| 0 <= i < s.len() - 1 && s.drop_last()[i] == min_ttl(s.drop_last());
            assert(s[i] == min_ttl(s));
        }
    }
}

/// A reply is cached for at most an hour, and never longer than any of its
/// answer or authority records allows; a reply with no such record is
/// cached for five minutes, and one with records for the smallest of their
/// TTLs or an hour, whichever is less.
pub proof fn law_cache_ttl_bounds(answers: Seq<u32>, authorities: Seq<u32>)
    ensures
        cache_ttl(answers, authorities) <= 3600,
        forall|i: int|
            0 <= i < answers.len() ==> cache_ttl(answers, authorities) <= #[trigger] answers[i],
        forall|i: int|
            0 <= i < authorities.len() ==> cache_ttl(answers, authorities) <= #[trigger] authorities[i],
        answers.len() == 0 && authorities.len() == 0 ==> cache_ttl(answers, authorities) == 300,
        answers.len() + authorities.len() > 0 ==> (cache_ttl(answers, authorities) == 3600 || exists|
            i: int,
        |
            0 <= i < (answers + authorities).len() && (answers + authorities)[i] == cache_ttl(
                answers,
                authorities,
            )),
        answers.len() + authorities.len() > 0 && (forall|i: int|
            0 <= i < (answers + authorities).len() ==> #[trigger] (answers + authorities)[i] >= 3600)
            ==> cache_ttl(answers, authorities) == 3600,
{
    let all = answers + authorities;
    assert forall|i: int| 0 <= i < answers.len() implies cache_ttl(answers, authorities)
        <= #[trigger] answers[i] by {
        assert(all[i] == answers[i]);
        lemma_min_ttl_le(all, i);
    }
    assert forall|i: int| 0 <= i < authorities.len() implies cache_ttl(answers, authorities)
        <= #[trigger] authorities[i] by {
        assert(all[answers.len() + i] == authorities[i]);
        lemma_min_ttl_le(all, answers.len() + i);
    }
    lemma_min_ttl_member(all);
    if all.len() > 0 {
        lemma_min_ttl_nonempty(all);
    }
}

/// The minimum of a non-empty sequence is one of its elements.
proof fn lemma_min_ttl_nonempty(s: Seq<u32>)
    requires
        s.len() > 0,
    ensures
        exists|i: int| 0 <= i < s.len() && s[i] == min_ttl(s),
    decreases s.len(),
{
    if s.len() > 1 {
        lemma_min_ttl_nonempty(s.drop_last());
        if min_ttl(s) == min_ttl(s.drop_last()) {
            let i = choose|i: int| 0 <= i < s.len() - 1 && s.drop_last()[i] == min_ttl(s.drop_last());
            assert(s[i] == min_ttl(s));
        } else {
            assert(s[s.len() - 1] == min_ttl(s));
        }
    } else {
        assert(s.drop_last().len() == 0);
        assert(min_ttl(s.drop_last()) == u32::MAX);
        assert(s.last() == s[0]);
        assert(s[0] == min_ttl(s));
    }
}

/// Response codes whose replies may be cached: NOERROR (0) and NXDOMAIN (3).
pub open spec fn cacheable_rcode(rcode: u16) -> bool {
    rcode == 0 || rcode == 3
}

/// How long a reply with response code `rcode` and these TTLs is cached:
/// `None` where it is not cached.
pub open spec fn lifetime(rcode: u16, answers: Seq<u32>, authorities: Seq<u32>) -> Option<u32> {
    if cacheable_rcode(rcode) && cache_ttl(answers, authorities) > 0 {
        Some(cache_ttl(answers, authorities))
    } else {
        None
    }
}

/// Only NOERROR (0) and NXDOMAIN (3) replies are cached, for their cache TTL
/// when that is positive; a reply with any other response code is never
/// cached, whatever its records.
pub proof fn law_only_answers_are_cached(rcode: u16, answers: Seq<u32>, authorities: Seq<u32>)
    ensures
        lifetime(rcode, answers, authorities) is Some ==> rcode == 0 || rcode == 3,
        rcode != 0 && rcode != 3 ==> lifetime(rcode, answers, authorities) is None,
        (rcode == 0 || rcode == 3) && cache_ttl(answers, authorities) > 0 ==> lifetime(
            rcode,
            answers,
            authorities,
        ) == Some(cache_ttl(answers, authorities)),
        cache_ttl(answers, authorities) == 0 ==> lifetime(rcode, answers, authorities) is None,
        lifetime(rcode, answers, authorities) matches Some(t) ==> t > 0 && t <= 3600,
{
    law_cache_ttl_bounds(answers, authorities);
}

/// How long to cache `response`: `None` where it is not cached (a response
/// code other than NOERROR or NXDOMAIN, or a TTL of 0).
pub fn cache_lifetime(response: &DnsResponse) -> (r: Option<u32>)
    ensures
        r == lifetime(response.rcode, response.answer_ttls@, response.authority_ttls@),
{
    let ttl = calculate_ttl(response);
    if (response.rcode == 0 || response.rcode == 3) && ttl > 0 {
        Some(ttl)
    } else {
        None
    }
}

/// The capacity of the reply cache: no cache when the configured size is 0.
pub fn cache_capacity(size: u64) -> (r: Option<u64>)
    ensures
        r == if size > 0 {
            Some(size)
        } else {
            None::<u64>
        },
{
    if size > 0 {
        Some(size)
    } else {
        None
    }
}

/// The key a reply is cached under: the query name in lower case, the query
/// type and class, and whether DNSSEC records were asked for.
pub open spec fn key_of(name: Seq<char>, qtype: u16, qclass: u16, dnssec_ok: bool) -> (
    Seq<char>,
    u16,
    u16,
    bool,
) {
    (text::lowercase(name), qtype, qclass, dnssec_ok)
}

/// Each name (in any letter case), record type, class and DNSSEC wish has a
/// cache entry of its own: two queries share an entry exactly when their
/// lower-cased names and the rest agree.
pub proof fn law_cache_entry_per_query(
    a: Seq<char>,
    at: u16,
    ac: u16,
    ad: bool,
    b: Seq<char>,
    bt: u16,
    bc: u16,
    bd: bool,
)
    ensures
        key_of(a, at, ac, ad) == key_of(b, bt, bc, bd) <==> (text::lowercase(a) == text::lowercase(b)
            && at == bt && ac == bc && ad == bd),
{
}

/// The key a reply is cached under.
pub fn cache_key(name: &str, qtype: u16, qclass: u16, dnssec_ok: bool) -> (r: (
    String,
    u16,
    u16,
    bool,
))
    ensures
        (r.0@, r.1, r.2, r.3) == key_of(name@, qtype, qclass, dnssec_ok),
{
    (to_lowercase(name), qtype, qclass, dnssec_ok)
}

// ---------------------------------------------------------------- upstream replies

/// The largest DNS message: 65535 bytes.
pub const MAX_DNS_RESPONSE_SIZE: u64 = 65535;

/// Why an upstream server's reply was not used.
#[derive(Debug)]
pub enum DohError {
    /// The HTTP status was not a success; its code and reason phrase.
    Status { code: u16, reason: String },
    /// The reply is larger than a DNS message may be.
    TooLarge { len: u64 },
    /// The body is not a DNS message.
    Decode(String),
    /// The request failed (connection, timeout, ...).
    Transport(String),
    /// No server was configured.
    NoServers,
}

pub open spec fn doh_error_text(e: DohError) -> Seq<char> {
    match e {
        DohError::Status { code, reason } => "DoH server returned status: "@ + text::dec(
            code as nat,
        ) + " "@ + reason@,
        DohError::TooLarge { len } => "DoH response too large: "@ + text::dec(len as nat)
            + " bytes (max 65535)"@,
        DohError::Decode(t) => t@,
        DohError::Transport(t) => t@,
        DohError::NoServers => "No DoH servers available"@,
    }
}

impl DohError {
    /// The message shown for the error.
    pub fn message(&self) -> (r: String)
        ensures
            r@ == doh_error_text(*self),
    {
        match self {
            DohError::Status { code, reason } => {
                let mut r = String::from_str("DoH server returned status: ");
                r.append(string_of(&decimal_u64(*code as u64)).as_str());
                r.append(" ");
                r.append(reason.as_str());
                r
            },
            DohError::TooLarge { len } => {
                let mut r = String::from_str("DoH response too large: ");
                r.append(string_of(&decimal_u64(*len)).as_str());
                r.append(" bytes (max 65535)");
                r
            },
            DohError::Decode(t) => t.clone(),
            DohError::Transport(t) => t.clone(),
            DohError::NoServers => String::from_str("No DoH servers available"),
        }
    }
}

/// Checks the status line and announced length of an upstream reply: the
/// status must be a success (200 to 299) and an announced length at most
/// 65535 bytes.
pub fn check_reply_head(status: u16, reason: &str, content_length: Option<u64>) -> (r: Result<
    (),
    DohError,
>)
    ensures
        !(200 <= status <= 299) ==> (r matches Err(DohError::Status { code, reason: t }) && code
            == status && t@ == reason@),
        200 <= status <= 299 ==> match content_length {
            Some(len) if len > 65535 => (r matches Err(DohError::TooLarge { len: l }) && l == len),
            _ => r is Ok,
        },
{
    if !(200 <= status && status <= 299) {
        return Err(DohError::Status { code: status, reason: String::from_str(reason) });
    }
    match content_length {
        Some(len) => {
            if len > MAX_DNS_RESPONSE_SIZE {
                Err(DohError::TooLarge { len })
            } else {
                Ok(())
            }
        },
        None => Ok(()),
    }
}

/// Takes in the body of an upstream reply: at most 65535 bytes, and a DNS
/// message.
pub fn accept_reply_body(body: &[u8]) -> (r: Result<DnsResponse, DohError>)
    ensures
        body@.len() > 65535 ==> (r matches Err(DohError::TooLarge { len }) && len == body@.len()),
        body@.len() <= 65535 ==> match r {
            Ok(d) => dns_decode(body@) == Some((d.rcode, d.answer_ttls@, d.authority_ttls@)),
            Err(DohError::Decode(_)) => dns_decode(body@) is None,
            Err(_) => false,
        },
{
    let n = body.len();
    if n as u64 > MAX_DNS_RESPONSE_SIZE {
        return Err(DohError::TooLarge { len: n as u64 });
    }
    match decode_message(body) {
        Ok(d) => Ok(d),
        Err(e) => Err(DohError::Decode(dns_error_text(&e))),
    }
}

// ---------------------------------------------------------------- fail-over

/// The servers tried for one query: starting from the one that last
/// answered, each in turn until one answers.
pub struct Failover {
    /// The server tried first.
    pub start: usize,
    /// How many servers there are.
    pub count: usize,
    /// How many have been tried.
    pub tried: usize,
    /// What the last server tried answered.
    pub last_error: Option<DohError>,
}

/// The server tried at step `i` of a fail-over from `start` over `count`
/// servers.
pub open spec fn target(start: int, count: int, i: int) -> int {
    (start + i) % count
}

impl Failover {
    pub open spec fn wf(self) -> bool {
        &&& self.tried <= self.count
        &&& (self.count > 0 ==> self.start < self.count)
    }

    /// A fail-over over `count` servers starting from `start` (the server
    /// that answered last; taken modulo `count`).
    pub fn new(start: usize, count: usize) -> (r: Failover)
        ensures
            r.wf(),
            r.count == count,
            r.tried == 0,
            r.last_error is None,
            count > 0 ==> r.start == start % count,
    {
        let s = if count > 0 {
            start % count
        } else {
            0
        };
        Failover { start: s, count, tried: 0, last_error: None }
    }

    /// The server to ask next, `None` when all have been tried.
    pub fn next_server(&self) -> (r: Option<usize>)
        requires
            self.wf(),
        ensures
            match r {
                Some(k) => self.tried < self.count && k == target(
                    self.start as int,
                    self.count as int,
                    self.tried as int,
                ) && k < self.count,
                None => self.tried == self.count,
            },
    {
        if self.tried < self.count {
            let k = if self.start < self.count - self.tried {
                self.start + self.tried
            } else {
                self.start - (self.count - self.tried)
            };
            assert(k == (self.start + self.tried) % (self.count as int)) by {
                lemma_mod_small(self.start + self.tried, self.count as int);
            }
            Some(k)
        } else {
            None
        }
    }

    /// Records that the server asked last failed with `e`.
    pub fn record_failure(&mut self, e: DohError)
        requires
            old(self).wf(),
            old(self).tried < old(self).count,
        ensures
            final(self).wf(),
            final(self).tried == old(self).tried + 1,
            final(self).start == old(self).start,
            final(self).count == old(self).count,
            final(self).last_error == Some(e),
    {
        self.tried = self.tried + 1;
        self.last_error = Some(e);
    }

    /// The error of a query that no server answered: the last failure, or
    /// `NoServers` where there was no server to ask.
    pub fn into_error(self) -> (r: DohError)
        ensures
            r == match self.last_error {
                Some(e) => e,
                None => DohError::NoServers,
            },
    {
        match self.last_error {
            Some(e) => e,
            None => DohError::NoServers,
        }
    }
}

/// Server `k` is asked at some step of a fail-over from `start`.
pub open spec fn asked(start: int, count: int, k: int) -> bool {
    exists|i: int| 0 <= i < count && #[trigger] target(start, count, i) == k
}

/// A fail-over asks every server exactly once: the targets of its steps
/// are distinct, and every server is among them.
pub proof fn law_failover_visits_each_server_once(start: int, count: int)
    requires
        0 <= start < count,
    ensures
        forall|i: int, j: int|
            0 <= i < j < count ==> target(start, count, i) != target(start, count, j),
        forall|k: int| 0 <= k < count ==> #[trigger] asked(start, count, k),
{
    assert forall|i: int, j: int| 0 <= i < j < count implies target(start, count, i) != target(
        start,
        count,
        j,
    ) by {
        lemma_mod_small(start + i, count);
        lemma_mod_small(start + j, count);
    }
    assert forall|k: int| 0 <= k < count implies #[trigger] asked(start, count, k) by {
        let i = if k >= start {
            k - start
        } else {
            k + count - start
        };
        lemma_mod_small(start + i, count);
        assert(target(start, count, i) == k);
    }
}

/// `x % n` for `0 <= x < 2n`.
proof fn lemma_mod_small(x: int, n: int)
    requires
        0 <= x < 2 * n,
        n > 0,
    ensures
        x % n == if x < n {
            x
        } else {
            x - n
        },
{
    if x < n {
        vstd::arithmetic::div_mod::lemma_small_mod(x as nat, n as nat);
    } else {
        vstd::arithmetic::div_mod::lemma_small_mod((x - n) as nat, n as nat);
        vstd::arithmetic::div_mod::lemma_mod_add_multiples_vanish(x - n, n);
    }
}

// ---------------------------------------------------------------- the DNS handler

/// What happened while answering a client's DNS request.
#[derive(Clone, Copy, Debug, PartialEq, Eq, Structural)]
pub enum HandlerEvent {
    /// A request came in; whether it holds a question.
    Received { has_query: bool },
    /// The upstream query ended; whether it brought a reply.
    Upstream { ok: bool },
    /// The reply to the client was sent, or not.
    Sent { ok: bool },
}

/// What the handler does next.
#[derive(Clone, Copy, Debug, PartialEq, Eq, Structural)]
pub enum HandlerAction {
    /// Answer the client with an error of this response code.
    ReplyError(u16),
    /// Ask the upstream servers.
    Forward,
    /// Send the upstream reply to the client.
    SendAnswer,
    /// Nothing more to do.
    Finish,
}

/// The DNS response code FORMERR.
pub const RCODE_FORMERR: u16 = 1;

/// The DNS response code SERVFAIL.
pub const RCODE_SERVFAIL: u16 = 2;

/// What the handler does after `event`: a request without a question gets
/// FORMERR; a failed upstream query, or a reply that could not be sent,
/// SERVFAIL.
pub fn handler_step(event: HandlerEvent) -> (r: HandlerAction)
    ensures
        r == match event {
            HandlerEvent::Received { has_query } => if has_query {
                HandlerAction::Forward
            } else {
                HandlerAction::ReplyError(1)
            },
            HandlerEvent::Upstream { ok } => if ok {
                HandlerAction::SendAnswer
            } else {
                HandlerAction::ReplyError(2)
            },
            HandlerEvent::Sent { ok } => if ok {
                HandlerAction::Finish
            } else {
                HandlerAction::ReplyError(2)
            },
        },
{
    match event {
        HandlerEvent::Received { has_query } => if has_query {
            HandlerAction::Forward
        } else {
            HandlerAction::ReplyError(RCODE_FORMERR)
        },
        HandlerEvent::Upstream { ok } => if ok {
            HandlerAction::SendAnswer
        } else {
            HandlerAction::ReplyError(RCODE_SERVFAIL)
        },
        HandlerEvent::Sent { ok } => if ok {
            HandlerAction::Finish
        } else {
            HandlerAction::ReplyError(RCODE_SERVFAIL)
        },
    }
}

} // verus!
